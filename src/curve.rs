use vstd::arithmetic::div_mod::{lemma_div_is_ordered, lemma_div_multiples_vanish};
use vstd::prelude::*;

verus! {

/// Highest temperature, in degrees Celsius, that a curve describes.
pub const MAX_TEMP: u32 = 100;

/// Highest fan duty, in percent.
pub const MAX_DUTY: u32 = 100;

/// Temperatures strictly increase along `c`.
pub open spec fn temps_increasing(c: Seq<(u32, u32)>) -> bool {
    forall|i: int, j: int| 0 <= i < j < c.len() ==> c[i].0 < c[j].0
}

/// `c` is a well-formed curve: non-empty, temperatures strictly increasing from 0 to
/// 100, every temperature and duty within `0..=100`.
pub open spec fn curve_wf(c: Seq<(u32, u32)>) -> bool {
    &&& c.len() > 0
    &&& c[0].0 == 0
    &&& c.last().0 == MAX_TEMP
    &&& temps_increasing(c)
    &&& forall|i: int| 0 <= i < c.len() ==> c[i].0 <= MAX_TEMP && c[i].1 <= MAX_DUTY
}

/// The duty at temperature `t` on the line through `lo` and `hi`:
/// `d0 + (t - t0) * (d1 - d0) / (t1 - t0)`, rounded toward zero. Written over the
/// common denominator; for `t0 <= t <= t1` the numerator is never negative, so the
/// floor that `/` takes is the rounding toward zero.
pub open spec fn segment_duty(lo: (u32, u32), hi: (u32, u32), t: int) -> int {
    (lo.1 * (hi.0 - lo.0) + (t - lo.0) * (hi.1 - lo.1)) / (hi.0 - lo.0)
}

/// The duty that `c` gives temperature `t`, for `t` at or above the first
/// keypoint: on the first segment whose upper end lies above `t`, or the last
/// keypoint's duty where there is none.
pub open spec fn duty_on(c: Seq<(u32, u32)>, t: int) -> int
    decreases c.len(),
{
    if c.len() == 0 {
        0
    } else if c.len() == 1 {
        c[0].1 as int
    } else if t < c[1].0 {
        segment_duty(c[0], c[1], t)
    } else {
        duty_on(c.drop_first(), t)
    }
}

/// A temperature brought into `0..=100`: a reading below 0 counts as 0, one above
/// 100 as 100.
pub open spec fn clamp_temp(t: int) -> int {
    if t < 0 {
        0
    } else if t > MAX_TEMP {
        MAX_TEMP as int
    } else {
        t
    }
}

/// The duty that the curve `c` asks for at temperature `t`.
pub open spec fn interp(c: Seq<(u32, u32)>, t: int) -> int {
    duty_on(c, clamp_temp(t))
}

/// A fan curve: keypoints `(temperature, duty)` with unique temperatures in
/// increasing order, anchored at 0 and at 100 degrees.
pub struct Curve {
    points: Vec<(u32, u32)>,
}

impl View for Curve {
    type V = Seq<(u32, u32)>;

    closed spec fn view(&self) -> Seq<(u32, u32)> {
        self.points@
    }
}

impl Curve {
    pub open spec fn wf(&self) -> bool {
        curve_wf(self@)
    }

    /// Wraps keypoints that already form a well-formed curve.
    pub(crate) fn from_points(points: Vec<(u32, u32)>) -> (r: Curve)
        requires
            curve_wf(points@),
        ensures
            r@ == points@,
            r.wf(),
    {
        Curve { points }
    }

    /// The keypoints, in increasing order of temperature.
    pub fn points(&self) -> (r: &Vec<(u32, u32)>)
        ensures
            r@ == self@,
    {
        &self.points
    }

    /// The duty, in percent, that the curve asks for at temperature `temp`: linear
    /// between the two keypoints around it, the first keypoint's duty below 0 and
    /// the last one's from 100 up.
    pub fn interpolate(&self, temp: i64) -> (duty: u32)
        requires
            self.wf(),
        ensures
            duty as int == interp(self@, temp as int),
            duty <= MAX_DUTY,
    {
        let ghost c = self@;
        let t: u32 = if temp < 0 {
            0
        } else if temp > MAX_TEMP as i64 {
            MAX_TEMP
        } else {
            temp as u32
        };
        proof {
            lemma_duty_bounded(c, t as int);
        }
        let n: usize = self.points.len();
        let mut i: usize = 0;
        assert(c.subrange(0, n as int) =~= c);
        while i + 1 < n && self.points[i + 1].0 <= t
            invariant
                c == self@,
                curve_wf(c),
                n == c.len(),
                0 <= i < n,
                c[i as int].0 <= t,
                duty_on(c.subrange(i as int, n as int), t as int) == duty_on(c, t as int),
            decreases n - i,
        {
            assert(c.subrange(i as int, n as int).drop_first() =~= c.subrange(i + 1, n as int));
            i = i + 1;
        }
        let ghost rest = c.subrange(i as int, n as int);
        if i + 1 == n {
            return self.points[i].1;
        }
        let (t0, d0) = self.points[i];
        let (t1, d1) = self.points[i + 1];
        assert(rest[0] == c[i as int] && rest[1] == c[i + 1]);
        let den: u32 = t1 - t0;
        let dt: u32 = t - t0;
        let num: u32 = if d0 <= d1 {
            assert(d0 * den + dt * (d1 - d0) <= 100 * 100 + 100 * 100) by (nonlinear_arith)
                requires
                    d0 <= 100,
                    d1 <= 100,
                    den <= 100,
                    dt <= 100,
                    d0 <= d1,
            ;
            d0 * den + dt * (d1 - d0)
        } else {
            assert(dt * (d0 - d1) <= d0 * den && d0 * den <= 100 * 100) by (nonlinear_arith)
                requires
                    d0 <= 100,
                    dt <= den,
                    d1 < d0,
                    den <= 100,
            ;
            d0 * den - dt * (d0 - d1)
        };
        assert(num as int == d0 * den + (t - t0) * (d1 - d0)) by (nonlinear_arith)
            requires
                d0 <= d1 ==> num as int == d0 * den + dt * (d1 - d0),
                d1 < d0 ==> num as int == d0 * den - dt * (d0 - d1),
                dt == t - t0,
        ;
        assert(duty_on(rest, t as int) == segment_duty(c[i as int], c[i + 1], t as int));
        num / den
    }
}

/// The line through `lo` and `hi` passes through `lo` and through `hi`.
proof fn lemma_segment_ends(lo: (u32, u32), hi: (u32, u32))
    requires
        lo.0 < hi.0,
    ensures
        segment_duty(lo, hi, lo.0 as int) == lo.1,
        segment_duty(lo, hi, hi.0 as int) == hi.1,
{
    let den = hi.0 - lo.0;
    assert(lo.1 * den + (hi.0 - lo.0) * (hi.1 - lo.1) == den * hi.1) by (nonlinear_arith)
        requires
            den == hi.0 - lo.0,
    ;
    assert(lo.1 * den + (lo.0 - lo.0) * (hi.1 - lo.1) == den * lo.1) by (nonlinear_arith);
    lemma_div_multiples_vanish(lo.1 as int, den);
    lemma_div_multiples_vanish(hi.1 as int, den);
}

/// On a segment, the line stays between the duties of its two ends.
proof fn lemma_segment_between(lo: (u32, u32), hi: (u32, u32), t: int)
    requires
        lo.0 <= t <= hi.0,
        lo.0 < hi.0,
    ensures
        lo.1 <= hi.1 ==> lo.1 <= segment_duty(lo, hi, t) <= hi.1,
        hi.1 < lo.1 ==> hi.1 <= segment_duty(lo, hi, t) <= lo.1,
{
    let den = hi.0 - lo.0;
    let num = lo.1 * den + (t - lo.0) * (hi.1 - lo.1);
    lemma_div_multiples_vanish(lo.1 as int, den);
    lemma_div_multiples_vanish(hi.1 as int, den);
    if lo.1 <= hi.1 {
        assert(den * lo.1 <= num <= den * hi.1) by (nonlinear_arith)
            requires
                num == lo.1 * den + (t - lo.0) * (hi.1 - lo.1),
                den == hi.0 - lo.0,
                lo.0 <= t <= hi.0,
                lo.1 <= hi.1,
        ;
        lemma_div_is_ordered(den * lo.1, num, den);
        lemma_div_is_ordered(num, den * hi.1, den);
    } else {
        assert(den * hi.1 <= num <= den * lo.1) by (nonlinear_arith)
            requires
                num == lo.1 * den + (t - lo.0) * (hi.1 - lo.1),
                den == hi.0 - lo.0,
                lo.0 <= t <= hi.0,
                hi.1 < lo.1,
        ;
        lemma_div_is_ordered(den * hi.1, num, den);
        lemma_div_is_ordered(num, den * lo.1, den);
    }
}

/// Between its first and last temperature, an increasing curve gives a duty
/// within `0..=100` when all of its duties are.
proof fn lemma_duty_on_bounded(c: Seq<(u32, u32)>, t: int)
    requires
        c.len() > 0,
        temps_increasing(c),
        c[0].0 <= t,
        forall|i: int| 0 <= i < c.len() ==> c[i].1 <= MAX_DUTY,
    ensures
        0 <= duty_on(c, t) <= MAX_DUTY,
    decreases c.len(),
{
    if c.len() > 1 {
        if t < c[1].0 {
            lemma_segment_between(c[0], c[1], t);
        } else {
            lemma_duty_on_bounded(c.drop_first(), t);
        }
    }
}

proof fn lemma_duty_bounded(c: Seq<(u32, u32)>, t: int)
    requires
        curve_wf(c),
        0 <= t,
    ensures
        0 <= duty_on(c, t) <= MAX_DUTY,
{
    lemma_duty_on_bounded(c, t);
}

/// On the segment from keypoint `j` to keypoint `j + 1`, both ends included, an
/// increasing curve gives the duty on the line through those two keypoints.
proof fn lemma_duty_on_segment(c: Seq<(u32, u32)>, j: int, t: int)
    requires
        temps_increasing(c),
        0 <= j < c.len() - 1,
        c[j].0 <= t <= c[j + 1].0,
    ensures
        duty_on(c, t) == segment_duty(c[j], c[j + 1], t),
    decreases j,
{
    let rest = c.drop_first();
    if j == 0 {
        if t == c[1].0 {
            lemma_segment_ends(c[0], c[1]);
            assert(rest[0] == c[1]);
            if rest.len() > 1 {
                assert(rest[1] == c[2] && c[1].0 < c[2].0);
                lemma_segment_ends(rest[0], rest[1]);
                assert(duty_on(rest, t) == c[1].1);
            }
            assert(duty_on(c, t) == duty_on(rest, t));
        }
    } else {
        assert(c[1].0 <= c[j].0);
        assert(rest[j - 1] == c[j] && rest[j] == c[j + 1]);
        lemma_duty_on_segment(rest, j - 1, t);
        assert(duty_on(c, t) == duty_on(rest, t));
    }
}

/// At each keypoint's temperature, a well-formed curve gives that keypoint's duty.
pub proof fn lemma_interp_at_keypoint(c: Seq<(u32, u32)>, j: int)
    requires
        curve_wf(c),
        0 <= j < c.len(),
    ensures
        interp(c, c[j].0 as int) == c[j].1,
{
    assert(c[0].0 < c.last().0);
    if j + 1 < c.len() {
        lemma_duty_on_segment(c, j, c[j].0 as int);
        lemma_segment_ends(c[j], c[j + 1]);
    } else {
        lemma_duty_on_segment(c, j - 1, c[j].0 as int);
        lemma_segment_ends(c[j - 1], c[j]);
    }
}

/// On a segment whose duty does not fall, the duty does not fall as the
/// temperature rises: for `t0 <= a <= b <= t1`, the duty at `a` is at most the duty
/// at `b`.
pub proof fn lemma_interp_monotone_on_segment(c: Seq<(u32, u32)>, j: int, a: int, b: int)
    requires
        curve_wf(c),
        0 <= j < c.len() - 1,
        c[j].1 <= c[j + 1].1,
        c[j].0 <= a <= b <= c[j + 1].0,
    ensures
        interp(c, a) <= interp(c, b),
{
    let (lo, hi) = (c[j], c[j + 1]);
    assert(c[j + 1].0 <= MAX_TEMP);
    lemma_duty_on_segment(c, j, a);
    lemma_duty_on_segment(c, j, b);
    let den = hi.0 - lo.0;
    assert(lo.1 * den + (a - lo.0) * (hi.1 - lo.1) <= lo.1 * den + (b - lo.0) * (hi.1 - lo.1))
        by (nonlinear_arith)
        requires
            a <= b,
            lo.1 <= hi.1,
    ;
    lemma_div_is_ordered(
        lo.1 * den + (a - lo.0) * (hi.1 - lo.1),
        lo.1 * den + (b - lo.0) * (hi.1 - lo.1),
        den,
    );
}

/// Whatever the temperature, a well-formed curve asks for a duty within `0..=100`.
pub proof fn lemma_interp_bounded(c: Seq<(u32, u32)>, t: int)
    requires
        curve_wf(c),
    ensures
        0 <= interp(c, t) <= MAX_DUTY,
{
    lemma_duty_bounded(c, clamp_temp(t));
}

} // verus!
