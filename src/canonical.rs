use vstd::prelude::*;

use crate::curve::{curve_wf, temps_increasing, Curve, MAX_DUTY, MAX_TEMP};
use crate::grammar::{parse_keypoints, points_in_range, widen, written_points};
use vstd::string::StringSliceAdditionalSpecFns;

verus! {

/// Why a fan curve was refused.
#[derive(Debug, Clone, Copy, PartialEq, Eq, Structural)]
pub enum CurveError {
    /// The text does not follow the grammar of a curve, or a temperature or a duty
    /// lies above 100.
    ParseError,
    /// The text holds no keypoint.
    EmptyCurve,
}

/// `ps` holds a point at temperature `t`.
pub open spec fn has_temp(ps: Seq<(nat, nat)>, t: nat) -> bool {
    exists|i: int| 0 <= i < ps.len() && ps[i].0 == t
}

/// The curve `c` holds a keypoint at temperature `t`.
pub open spec fn curve_has_temp(c: Seq<(u32, u32)>, t: nat) -> bool {
    exists|j: int| 0 <= j < c.len() && c[j].0 == t
}

/// `d` is the largest duty that `ps` gives temperature `t`.
pub open spec fn is_max_duty(ps: Seq<(nat, nat)>, t: nat, d: nat) -> bool {
    &&& exists|i: int| 0 <= i < ps.len() && ps[i] == (t, d)
    &&& forall|i: int| 0 <= i < ps.len() && ps[i].0 == t ==> ps[i].1 <= d
}

/// `c` is the canonical curve of the points `ps`: a well-formed curve that holds a
/// keypoint at each temperature of `ps`, with the largest duty that `ps` gives that
/// temperature, and besides those only the anchors `(0, 0)` and `(100, 100)` where
/// `ps` has no point at 0, or at 100.
pub open spec fn is_canonical_of(c: Seq<(u32, u32)>, ps: Seq<(nat, nat)>) -> bool {
    &&& curve_wf(c)
    &&& forall|i: int| 0 <= i < ps.len() ==> curve_has_temp(c, #[trigger] ps[i].0)
    &&& forall|j: int|
        0 <= j < c.len() ==> if has_temp(ps, #[trigger] c[j].0 as nat) {
            is_max_duty(ps, c[j].0 as nat, c[j].1 as nat)
        } else {
            (c[j].0 == 0 || c[j].0 == MAX_TEMP) && c[j].1 == c[j].0
        }
}

/// The canonical curve of non-empty keypoints within `0..=100`: for each temperature
/// the largest duty given to it, in increasing order of temperature, with `(0, 0)`
/// put in front where no point lies at 0 and `(100, 100)` put last where none lies
/// at 100.
pub fn canonicalize(points: &Vec<(u32, u32)>) -> (r: Curve)
    requires
        points@.len() > 0,
        points_in_range(widen(points@)),
    ensures
        r.wf(),
        is_canonical_of(r@, widen(points@)),
{
    let ghost ps = widen(points@);
    let mut c: Vec<(u32, u32)> = Vec::new();
    let mut n: usize = 0;
    while n < points.len()
        invariant
            ps == widen(points@),
            points_in_range(ps),
            n <= ps.len(),
            n > 0 ==> c@.len() > 0,
            temps_increasing(c@),
            forall|j: int| 0 <= j < c@.len() ==> c@[j].0 <= MAX_TEMP && c@[j].1 <= MAX_DUTY,
            forall|i: int| 0 <= i < n ==> curve_has_temp(c@, #[trigger] ps[i].0),
            forall|j: int|
                0 <= j < c@.len() ==> is_max_duty(
                    ps.take(n as int),
                    #[trigger] c@[j].0 as nat,
                    c@[j].1 as nat,
                ),
        decreases ps.len() - n,
    {
        let (temp, duty) = points[n];
        assert(ps[n as int] == (temp as nat, duty as nat));
        let ghost before = c@;
        let ghost done = ps.take(n as int);
        let ghost now = ps.take(n + 1);
        assert(now =~= done.push((temp as nat, duty as nat)));
        let mut k: usize = 0;
        while k < c.len() && c[k].0 < temp
            invariant
                c@ == before,
                k <= c@.len(),
                forall|m: int| 0 <= m < k ==> c@[m].0 < temp,
            decreases c@.len() - k,
        {
            k = k + 1;
        }
        if k < c.len() && c[k].0 == temp {
            if duty > c[k].1 {
                c.set(k, (temp, duty));
            }
            assert forall|j: int| 0 <= j < c@.len() implies is_max_duty(
                now,
                #[trigger] c@[j].0 as nat,
                c@[j].1 as nat,
            ) by {
                let t = c@[j].0 as nat;
                let i = choose|i: int| 0 <= i < done.len() && done[i] == (t, before[j].1 as nat);
                assert(now[i] == done[i]);
                if j == k {
                    if duty > before[j].1 {
                        assert(now[n as int] == (t, duty as nat));
                    }
                } else {
                    assert(before[j].0 != temp);
                }
            }
            assert forall|i: int| 0 <= i < n + 1 implies curve_has_temp(c@, #[trigger] ps[i].0) by {
                if i < n {
                    let j = choose|j: int| 0 <= j < before.len() && before[j].0 == ps[i].0;
                    assert(c@[j].0 == before[j].0);
                } else {
                    assert(c@[k as int].0 == ps[i].0);
                }
            }
        } else {
            assert(!has_temp(done, temp as nat)) by {
                if has_temp(done, temp as nat) {
                    let i = choose|i: int| 0 <= i < done.len() && done[i].0 == temp;
                    assert(ps[i].0 == temp);
                    let j = choose|j: int| 0 <= j < before.len() && before[j].0 == ps[i].0;
                    if j >= k {
                        assert(before[k as int].0 <= before[j].0);
                    }
                }
            }
            c.insert(k, (temp, duty));
            assert forall|j: int| 0 <= j < c@.len() implies is_max_duty(
                now,
                #[trigger] c@[j].0 as nat,
                c@[j].1 as nat,
            ) by {
                if j == k {
                    assert(now[n as int] == (temp as nat, duty as nat));
                    assert forall|i: int| 0 <= i < now.len() && now[i].0 == temp implies now[i].1
                        <= duty by {
                        if i < n {
                            assert(done[i].0 == temp);
                        }
                    }
                } else {
                    let jb = if j < k {
                        j
                    } else {
                        j - 1
                    };
                    assert(c@[j] == before[jb]);
                    let t = before[jb].0 as nat;
                    assert(is_max_duty(done, t, before[jb].1 as nat));
                    let i = choose|i: int| 0 <= i < done.len() && done[i] == (t, before[jb].1 as nat);
                    assert(now[i] == done[i]);
                    if jb >= k as int {
                        assert(before[jb].0 != temp);
                    }
                }
            }
            assert forall|i: int| 0 <= i < n + 1 implies curve_has_temp(c@, #[trigger] ps[i].0) by {
                if i < n {
                    let j = choose|j: int| 0 <= j < before.len() && before[j].0 == ps[i].0;
                    if j < k {
                        assert(c@[j].0 == before[j].0);
                    } else {
                        assert(c@[j + 1].0 == before[j].0);
                    }
                } else {
                    assert(c@[k as int].0 == ps[i].0);
                }
            }
        }
        n = n + 1;
    }
    assert(ps.take(n as int) =~= ps);
    let ghost body = c@;
    let front = c[0].0 != 0;
    if front {
        c.insert(0, (0, 0));
    }
    let ghost off: int = if front {
        1
    } else {
        0
    };
    let last: usize = c.len() - 1;
    assert(c@[last as int].0 == body.last().0 || c@[last as int] == (0u32, 0u32));
    let back = c[last].0 < MAX_TEMP;
    if back {
        c.push((MAX_TEMP, MAX_DUTY));
    }
    proof {
        assert forall|j: int| 0 <= j < body.len() implies c@[j + off] == body[j] by {}
        if front {
            assert forall|j: int| 0 <= j < body.len() implies body[j].0 > 0 by {
                if j > 0 {
                    assert(body[0].0 < body[j].0);
                }
            }
        }
        if back {
            assert forall|j: int| 0 <= j < body.len() implies body[j].0 < MAX_TEMP by {
                if j + 1 < body.len() {
                    assert(body[j].0 < body.last().0);
                }
            }
        }
        assert(c@.len() == body.len() + off + if back {
            1int
        } else {
            0
        });
        assert forall|j: int| 0 <= j < c@.len() implies c@[j].0 <= MAX_TEMP && c@[j].1 <= MAX_DUTY by {
            if off <= j < off + body.len() {
                assert(c@[j] == body[j - off]);
            }
        }
        assert(temps_increasing(c@)) by {
            assert forall|a: int, b: int| 0 <= a < b < c@.len() implies c@[a].0 < c@[b].0 by {
                if off <= a < off + body.len() {
                    assert(c@[a] == body[a - off]);
                }
                if off <= b < off + body.len() {
                    assert(c@[b] == body[b - off]);
                }
            }
        }
        assert(c@[0].0 == 0) by {
            if !front {
                assert(c@[0] == body[0]);
            }
        }
        assert(c@.last().0 == MAX_TEMP) by {
            if !back {
                assert(c@.last() == c@[last as int]);
            }
        }
        assert forall|i: int| 0 <= i < ps.len() implies curve_has_temp(c@, #[trigger] ps[i].0) by {
            let j = choose|j: int| 0 <= j < body.len() && body[j].0 == ps[i].0;
            assert(c@[j + off] == body[j]);
        }
        assert forall|j: int| 0 <= j < c@.len() implies if has_temp(ps, #[trigger] c@[j].0 as nat) {
            is_max_duty(ps, c@[j].0 as nat, c@[j].1 as nat)
        } else {
            (c@[j].0 == 0 || c@[j].0 == MAX_TEMP) && c@[j].1 == c@[j].0
        } by {
            if off <= j < off + body.len() {
                assert(c@[j] == body[j - off]);
                assert(is_max_duty(ps, body[j - off].0 as nat, body[j - off].1 as nat));
                let i = choose|i: int|
                    0 <= i < ps.len() && ps[i] == (body[j - off].0 as nat, body[j - off].1 as nat);
                assert(ps[i].0 == c@[j].0);
            } else {
                let t = c@[j].0;
                assert(t == 0 || t == MAX_TEMP);
                assert(c@[j].1 == t);
                if has_temp(ps, t as nat) {
                    let i = choose|i: int| 0 <= i < ps.len() && ps[i].0 == t;
                    let jb = choose|jb: int| 0 <= jb < body.len() && body[jb].0 == ps[i].0;
                    assert(body[jb].0 == t);
                }
            }
        }
    }
    Curve::from_points(c)
}

/// A temperature of a canonical curve of `ps` is one of `ps`, or 0, or 100, and so
/// is found in every canonical curve of `ps`.
proof fn lemma_canonical_temp_shared(c1: Seq<(u32, u32)>, c2: Seq<(u32, u32)>, ps: Seq<(nat, nat)>, j: int)
    requires
        is_canonical_of(c1, ps),
        is_canonical_of(c2, ps),
        0 <= j < c1.len(),
    ensures
        exists|m: int| 0 <= m < c2.len() && c2[m].0 == c1[j].0,
{
    let t = c1[j].0;
    if has_temp(ps, t as nat) {
        let i = choose|i: int| 0 <= i < ps.len() && ps[i].0 == t;
        assert(curve_has_temp(c2, ps[i].0));
    } else if t == 0 {
        assert(c2[0].0 == t);
    } else {
        assert(c2[c2.len() - 1].0 == t);
    }
}

/// Two canonical curves of the same points agree on their first `j` keypoints.
proof fn lemma_canonical_prefix(c1: Seq<(u32, u32)>, c2: Seq<(u32, u32)>, ps: Seq<(nat, nat)>, j: int)
    requires
        is_canonical_of(c1, ps),
        is_canonical_of(c2, ps),
        0 <= j <= c1.len(),
        j <= c2.len(),
    ensures
        forall|k: int| 0 <= k < j ==> c1[k] == c2[k],
    decreases j,
{
    if j > 0 {
        let l = j - 1;
        lemma_canonical_prefix(c1, c2, ps, l);
        lemma_canonical_temp_shared(c1, c2, ps, l);
        lemma_canonical_temp_shared(c2, c1, ps, l);
        let m2 = choose|m: int| 0 <= m < c2.len() && c2[m].0 == c1[l].0;
        let m1 = choose|m: int| 0 <= m < c1.len() && c1[m].0 == c2[l].0;
        if m2 < l {
            assert(c1[m2] == c2[m2]);
        } else if m2 > l {
            assert(c2[l].0 < c2[m2].0);
            if m1 < l {
                assert(c1[m1] == c2[m1]);
            } else if m1 > l {
                assert(c1[l].0 < c1[m1].0);
            }
        }
        assert(c1[l].0 == c2[l].0);
        let t = c1[l].0 as nat;
        if has_temp(ps, t) {
            let i1 = choose|i: int| 0 <= i < ps.len() && ps[i] == (t, c1[l].1 as nat);
            let i2 = choose|i: int| 0 <= i < ps.len() && ps[i] == (t, c2[l].1 as nat);
            assert(ps[i1].1 <= c2[l].1 && ps[i2].1 <= c1[l].1);
        }
    }
}

/// The points determine their canonical curve: two canonical curves of the same
/// points are equal.
pub proof fn lemma_canonical_unique(c1: Seq<(u32, u32)>, c2: Seq<(u32, u32)>, ps: Seq<(nat, nat)>)
    requires
        is_canonical_of(c1, ps),
        is_canonical_of(c2, ps),
    ensures
        c1 == c2,
{
    if c1.len() < c2.len() {
        let n = c1.len() as int;
        lemma_canonical_prefix(c1, c2, ps, n);
        assert(c1[n - 1] == c2[n - 1]);
        assert(c2[n - 1].0 < c2[n].0);
    } else if c2.len() < c1.len() {
        let n = c2.len() as int;
        lemma_canonical_prefix(c2, c1, ps, n);
        assert(c2[n - 1] == c1[n - 1]);
        assert(c1[n - 1].0 < c1[n].0);
    } else {
        lemma_canonical_prefix(c1, c2, ps, c1.len() as int);
        assert(c1 =~= c2);
    }
}

/// Parses a fan curve `(temp:duty),(temp:duty),...` into its canonical curve.
/// Fails with `EmptyCurve` on the empty text, and with `ParseError` where the text
/// does not follow the grammar or a temperature or a duty lies above 100.
pub fn parse_fan_curve(text: &str) -> (r: Result<Curve, CurveError>)
    ensures
        r == Err::<Curve, CurveError>(CurveError::EmptyCurve) <==> text.spec_bytes().len() == 0,
        r == Err::<Curve, CurveError>(CurveError::ParseError) <==> text.spec_bytes().len() > 0
            && !(written_points(text.spec_bytes()) is Some && points_in_range(
            written_points(text.spec_bytes())->0,
        )),
        r matches Ok(c) ==> c.wf() && is_canonical_of(c@, written_points(text.spec_bytes())->0),
{
    let bytes = text.as_bytes();
    match parse_keypoints(bytes) {
        Err(e) => Err(e),
        Ok(points) => {
            if points.len() == 0 {
                assert(bytes@.len() == 0) by {
                    if bytes@.len() > 0 {
                        assert(written_points(bytes@)->0.len() > 0);
                    }
                }
                Err(CurveError::EmptyCurve)
            } else {
                Ok(canonicalize(&points))
            }
        },
    }
}

/// Where the points give one temperature two different duties and no other, the
/// canonical curve holds exactly one keypoint at that temperature, and its duty is
/// the larger of the two.
pub proof fn lemma_duplicate_temperature_keeps_max(
    c: Seq<(u32, u32)>,
    ps: Seq<(nat, nat)>,
    t: nat,
    a: nat,
    d: nat,
)
    requires
        is_canonical_of(c, ps),
        a != d,
        ps.contains((t, a)),
        ps.contains((t, d)),
        forall|i: int| 0 <= i < ps.len() && ps[i].0 == t ==> ps[i].1 == a || ps[i].1 == d,
    ensures
        exists|j: int| 0 <= j < c.len() && c[j].0 == t && c[j].1 == if a < d {
            d
        } else {
            a
        },
        forall|j: int, k: int|
            0 <= j < c.len() && 0 <= k < c.len() && c[j].0 == t && c[k].0 == t ==> j == k,
{
    let ia = choose|i: int| 0 <= i < ps.len() && ps[i] == (t, a);
    let id = choose|i: int| 0 <= i < ps.len() && ps[i] == (t, d);
    assert(curve_has_temp(c, ps[ia].0));
    let j = choose|j: int| 0 <= j < c.len() && c[j].0 == t;
    assert(has_temp(ps, c[j].0 as nat));
    assert(is_max_duty(ps, t, c[j].1 as nat));
    let w = choose|i: int| 0 <= i < ps.len() && ps[i] == (t, c[j].1 as nat);
    assert(ps[ia].0 == t && ps[id].0 == t && ps[w].0 == t);
    assert forall|j1: int, k1: int|
        0 <= j1 < c.len() && 0 <= k1 < c.len() && c[j1].0 == t && c[k1].0 == t implies j1
        == k1 by {
        if j1 < k1 {
            assert(c[j1].0 < c[k1].0);
        } else if k1 < j1 {
            assert(c[k1].0 < c[j1].0);
        }
    }
}

} // verus!
