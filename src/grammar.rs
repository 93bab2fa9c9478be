use vstd::prelude::*;

use crate::canonical::CurveError;

verus! {

// The text of a fan curve follows the grammar
//
//     curve = point *("," point) [","]
//     point = "(" uint ":" uint ")"
//     uint  = 1*DIGIT
//
// over ASCII bytes.

/// `(`
pub const OPEN_PAREN: u8 = 0x28;
/// `)`
pub const CLOSE_PAREN: u8 = 0x29;
/// `,`
pub const COMMA: u8 = 0x2c;
/// `:`
pub const COLON: u8 = 0x3a;
/// `0`
pub const DIGIT_ZERO: u8 = 0x30;
/// `9`
pub const DIGIT_NINE: u8 = 0x39;

/// `b` is an ASCII decimal digit.
pub open spec fn is_digit(b: u8) -> bool {
    DIGIT_ZERO <= b <= DIGIT_NINE
}

/// How many ASCII digits follow one another in `s` from position `i` on.
pub open spec fn digit_run(s: Seq<u8>, i: int) -> nat
    decreases s.len() - i,
{
    if 0 <= i < s.len() && is_digit(s[i]) {
        1 + digit_run(s, i + 1)
    } else {
        0
    }
}

/// The number that the ASCII digits `s` write in decimal.
pub open spec fn decimal_value(s: Seq<u8>) -> nat
    decreases s.len(),
{
    if s.len() == 0 {
        0
    } else {
        decimal_value(s.drop_last()) * 10 + (s.last() - DIGIT_ZERO) as nat
    }
}

/// The point `(temp:duty)` that starts at position `i` of `s`: its temperature, its
/// duty, and the position just past its `)`; `None` where none starts there.
pub open spec fn point_at(s: Seq<u8>, i: int) -> Option<(nat, nat, int)> {
    let a = i + 1;
    let ea = a + digit_run(s, a);
    let b = ea + 1;
    let eb = b + digit_run(s, b);
    if 0 <= i < s.len() && s[i] == OPEN_PAREN && ea > a && ea < s.len() && s[ea] == COLON && eb > b
        && eb < s.len() && s[eb] == CLOSE_PAREN {
        Some((decimal_value(s.subrange(a, ea)), decimal_value(s.subrange(b, eb)), eb + 1))
    } else {
        None
    }
}

/// The points of the list that starts at position `i` of `s` and runs to its end:
/// points separated by commas, a comma after the last one allowed.
pub open spec fn points_from(s: Seq<u8>, i: int) -> Option<Seq<(nat, nat)>>
    decreases s.len() - i,
{
    match point_at(s, i) {
        None => None,
        Some((temp, duty, j)) => {
            if j == s.len() || (s[j] == COMMA && j + 1 == s.len()) {
                Some(seq![(temp, duty)])
            } else if s[j] == COMMA {
                match points_from(s, j + 1) {
                    None => None,
                    Some(rest) => Some(seq![(temp, duty)] + rest),
                }
            } else {
                None
            }
        }
    }
}

/// The points that the text `s` writes, in the order written: none for the empty
/// text, `None` where the text does not follow the grammar.
pub open spec fn written_points(s: Seq<u8>) -> Option<Seq<(nat, nat)>> {
    if s.len() == 0 {
        Some(Seq::empty())
    } else {
        points_from(s, 0)
    }
}

/// A number held up to 101: every number above 100 counts as 101, which is all
/// that a range check on temperatures and duties needs to know of it.
pub open spec fn capped(n: nat) -> nat {
    if n > 100 {
        101
    } else {
        n
    }
}

/// The points as natural numbers.
pub open spec fn widen(v: Seq<(u32, u32)>) -> Seq<(nat, nat)> {
    v.map_values(|p: (u32, u32)| (p.0 as nat, p.1 as nat))
}

/// Every temperature and every duty of `ps` lies within `0..=100`.
pub open spec fn points_in_range(ps: Seq<(nat, nat)>) -> bool {
    forall|i: int| 0 <= i < ps.len() ==> ps[i].0 <= 100 && ps[i].1 <= 100
}

/// `prefix` in front of the points of `rest`, where `rest` has any.
pub open spec fn prepend(prefix: Seq<(nat, nat)>, rest: Option<Seq<(nat, nat)>>) -> Option<
    Seq<(nat, nat)>,
> {
    match rest {
        None => None,
        Some(r) => Some(prefix + r),
    }
}

/// Reads the run of digits at `start`: where it ends, and its value held up to 101.
fn scan_number(s: &[u8], start: usize) -> (r: (usize, u32))
    requires
        start <= s@.len(),
    ensures
        r.0 == start + digit_run(s@, start as int),
        r.1 == capped(decimal_value(s@.subrange(start as int, r.0 as int))),
{
    let mut k: usize = start;
    let mut value: u32 = 0;
    assert(s@.subrange(start as int, start as int).len() == 0);
    while k < s.len() && DIGIT_ZERO <= s[k] && s[k] <= DIGIT_NINE
        invariant
            start <= k <= s@.len(),
            digit_run(s@, start as int) == (k - start) + digit_run(s@, k as int),
            value == capped(decimal_value(s@.subrange(start as int, k as int))),
        decreases s@.len() - k,
    {
        let ghost before = s@.subrange(start as int, k as int);
        let ghost after = s@.subrange(start as int, k + 1);
        assert(after.drop_last() =~= before);
        assert(after.last() == s@[k as int]);
        let digit: u32 = (s[k] - DIGIT_ZERO) as u32;
        value = if value > 100 {
            101
        } else if value * 10 + digit > 100 {
            101
        } else {
            value * 10 + digit
        };
        k = k + 1;
    }
    (k, value)
}

/// Reads the point that starts at `i`, with its temperature and duty held up to 101.
fn scan_point(s: &[u8], i: usize) -> (r: Option<(u32, u32, usize)>)
    requires
        i < s@.len(),
    ensures
        match point_at(s@, i as int) {
            None => r is None,
            Some((temp, duty, next)) => r == Some(
                (capped(temp) as u32, capped(duty) as u32, next as usize),
            ),
        },
{
    if s[i] != OPEN_PAREN {
        return None;
    }
    let (temp_end, temp) = scan_number(s, i + 1);
    if temp_end == i + 1 || temp_end >= s.len() || s[temp_end] != COLON {
        return None;
    }
    let (duty_end, duty) = scan_number(s, temp_end + 1);
    if duty_end == temp_end + 1 || duty_end >= s.len() || s[duty_end] != CLOSE_PAREN {
        return None;
    }
    Some((temp, duty, duty_end + 1))
}

/// Reads the keypoints that the text `s` writes, in the order written, and checks
/// that each temperature and each duty lies within `0..=100`. The empty text writes
/// no point. Fails with `ParseError` where the text does not follow the grammar or
/// a value is out of range.
pub fn parse_keypoints(s: &[u8]) -> (r: Result<Vec<(u32, u32)>, CurveError>)
    ensures
        match r {
            Ok(v) => written_points(s@) == Some(widen(v@)) && points_in_range(widen(v@)),
            Err(e) => e == CurveError::ParseError && !(written_points(s@) is Some
                && points_in_range(written_points(s@)->0)),
        },
{
    let mut points: Vec<(u32, u32)> = Vec::new();
    if s.len() == 0 {
        assert(widen(points@) =~= Seq::empty());
        return Ok(points);
    }
    let mut i: usize = 0;
    assert(widen(points@) =~= Seq::empty());
    assert(prepend(Seq::empty(), points_from(s@, 0)) =~= points_from(s@, 0)) by {
        if let Some(r) = points_from(s@, 0) {
            assert(Seq::<(nat, nat)>::empty() + r =~= r);
        }
    }
    loop
        invariant
            i < s@.len(),
            written_points(s@) == prepend(widen(points@), points_from(s@, i as int)),
            points_in_range(widen(points@)),
        decreases s@.len() - i,
    {
        let ghost done = widen(points@);
        match scan_point(s, i) {
            None => {
                return Err(CurveError::ParseError);
            },
            Some((temp, duty, next)) => {
                if temp > 100 || duty > 100 {
                    proof {
                        if let Some(all) = written_points(s@) {
                            let rest = points_from(s@, i as int)->0;
                            assert(all[done.len() as int] == rest[0]);
                        }
                    }
                    return Err(CurveError::ParseError);
                }
                points.push((temp, duty));
                let ghost pt = point_at(s@, i as int)->0;
                assert(widen(points@) =~= done.push((pt.0, pt.1)));
                if next == s.len() || (s[next] == COMMA && next + 1 == s.len()) {
                    assert(done + seq![(pt.0, pt.1)] =~= done.push((pt.0, pt.1)));
                    return Ok(points);
                }
                if s[next] != COMMA {
                    return Err(CurveError::ParseError);
                }
                proof {
                    if let Some(rest) = points_from(s@, next + 1) {
                        assert(done + (seq![(pt.0, pt.1)] + rest) =~= done.push((pt.0, pt.1))
                            + rest);
                    }
                }
                i = next + 1;
            },
        }
    }
}

} // verus!
