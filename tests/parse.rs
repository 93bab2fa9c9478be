use nvml_tune::{canonicalize, parse_fan_curve, parse_keypoints, CurveError};

fn points_of(text: &str) -> Vec<(u32, u32)> {
    parse_fan_curve(text).unwrap().points().clone()
}

fn is_canonical(c: &[(u32, u32)]) -> bool {
    !c.is_empty()
        && c[0].0 == 0
        && c[c.len() - 1].0 == 100
        && c.windows(2).all(|w| w[0].0 < w[1].0)
        && c.iter().all(|&(t, d)| t <= 100 && d <= 100)
}

#[test]
fn parse_simple() {
    assert_eq!(
        points_of("(0:20),(50:50),(100:100)"),
        vec![(0, 20), (50, 50), (100, 100)]
    );
}

#[test]
fn parse_anchor_insertion() {
    assert_eq!(
        points_of("(40:30),(80:70)"),
        vec![(0, 0), (40, 30), (80, 70), (100, 100)]
    );
}

#[test]
fn parse_dedup_max_wins() {
    let c = points_of("(50:30),(50:70),(50:50)");
    assert!(c.contains(&(50, 70)));
    assert_eq!(c, vec![(0, 0), (50, 70), (100, 100)]);
}

#[test]
fn parse_reject_out_of_range() {
    assert_eq!(parse_fan_curve("(120:50)").err(), Some(CurveError::ParseError));
}

#[test]
fn parse_reject_empty() {
    assert_eq!(parse_fan_curve("").err(), Some(CurveError::EmptyCurve));
}

#[test]
fn parse_reject_duty_above_hundred() {
    assert_eq!(parse_fan_curve("(50:101)").err(), Some(CurveError::ParseError));
}

#[test]
fn parse_reject_out_of_range_after_valid_points() {
    assert_eq!(
        parse_fan_curve("(0:20),(120:50)").err(),
        Some(CurveError::ParseError)
    );
}

#[test]
fn parse_reject_huge_number() {
    assert_eq!(
        parse_fan_curve("(99999999999999999999:10)").err(),
        Some(CurveError::ParseError)
    );
}

#[test]
fn parse_reject_malformed() {
    for text in [
        "(:20)", "(20:)", "(20 :30)", "20:30", "(20:30", "(20:30)x", "(20:30),,", ",", "(20;30)",
        "(20:30)(40:50)", " (20:30)", "(-1:30)", "(2\u{e9}:30)",
    ] {
        assert_eq!(parse_fan_curve(text).err(), Some(CurveError::ParseError), "{text}");
    }
}

#[test]
fn parse_trailing_comma_tolerated() {
    assert_eq!(points_of("(20:30),"), vec![(0, 0), (20, 30), (100, 100)]);
}

#[test]
fn parse_leading_zeros() {
    assert_eq!(points_of("(007:020)"), vec![(0, 0), (7, 20), (100, 100)]);
}

#[test]
fn parse_single_point_gets_both_anchors() {
    assert_eq!(points_of("(60:45)"), vec![(0, 0), (60, 45), (100, 100)]);
}

#[test]
fn parse_point_at_hundred_gets_no_upper_anchor() {
    assert_eq!(points_of("(100:30)"), vec![(0, 0), (100, 30)]);
}

#[test]
fn parse_point_at_zero_gets_no_lower_anchor() {
    assert_eq!(points_of("(0:30)"), vec![(0, 30), (100, 100)]);
}

#[test]
fn parse_sorts_unordered_points() {
    assert_eq!(
        points_of("(90:80),(10:5),(50:40)"),
        vec![(0, 0), (10, 5), (50, 40), (90, 80), (100, 100)]
    );
}

#[test]
fn parse_keeps_non_monotone_duties() {
    assert_eq!(
        points_of("(0:60),(50:20),(100:90)"),
        vec![(0, 60), (50, 20), (100, 90)]
    );
}

#[test]
fn parse_dedup_max_wins_either_order() {
    for (a, d) in [(10u32, 90u32), (90, 10), (0, 100), (55, 54)] {
        let text = format!("(30:{a}),(30:{d})");
        let c = points_of(&text);
        let at_30: Vec<_> = c.iter().filter(|p| p.0 == 30).collect();
        assert_eq!(at_30, vec![&(30, a.max(d))]);
    }
}

#[test]
fn parse_dedup_anchor_temperatures() {
    assert_eq!(points_of("(0:10),(0:40),(100:20),(100:5)"), vec![(0, 40), (100, 20)]);
}

#[test]
fn parse_accepted_inputs_are_canonical() {
    for text in [
        "(0:20),(50:50),(100:100)",
        "(40:30),(80:70)",
        "(99:1),(1:99),",
        "(100:0)",
        "(0:0)",
        "(5:5),(5:5),(5:5)",
    ] {
        let c = points_of(text);
        assert!(is_canonical(&c), "{text}: {c:?}");
    }
}

#[test]
fn keypoints_in_written_order() {
    assert_eq!(
        parse_keypoints(b"(50:30),(10:70),(50:50)").unwrap(),
        vec![(50, 30), (10, 70), (50, 50)]
    );
    assert_eq!(parse_keypoints(b"").unwrap(), vec![]);
    assert_eq!(parse_keypoints(b"(10:70").err(), Some(CurveError::ParseError));
}

#[test]
fn canonicalize_points() {
    let c = canonicalize(&vec![(70, 10), (20, 30), (70, 60)]);
    assert_eq!(c.points().clone(), vec![(0, 0), (20, 30), (70, 60), (100, 100)]);
}
