use ctcl::number::Number;
use ctcl::system::{Pause, Rate, Segment, TablePoint, TemporalSystem};

fn n(x: f64) -> Number {
    Number::from_bits(x.to_bits())
}

fn f(x: Number) -> f64 {
    f64::from_bits(x.to_bits())
}

fn opt(x: Option<Number>) -> Option<f64> {
    x.map(f)
}

#[test]
fn constant_rate_scales_elapsed_time() {
    let sys = TemporalSystem {
        id: "user:game_world".into(),
        epoch_parent_sec: n(1_700_000_000.0),
        rate: Rate::Constant { value: n(20.0) },
        offset: n(0.0),
    };
    let (local, extra) = sys.local_seconds(n(1_700_000_100.0));
    assert_eq!(f(local), 2000.0); // 100s elapsed * 20x
    assert_eq!(opt(extra.wall_elapsed_s), Some(100.0));
}

#[test]
fn paused_rate_excludes_pause_window_from_active_time() {
    let sys = TemporalSystem {
        id: "agent:a:life".into(),
        epoch_parent_sec: n(1_700_000_000.0),
        rate: Rate::Paused {
            value: n(1.0),
            pauses: vec![Pause { from: n(1_700_003_600.0), to: Some(n(1_700_007_200.0)) }],
        },
        offset: n(0.0),
    };
    // inside the pause window
    let (_, extra) = sys.local_seconds(n(1_700_005_000.0));
    assert_eq!(extra.currently_paused, Some(true));
    // after the pause window: active time excludes the paused 3600s
    let (local, extra2) = sys.local_seconds(n(1_700_010_000.0));
    assert_eq!(extra2.currently_paused, Some(false));
    assert_eq!(opt(extra2.paused_elapsed_s), Some(3600.0));
    assert_eq!(f(local), 10_000.0 - 3600.0);
}

#[test]
fn piecewise_rate_integrates_segments() {
    let sys = TemporalSystem {
        id: "test:piecewise".into(),
        epoch_parent_sec: n(1_700_000_000.0),
        rate: Rate::Piecewise {
            segments: vec![
                Segment { until: Some(n(1_700_010_000.0)), rate: n(1.0) },
                Segment { until: None, rate: n(5.0) },
            ],
        },
        offset: n(0.0),
    };
    // exactly at the boundary: 10000s at rate 1
    let (local, _) = sys.local_seconds(n(1_700_010_000.0));
    assert_eq!(f(local), 10_000.0);
    // 100s past the boundary at rate 5
    let (local2, _) = sys.local_seconds(n(1_700_010_100.0));
    assert_eq!(f(local2), 10_000.0 + 100.0 * 5.0);
}

#[test]
fn table_rate_interpolates_linearly() {
    let sys = TemporalSystem {
        id: "test:table".into(),
        epoch_parent_sec: n(0.0),
        rate: Rate::Table {
            table: vec![
                TablePoint { parent: n(0.0), local: n(0.0) },
                TablePoint { parent: n(100.0), local: n(1000.0) },
            ],
        },
        offset: n(0.0),
    };
    let (local, _) = sys.local_seconds(n(50.0));
    assert_eq!(f(local), 500.0); // halfway
}

#[test]
fn a_table_is_sorted_and_clamped() {
    let sys = TemporalSystem {
        id: "test:table".into(),
        epoch_parent_sec: n(0.0),
        rate: Rate::Table {
            table: vec![
                TablePoint { parent: n(200.0), local: n(20.0) },
                TablePoint { parent: n(100.0), local: n(10.0) },
            ],
        },
        offset: n(5.0),
    };
    assert_eq!(f(sys.local_seconds(n(150.0)).0), 20.0);
    assert_eq!(f(sys.local_seconds(n(0.0)).0), 15.0);
    assert_eq!(f(sys.local_seconds(n(900.0)).0), 25.0);
}

#[test]
fn an_open_pause_lasts() {
    let sys = TemporalSystem {
        id: "test:paused".into(),
        epoch_parent_sec: n(0.0),
        rate: Rate::Paused { value: n(2.0), pauses: vec![Pause { from: n(10.0), to: None }] },
        offset: n(1.0),
    };
    let (local, extra) = sys.local_seconds(n(50.0));
    assert_eq!(f(local), 21.0);
    assert_eq!(extra.currently_paused, Some(true));
    assert_eq!(opt(extra.paused_elapsed_s), Some(40.0));
    assert_eq!(opt(extra.active_elapsed_s), Some(10.0));
    assert_eq!(opt(extra.wall_elapsed_s), Some(50.0));
}

#[test]
fn at_the_epoch_a_clock_shows_its_offset() {
    let sys = TemporalSystem {
        id: "test:constant".into(),
        epoch_parent_sec: n(1_700_000_000.0),
        rate: Rate::Constant { value: n(3.5) },
        offset: n(42.25),
    };
    assert_eq!(f(sys.local_seconds(n(1_700_000_000.0)).0), 42.25);
}

#[test]
fn arithmetic_is_that_of_doubles() {
    let values: [f64; 22] = [
        0.0,
        -0.0,
        1.0,
        -1.0,
        0.1,
        0.2,
        1e-3,
        3.0,
        1.0 / 3.0,
        1e9,
        1_700_000_000.123_456_7,
        9_007_199_254_740_993.0,
        1e300,
        -1e300,
        1e-300,
        5e-324,
        -5e-324,
        2.2250738585072014e-308,
        f64::MAX,
        f64::INFINITY,
        f64::NEG_INFINITY,
        f64::NAN,
    ];
    for a in values {
        for b in values {
            let checks = [
                (n(a).plus(&n(b)), a + b),
                (n(a).minus(&n(b)), a - b),
                (n(a).times(&n(b)), a * b),
                (n(a).over(&n(b)), a / b),
                (n(a).larger(&n(b)), a.max(b)),
                (n(a).smaller(&n(b)), a.min(b)),
            ];
            for (i, (ours, theirs)) in checks.into_iter().enumerate() {
                if theirs.is_nan() {
                    assert!(f(ours).is_nan(), "{a} {b} {i}");
                } else {
                    assert_eq!(f(ours), theirs, "{a} {b} {i}");
                }
            }
            assert_eq!(n(a).less(&n(b)), a < b, "{a} {b}");
            assert_eq!(n(a).same(&n(b)), a == b, "{a} {b}");
            assert_eq!(n(a).at_most(&n(b)), a <= b, "{a} {b}");
        }
        assert_eq!(n(a).to_i64(), a as i64, "{a}");
    }
}

#[test]
fn integers_become_the_nearest_double() {
    let values: [i128; 10] = [
        0,
        1,
        -1,
        1_783_420_000_123_456_789,
        -1_783_420_000_123_456_789,
        9_007_199_254_740_993,
        9_007_199_254_740_995,
        i128::MAX,
        i128::MIN,
        (1 << 100) + 1,
    ];
    for v in values {
        assert_eq!(f(Number::from_int(v)), v as f64, "{v}");
    }
}

#[test]
fn a_table_tells_how_much_time_has_passed() {
    let table = |points: Vec<TablePoint>| TemporalSystem {
        id: "test:table".into(),
        epoch_parent_sec: n(10.0),
        rate: Rate::Table { table: points },
        offset: n(0.0),
    };
    let points = vec![
        TablePoint { parent: n(0.0), local: n(0.0) },
        TablePoint { parent: n(100.0), local: n(1000.0) },
    ];
    let (local, extra) = table(points).local_seconds(n(50.0));
    assert_eq!(f(local), 500.0);
    assert_eq!(opt(extra.wall_elapsed_s), Some(40.0));
    assert_eq!(opt(extra.active_elapsed_s), None);
    let (_, extra) = table(Vec::new()).local_seconds(n(50.0));
    assert_eq!(opt(extra.wall_elapsed_s), Some(40.0));
}

#[test]
fn an_offset_shifts_by_itself() {
    let at = |offset: f64| {
        let system = TemporalSystem {
            id: "s".into(),
            epoch_parent_sec: n(0.0),
            rate: Rate::Paused { value: n(3.0), pauses: vec![Pause { from: n(2.0), to: Some(n(4.0)) }] },
            offset: n(offset),
        };
        system.local_seconds(n(10.0))
    };
    let (plain, known) = at(0.0);
    let (shifted, same) = at(7.5);
    assert_eq!(f(shifted), f(plain) + 7.5);
    assert_eq!(opt(known.active_elapsed_s), opt(same.active_elapsed_s));
}
