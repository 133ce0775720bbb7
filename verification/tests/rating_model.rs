use ratings::glicko::{Outcome, Rating, DEVIATION_CEILING, DEVIATION_FLOOR};
use ratings::text::stringify_floor;

fn rating(value: i64, deviation: i64) -> Rating {
    Rating::new(value, deviation).unwrap()
}

#[test]
fn floors_are_rendered() {
    assert_eq!(stringify_floor(1), "F1");
    assert_eq!(stringify_floor(10), "F10");
    assert_eq!(stringify_floor(7), "F7");
    assert_eq!(stringify_floor(0), "C");
    assert_eq!(stringify_floor(11), "C");
    assert_eq!(stringify_floor(99), "C");
    assert_eq!(stringify_floor(-3), "C");
}

#[test]
fn two_losses_and_a_win_against_a_settled_opponent() {
    let p = rating(0, 2_000_000);
    let o = rating(0, 300_000);
    let games = vec![(o, Outcome::Loss), (o, Outcome::Loss), (o, Outcome::Win)];
    let after = p.update(&games);
    assert!(after.deviation < 2_000_000);
    assert!(after.value < 0);
    assert_eq!(after, Rating { value: -571_525, deviation: 1_308_428 });
    let exact = -0.5715244686438363f64;
    assert!((after.value as f64 / 1e6 - exact).abs() < 1e-4);
}

#[test]
fn a_settled_opponent_moves_a_rating_more() {
    let p = rating(0, 2_000_000);
    let settled = rating(0, 300_000);
    let unsettled = rating(0, 1_800_000);
    let by_settled = p.rating_change(settled, Outcome::Loss);
    let by_unsettled = p.rating_change(unsettled, Outcome::Loss);
    assert!(by_settled < by_unsettled);
    assert!(by_unsettled < 0);
    assert_eq!(by_settled, -924_189);
    assert_eq!(by_unsettled, -852_373);
    let even = rating(0, 150_000).expected(rating(0, 2_014_732));
    assert_eq!(even, 500_000);
}

#[test]
fn an_idle_period_only_widens() {
    let r = rating(1_234_567, 400_000);
    let after = r.update(&Vec::new());
    assert_eq!(after.value, r.value);
    assert!(after.deviation > r.deviation);
    assert_eq!(after, r.decay(1));
    assert_eq!(after.deviation, 404_474);
}

#[test]
fn decay_stops_at_the_ceiling() {
    let r = rating(5, DEVIATION_FLOOR);
    let after = r.decay(1_000_000);
    assert_eq!(after.value, 5);
    assert_eq!(after.deviation, DEVIATION_CEILING);
    assert_eq!(r.decay(0), r);
}
