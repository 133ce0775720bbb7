use ratings::fixed::{div_round, exp_neg_fixed, logistic_fixed, sqrt_floor, ONE};
use ratings::glicko::{Outcome, Rating, DEVIATION_CEILING, DEVIATION_FLOOR, VALUE_LIMIT};

fn rating(value: i64, deviation: i64) -> Rating {
    Rating::new(value, deviation).unwrap()
}

#[test]
fn division_rounds_halves_away_from_zero() {
    assert_eq!(div_round(7, 2), 4);
    assert_eq!(div_round(-7, 2), -4);
    assert_eq!(div_round(5, 10), 1);
    assert_eq!(div_round(4, 10), 0);
    assert_eq!(div_round(-5, 10), -1);
    assert_eq!(div_round(-4, 10), 0);
    assert_eq!(div_round(0, 3), 0);
    assert_eq!(div_round(1_000_000_000_000_000_000_000, 3), 333_333_333_333_333_333_333);
}

#[test]
fn square_roots_round_down() {
    assert_eq!(sqrt_floor(0), 0);
    assert_eq!(sqrt_floor(1), 1);
    assert_eq!(sqrt_floor(99), 9);
    assert_eq!(sqrt_floor(100), 10);
    assert_eq!(sqrt_floor(u64::MAX), 4_294_967_295);
    assert_eq!(sqrt_floor(4_294_967_295 * 4_294_967_295 - 1), 4_294_967_294);
}

#[test]
fn the_exponential_matches_the_curve() {
    assert_eq!(exp_neg_fixed(0), ONE);
    assert_eq!(exp_neg_fixed(1_000_000), 367_879);
    assert_eq!(exp_neg_fixed(700_000), 496_585);
    assert_eq!(exp_neg_fixed(30_000_000), 0);
    assert_eq!(exp_neg_fixed(i64::MAX), 0);
    let mut x = 0i64;
    while x < 20_000_000 {
        let exact = (-(x as f64) / 1e6).exp() * 1e6;
        assert!((exp_neg_fixed(x) as f64 - exact).abs() < 2.5);
        x += 7919;
    }
}

#[test]
fn the_logistic_curve_mirrors_about_zero() {
    assert_eq!(logistic_fixed(0), 500_000);
    assert_eq!(logistic_fixed(1_000_000), 731_058);
    assert_eq!(logistic_fixed(-1_000_000), 268_942);
    assert_eq!(logistic_fixed(5_000_000), 993_308);
    assert_eq!(logistic_fixed(i64::MAX), ONE);
    assert_eq!(logistic_fixed(-i64::MAX), 0);
    let mut x = -9_000_000i64;
    while x < 9_000_000 {
        assert_eq!(logistic_fixed(x) + logistic_fixed(-x), ONE);
        x += 12_347;
    }
}

#[test]
fn ratings_have_limits() {
    assert!(Rating::new(0, DEVIATION_FLOOR).is_some());
    assert!(Rating::new(0, DEVIATION_FLOOR - 1).is_none());
    assert!(Rating::new(0, DEVIATION_CEILING).is_some());
    assert!(Rating::new(0, DEVIATION_CEILING + 1).is_none());
    assert!(Rating::new(VALUE_LIMIT, 300_000).is_some());
    assert!(Rating::new(VALUE_LIMIT + 1, 300_000).is_none());
    assert!(Rating::new(-VALUE_LIMIT - 1, 300_000).is_none());
    assert_eq!(Rating::initial(), Rating { value: 0, deviation: DEVIATION_CEILING });
    assert_eq!(Outcome::Loss.points(), 0);
    assert_eq!(Outcome::Draw.points(), 500_000);
    assert_eq!(Outcome::Win.points(), 1_000_000);
}

#[test]
fn expectations_add_up_to_one() {
    let a = rating(1_234_567, 400_000);
    let b = rating(800_000, 500_000);
    assert_eq!(a.expected(b), 601_035);
    assert_eq!(b.expected(a), 398_965);
    assert_eq!(a.expected(a), 500_000);
    assert_eq!(Rating::initial().expected(Rating::initial()), 500_000);
    let far = rating(VALUE_LIMIT, 150_000);
    let low = rating(-VALUE_LIMIT, 150_000);
    assert_eq!(far.expected(low), ONE);
    assert_eq!(low.expected(far), 0);
    let exact = |a: Rating, b: Rating| {
        let (ma, pa, mb, pb) = (
            a.value as f64 / 1e6,
            a.deviation as f64 / 1e6,
            b.value as f64 / 1e6,
            b.deviation as f64 / 1e6,
        );
        let g = 1.0 / (1.0 + 3.0 * (pa * pa + pb * pb) / std::f64::consts::PI.powi(2)).sqrt();
        1.0 / (1.0 + (-g * (ma - mb)).exp())
    };
    for (va, da, vb, db) in [
        (0, 300_000, 500_000, 300_000),
        (-2_000_000, 2_000_000, 3_000_000, 150_000),
        (4_000_000, 700_000, -1_000_000, 1_900_000),
    ] {
        let (a, b) = (rating(va, da), rating(vb, db));
        assert!((a.expected(b) as f64 / 1e6 - exact(a, b)).abs() < 1e-5);
        assert_eq!(a.expected(b) + b.expected(a), ONE);
    }
}

#[test]
fn the_display_scale_round_trips() {
    let r = rating(1_234_567, 400_000);
    assert_eq!(r.display_value(), 1_714_466_263);
    assert_eq!(r.rounded_value(), 1714);
    assert_eq!(r.rounded_deviation(), 139);
    assert_eq!(Rating::initial().rounded_value(), 1500);
    assert_eq!(Rating::initial().rounded_deviation(), 700);
    assert_eq!(rating(-2_000_000, 300_000).rounded_value(), 1153);
    let back = |display: i64| -> i64 {
        let centred = (display - 1_500_000_000) as i128 * 10_000;
        div_round(centred, 1_737_178) as i64
    };
    for value in [0, 1, -1, 1_234_567, -987_654_321, VALUE_LIMIT, -VALUE_LIMIT, 17, 5_757] {
        let shown = rating(value, 300_000).display_value();
        assert_eq!(back(shown), value);
    }
    let picked = rating(back(1_800_000_000), 300_000).display_value();
    assert_eq!(picked, 1_800_000_044);
}

#[test]
fn updates_match_the_formulas() {
    let a = rating(1_234_567, 400_000);
    let b = rating(800_000, 500_000);
    assert_eq!(a.rating_change(b, Outcome::Win), 59_473);
    assert_eq!(a.rating_change(b, Outcome::Loss), -89_596);
    assert_eq!(a.rating_change(b, Outcome::Draw), -15_061);
    let games = vec![
        (b, Outcome::Win),
        (rating(-300_000, 220_000), Outcome::Loss),
        (rating(2_000_000, 900_000), Outcome::Draw),
    ];
    assert_eq!(a.update(&games), Rating { value: 1_193_532, deviation: 388_081 });
    let initial = Rating::initial();
    assert_eq!(
        initial.update(&vec![(initial, Outcome::Win); 3]),
        Rating { value: 1_741_945, deviation: 1_470_553 }
    );
    assert_eq!(
        initial.update(&vec![(initial, Outcome::Loss)]),
        Rating { value: -843_736, deviation: 1_772_667 }
    );
    assert_eq!(a.update(&vec![(b, Outcome::Win)]).value - a.value, a.rating_change(b, Outcome::Win));
}

#[test]
fn the_order_of_games_does_not_matter() {
    let a = rating(1_234_567, 400_000);
    let games = vec![
        (rating(800_000, 500_000), Outcome::Win),
        (rating(-300_000, 220_000), Outcome::Loss),
        (rating(2_000_000, 900_000), Outcome::Draw),
        (rating(800_000, 500_000), Outcome::Loss),
        (rating(5_000_000, 2_000_000), Outcome::Win),
    ];
    let wanted = a.update(&games);
    let mut turned = games.clone();
    turned.reverse();
    assert_eq!(a.update(&turned), wanted);
    let mut rotated = games.clone();
    for _ in 0..games.len() {
        rotated.rotate_left(1);
        assert_eq!(a.update(&rotated), wanted);
    }
    let mut swapped = games.clone();
    swapped.swap(1, 3);
    assert_eq!(a.update(&swapped), wanted);
}

#[test]
fn deviations_stay_between_floor_and_ceiling() {
    let sure = rating(0, DEVIATION_FLOOR);
    let many = vec![(sure, Outcome::Win); 5000];
    let after = sure.update(&many);
    assert_eq!(after.deviation, DEVIATION_FLOOR);
    assert!(after.value > 0 && after.value <= VALUE_LIMIT);
    let unsure = Rating::initial();
    assert_eq!(unsure.update(&Vec::new()).deviation, DEVIATION_CEILING);
    assert_eq!(unsure.decay(7).deviation, DEVIATION_CEILING);
    let edge = rating(VALUE_LIMIT, 2_000_000);
    let weak = rating(-VALUE_LIMIT, 2_000_000);
    let won = edge.update(&vec![(weak, Outcome::Win); 10]);
    assert!(won.value <= VALUE_LIMIT);
    let lost = weak.update(&vec![(edge, Outcome::Loss); 10]);
    assert!(lost.value >= -VALUE_LIMIT);
    let upset = edge.update(&vec![(weak, Outcome::Loss); 10]);
    assert!(upset.value < VALUE_LIMIT);
    assert!(upset.deviation >= DEVIATION_FLOOR && upset.deviation <= DEVIATION_CEILING);
}

#[test]
fn decay_grows_once_per_period() {
    let r = rating(1_234_567, 400_000);
    assert_eq!(r.decay(1), Rating { value: 1_234_567, deviation: 404_474 });
    assert_eq!(r.decay(2), Rating { value: 1_234_567, deviation: 408_900 });
    assert_eq!(r.decay(10), Rating { value: 1_234_567, deviation: 442_715 });
    assert_eq!(r.decay(2), r.decay(1).decay(1));
    assert_eq!(rating(0, DEVIATION_FLOOR).decay(3).deviation, 182_481);
    assert_eq!(r.decay(u64::MAX).deviation, DEVIATION_CEILING);
}
