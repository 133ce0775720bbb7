//! The rating model: a value and a deviation per rating, the expected
//! outcome of a game, and the update of a rating by one period of games.
//!
//! Values and deviations are millionths on the internal scale. The display
//! scale multiplies by 173.7178 and centres values at 1500.

use vstd::prelude::*;
use crate::fixed::{
    div_round, isqrt, lemma_logistic_bounds, lemma_root_exists, lemma_round_div_error,
    lemma_round_div_odd, lemma_sqrt_bounds, logistic, logistic_fixed, round_div, sqrt_floor, ONE,
};

verus! {

/// The largest magnitude of a rating value.
pub const VALUE_LIMIT: i64 = 1_000_000_000_000;

/// The deviation of a rating about which nothing is known.
pub const DEVIATION_CEILING: i64 = 2_014_732;

/// The deviation below which no rating is ever narrowed.
pub const DEVIATION_FLOOR: i64 = 150_000;

/// The volatility: how much uncertainty one period adds.
pub const VOLATILITY: i64 = 60_000;

/// The square of pi, in millionths.
pub const PI_SQUARED: i64 = 9_869_604;

/// The factor between the internal and the display scale, in ten-thousandths.
pub const DISPLAY_SCALE: i64 = 1_737_178;

/// The divisor that goes with [`DISPLAY_SCALE`].
pub const DISPLAY_UNIT: i64 = 10_000;

/// The display value of the internal value zero, in millionths.
pub const DISPLAY_CENTER: i64 = 1_500_000_000;

/// The largest number of games that one update takes.
pub const MAX_GAMES: usize = 0xFFFF_FFFF;

/// One with eighteen zeros: what the information sum is divided by to
/// give millionths, and likewise a value's change before it is rounded.
pub const WIDE_ONE: i128 = 1_000_000_000_000_000_000;

/// How a game ended for the player whose rating is updated.
#[derive(Clone, Copy, Debug, PartialEq, Eq, Structural)]
pub enum Outcome {
    Loss,
    Draw,
    Win,
}

impl Outcome {
    /// The score of the outcome in millionths: zero, a half, or one.
    pub open spec fn score(self) -> int {
        match self {
            Outcome::Loss => 0,
            Outcome::Draw => ONE / 2,
            Outcome::Win => ONE as int,
        }
    }

    /// Computes [`Outcome::score`].
    pub fn points(self) -> (s: i64)
        ensures
            s == self.score(),
    {
        match self {
            Outcome::Loss => 0,
            Outcome::Draw => ONE / 2,
            Outcome::Win => ONE,
        }
    }
}

/// A skill estimate: the value and how uncertain it is.
#[derive(Clone, Copy, Debug, PartialEq, Eq, Structural)]
pub struct Rating {
    pub value: i64,
    pub deviation: i64,
}

/// `x` moved into the range from `lo` to `hi`.
pub open spec fn clamp(x: int, lo: int, hi: int) -> int {
    if x < lo {
        lo
    } else if x > hi {
        hi
    } else {
        x
    }
}

/// The display value, in millionths, of an internal value.
pub open spec fn to_display(value: int) -> int {
    round_div(value * DISPLAY_SCALE, DISPLAY_UNIT as int) + DISPLAY_CENTER
}

/// The internal value, in millionths, of a display value.
pub open spec fn to_internal(display: int) -> int {
    round_div((display - DISPLAY_CENTER) * DISPLAY_UNIT, DISPLAY_SCALE as int)
}

/// A display value rounded to whole rating points.
pub open spec fn value_points(value: int) -> int {
    round_div(to_display(value), ONE as int)
}

/// The width of the interval that a deviation stands for, in whole rating
/// points of the display scale: twice the deviation.
pub open spec fn deviation_points(deviation: int) -> int {
    round_div(2 * deviation * DISPLAY_SCALE, DISPLAY_UNIT * ONE)
}

/// The sum of the squares of two deviations.
pub open spec fn combined_sq(a: Rating, b: Rating) -> int {
    a.deviation * a.deviation + b.deviation * b.deviation
}

/// The weight `1 / sqrt(1 + 3 d / pi^2)` in millionths that a squared
/// deviation `d` (in millionths of millionths) gives to a difference of
/// values: the more uncertain, the less a difference counts.
pub open spec fn g_factor(dev_sq: int) -> int {
    (ONE * ONE) / (isqrt(((ONE + 3 * dev_sq / (PI_SQUARED as int)) * ONE) as nat) as int)
}

/// The difference of two values, weighted by [`g_factor`] of the combined
/// deviation. Swapping the ratings flips the sign exactly.
pub open spec fn scaled_gap(a: Rating, b: Rating) -> int {
    let g = g_factor(combined_sq(a, b));
    let d = a.value - b.value;
    if d >= 0 {
        (g * d) / (ONE as int)
    } else {
        -((g * (-d)) / (ONE as int))
    }
}

/// The probability, in millionths, that `a` beats `b`.
pub open spec fn expected_score(a: Rating, b: Rating) -> int {
    logistic(scaled_gap(a, b))
}

/// What one game adds to the information sum of `r`'s update.
pub open spec fn info_term(r: Rating, game: (Rating, Outcome)) -> int {
    let g = g_factor(combined_sq(r, game.0));
    let e = expected_score(r, game.0);
    (g * g) * (e * (ONE - e))
}

/// What one game adds to the drift sum of `r`'s update: positive where the
/// score beat the expectation.
pub open spec fn drift_term(r: Rating, game: (Rating, Outcome)) -> int {
    g_factor(combined_sq(r, game.0)) * (game.1.score() - expected_score(r, game.0))
}

/// The step that adds one game's [`info_term`] to a running sum.
pub open spec fn info_adder(r: Rating) -> spec_fn(int, (Rating, Outcome)) -> int {
    |acc: int, game: (Rating, Outcome)| acc + info_term(r, game)
}

/// The step that adds one game's [`drift_term`] to a running sum.
pub open spec fn drift_adder(r: Rating) -> spec_fn(int, (Rating, Outcome)) -> int {
    |acc: int, game: (Rating, Outcome)| acc + drift_term(r, game)
}

/// The information that a period's games carry about `r`: the sum of
/// their [`info_term`]s.
pub open spec fn info_sum(r: Rating, games: Seq<(Rating, Outcome)>) -> int {
    games.fold_left(0int, info_adder(r))
}

/// The direction and strength with which a period's games move `r`: the
/// sum of their [`drift_term`]s.
pub open spec fn drift_sum(r: Rating, games: Seq<(Rating, Outcome)>) -> int {
    games.fold_left(0int, drift_adder(r))
}

/// The squared deviation after one period has added its uncertainty.
pub open spec fn grown_sq(deviation: int) -> int {
    deviation * deviation + VOLATILITY * VOLATILITY
}

/// The squared deviation `p` narrowed by the information `info`:
/// `p / (1 + p * info)` in the units of `p`.
pub open spec fn narrowed_sq(p: int, info: int) -> int {
    (p * WIDE_ONE) / (WIDE_ONE + p * (info / (WIDE_ONE as int)))
}

/// The deviation after one period without games.
pub open spec fn decay_step(deviation: int) -> int {
    clamp(isqrt(grown_sq(deviation) as nat) as int, DEVIATION_FLOOR as int, DEVIATION_CEILING as int)
}

/// The deviation after `periods` periods without games.
pub open spec fn decay_deviation(deviation: int, periods: nat) -> int
    decreases periods,
{
    if periods == 0 {
        deviation
    } else {
        decay_deviation(decay_step(deviation), (periods - 1) as nat)
    }
}

/// The rating after one period in which `games` were played, all of them
/// taken as simultaneous evidence against the rating at the period's start.
pub open spec fn updated(r: Rating, games: Seq<(Rating, Outcome)>) -> Rating {
    let q = narrowed_sq(grown_sq(r.deviation as int), info_sum(r, games));
    Rating {
        value: clamp(
            r.value + round_div(q * drift_sum(r, games), WIDE_ONE as int),
            -VALUE_LIMIT,
            VALUE_LIMIT as int,
        ) as i64,
        deviation: clamp(isqrt(q as nat) as int, DEVIATION_FLOOR as int, DEVIATION_CEILING as int) as i64,
    }
}

/// The rating after `periods` periods without games.
pub open spec fn decayed(r: Rating, periods: nat) -> Rating {
    Rating { value: r.value, deviation: decay_deviation(r.deviation as int, periods) as i64 }
}

/// Whether every game is against a valid rating.
pub open spec fn games_wf(games: Seq<(Rating, Outcome)>) -> bool {
    forall|i: int| 0 <= i < games.len() ==> (#[trigger] games[i]).0.wf()
}

/// The product of two bounded numbers that are not negative is bounded
/// by the product of the bounds.
proof fn lemma_product_bound(a: int, b: int, x: int, y: int)
    requires
        0 <= a <= x,
        0 <= b <= y,
    ensures
        0 <= a * b <= x * y,
{
    assert(0 <= a * b <= x * y) by (nonlinear_arith)
        requires
            0 <= a <= x,
            0 <= b <= y,
    ;
}

/// The product of a bounded number that is not negative and a number of
/// bounded magnitude is bounded in magnitude by the product of the bounds.
proof fn lemma_signed_product_bound(a: int, b: int, x: int, y: int)
    requires
        0 <= a <= x,
        -y <= b <= y,
    ensures
        -(x * y) <= a * b <= x * y,
{
    assert(-(x * y) <= a * b <= x * y) by (nonlinear_arith)
        requires
            0 <= a <= x,
            -y <= b <= y,
    ;
}

/// The weight of a combined deviation lies above zero and at most at one.
pub proof fn lemma_g_factor_bounds(dev_sq: int)
    requires
        0 <= dev_sq <= 2 * (DEVIATION_CEILING * DEVIATION_CEILING),
    ensures
        0 < g_factor(dev_sq) <= ONE,
{
    let n = ((ONE + 3 * dev_sq / (PI_SQUARED as int)) * ONE) as nat;
    let s = isqrt(n);
    assert(ONE * ONE <= n <= 10_000_000 * 10_000_000 - 1);
    lemma_root_exists(n);
    lemma_sqrt_bounds(s, n, ONE as nat, 10_000_000);
    assert(0 < (ONE * ONE) / (s as int) <= ONE) by (nonlinear_arith)
        requires
            ONE <= s <= 10_000_000,
    ;
}

impl Rating {
    /// Whether the rating is one that the model produces: the value within
    /// its limit and the deviation between floor and ceiling.
    pub open spec fn wf(self) -> bool {
        &&& -VALUE_LIMIT <= self.value <= VALUE_LIMIT
        &&& DEVIATION_FLOOR <= self.deviation <= DEVIATION_CEILING
    }

    /// A rating with the given value and deviation, if they are within
    /// the model's limits.
    pub fn new(value: i64, deviation: i64) -> (res: Option<Rating>)
        ensures
            res is Some <==> (Rating { value, deviation }).wf(),
            res matches Some(r) ==> r == (Rating { value, deviation }),
    {
        if -VALUE_LIMIT <= value && value <= VALUE_LIMIT && DEVIATION_FLOOR <= deviation
            && deviation <= DEVIATION_CEILING {
            Some(Rating { value, deviation })
        } else {
            None
        }
    }

    /// The rating of a player of whom nothing is known yet.
    pub fn initial() -> (r: Rating)
        ensures
            r == (Rating { value: 0, deviation: DEVIATION_CEILING }),
            r.wf(),
    {
        Rating { value: 0, deviation: DEVIATION_CEILING }
    }

    /// The value on the display scale, in millionths.
    pub fn display_value(self) -> (d: i64)
        requires
            self.wf(),
        ensures
            d == to_display(self.value as int),
    {
        proof {
            lemma_signed_product_bound(
                DISPLAY_SCALE as int,
                self.value as int,
                DISPLAY_SCALE as int,
                VALUE_LIMIT as int,
            );
        }
        let scaled: i128 = (DISPLAY_SCALE as i128) * (self.value as i128);
        let q = div_round(scaled, DISPLAY_UNIT as i128);
        proof {
            lemma_round_div_error(scaled as int, DISPLAY_UNIT as int);
        }
        (q + DISPLAY_CENTER as i128) as i64
    }

    /// The value in whole rating points of the display scale.
    pub fn rounded_value(self) -> (d: i64)
        requires
            self.wf(),
        ensures
            d == value_points(self.value as int),
    {
        let shown = self.display_value();
        proof {
            lemma_round_div_error(shown as int, ONE as int);
        }
        div_round(shown as i128, ONE as i128) as i64
    }

    /// Twice the deviation in whole rating points of the display scale.
    pub fn rounded_deviation(self) -> (d: i64)
        requires
            self.wf(),
        ensures
            d == deviation_points(self.deviation as int),
    {
        let scaled: i128 = 2 * (self.deviation as i128) * 1_737_178;
        let unit: i128 = 10_000_000_000;
        proof {
            lemma_round_div_error(scaled as int, unit as int);
        }
        div_round(scaled, unit) as i64
    }

    /// The weight that goes with this rating and an opponent's.
    fn weight(self, other: Rating) -> (g: i64)
        requires
            self.wf(),
            other.wf(),
        ensures
            g == g_factor(combined_sq(self, other)),
            0 < g <= ONE,
    {
        proof {
            lemma_product_bound(
                self.deviation as int,
                self.deviation as int,
                DEVIATION_CEILING as int,
                DEVIATION_CEILING as int,
            );
            lemma_product_bound(
                other.deviation as int,
                other.deviation as int,
                DEVIATION_CEILING as int,
                DEVIATION_CEILING as int,
            );
            lemma_g_factor_bounds(combined_sq(self, other));
        }
        let dev_sq: i64 = self.deviation * self.deviation + other.deviation * other.deviation;
        let n: i64 = (ONE + 3 * dev_sq / PI_SQUARED) * ONE;
        let s = sqrt_floor(n as u64);
        proof {
            lemma_sqrt_bounds(s as nat, n as nat, ONE as nat, 10_000_000);
        }
        (ONE * ONE) / (s as i64)
    }

    /// The weighted difference of the two values.
    fn gap(self, other: Rating) -> (x: i64)
        requires
            self.wf(),
            other.wf(),
        ensures
            x == scaled_gap(self, other),
            -2 * VALUE_LIMIT <= x <= 2 * VALUE_LIMIT,
    {
        let g = self.weight(other);
        let d: i64 = self.value - other.value;
        if d >= 0 {
            proof {
                lemma_product_bound(g as int, d as int, ONE as int, 2 * VALUE_LIMIT);
                assert((g * d) / (ONE as int) <= 2 * VALUE_LIMIT);
            }
            (g * d) / ONE
        } else {
            proof {
                lemma_product_bound(g as int, -d as int, ONE as int, 2 * VALUE_LIMIT);
                assert((g * (-d)) / (ONE as int) <= 2 * VALUE_LIMIT);
            }
            -((g * (-d)) / ONE)
        }
    }

    /// The probability, in millionths, that this rating's player beats the
    /// player of `other`.
    pub fn expected(self, other: Rating) -> (p: i64)
        requires
            self.wf(),
            other.wf(),
        ensures
            p == expected_score(self, other),
            0 <= p <= ONE,
    {
        logistic_fixed(self.gap(other))
    }
}

/// A squared deviation narrowed by any information is no wider than before.
proof fn lemma_narrowed_bounds(p: int, reduced: int)
    requires
        0 <= p,
        0 <= reduced,
    ensures
        0 <= (p * WIDE_ONE) / (WIDE_ONE + p * reduced) <= p,
        reduced == 0 ==> (p * WIDE_ONE) / (WIDE_ONE + p * reduced) == p,
{
    let w = WIDE_ONE as int;
    assert(0 <= (p * w) / (w + p * reduced) <= p) by (nonlinear_arith)
        requires
            0 <= p,
            0 <= reduced,
            w > 0,
    ;
    if reduced == 0 {
        assert(p * reduced == 0) by (nonlinear_arith)
            requires
                reduced == 0,
        ;
        assert((p * w) / w == p) by (nonlinear_arith)
            requires
                w > 0,
        ;
    }
}

/// One idle period never narrows a deviation, and leaves it between floor
/// and ceiling.
pub proof fn lemma_decay_step_grows(deviation: int)
    requires
        DEVIATION_FLOOR <= deviation <= DEVIATION_CEILING,
    ensures
        deviation <= decay_step(deviation) <= DEVIATION_CEILING,
{
    let n = grown_sq(deviation) as nat;
    lemma_root_exists(n);
    assert(deviation * deviation <= n) by (nonlinear_arith)
        requires
            n == deviation * deviation + VOLATILITY * VOLATILITY,
    ;
    assert(n < (n + 1) * (n + 1)) by (nonlinear_arith);
    lemma_sqrt_bounds(isqrt(n), n, deviation as nat, n + 1);
}

/// A deviation that one idle period leaves unchanged stays unchanged for
/// any number of idle periods.
pub proof fn lemma_decay_fixpoint(deviation: int, periods: nat)
    requires
        decay_step(deviation) == deviation,
    ensures
        decay_deviation(deviation, periods) == deviation,
    decreases periods,
{
    if periods > 0 {
        lemma_decay_fixpoint(deviation, (periods - 1) as nat);
    }
}

/// Idle periods never narrow a deviation, and leave it between floor and
/// ceiling.
pub proof fn lemma_decay_grows(deviation: int, periods: nat)
    requires
        DEVIATION_FLOOR <= deviation <= DEVIATION_CEILING,
    ensures
        deviation <= decay_deviation(deviation, periods) <= DEVIATION_CEILING,
    decreases periods,
{
    if periods > 0 {
        lemma_decay_step_grows(deviation);
        lemma_decay_grows(decay_step(deviation), (periods - 1) as nat);
    }
}

/// The deviation after a period with games is at most what an idle period
/// would have left.
pub proof fn lemma_update_narrows(r: Rating, games: Seq<(Rating, Outcome)>)
    requires
        r.wf(),
        info_sum(r, games) >= 0,
    ensures
        updated(r, games).deviation <= decay_step(r.deviation as int),
        DEVIATION_FLOOR <= updated(r, games).deviation <= DEVIATION_CEILING,
        -VALUE_LIMIT <= updated(r, games).value <= VALUE_LIMIT,
{
    let p = grown_sq(r.deviation as int);
    let info = info_sum(r, games);
    let reduced = info / (WIDE_ONE as int);
    assert(p >= 0) by (nonlinear_arith)
        requires
            p == r.deviation * r.deviation + VOLATILITY * VOLATILITY,
    ;
    lemma_narrowed_bounds(p, reduced);
    let q = narrowed_sq(p, info);
    lemma_root_exists(q as nat);
    lemma_root_exists(p as nat);
    assert(p < (p + 1) * (p + 1)) by (nonlinear_arith)
        requires
            p >= 0,
    ;
    lemma_sqrt_bounds(isqrt(p as nat), p as nat, isqrt(q as nat), (p + 1) as nat);
}

/// The information of any games against valid ratings is not negative.
pub proof fn lemma_info_nonnegative(r: Rating, games: Seq<(Rating, Outcome)>)
    requires
        r.wf(),
        games_wf(games),
    ensures
        0 <= info_sum(r, games) <= games.len() * 1_000_000_000_000_000_000_000_000,
        -games.len() * 1_000_000_000_000 <= drift_sum(r, games) <= games.len()
            * 1_000_000_000_000,
    decreases games.len(),
{
    if games.len() > 0 {
        let rest = games.drop_last();
        assert(games_wf(rest)) by {
            assert forall|i: int| 0 <= i < rest.len() implies (#[trigger] rest[i]).0.wf() by {
                assert(rest[i] == games[i]);
            }
        }
        lemma_info_nonnegative(r, rest);
        lemma_term_bounds(r, games.last());
    }
}

/// The bounds of what one game adds to each sum.
pub proof fn lemma_term_bounds(r: Rating, game: (Rating, Outcome))
    requires
        r.wf(),
        game.0.wf(),
    ensures
        0 <= info_term(r, game) <= 1_000_000_000_000_000_000_000_000,
        -1_000_000_000_000 <= drift_term(r, game) <= 1_000_000_000_000,
{
    let c = DEVIATION_CEILING as int;
    lemma_product_bound(r.deviation as int, r.deviation as int, c, c);
    lemma_product_bound(game.0.deviation as int, game.0.deviation as int, c, c);
    lemma_g_factor_bounds(combined_sq(r, game.0));
    lemma_logistic_bounds(scaled_gap(r, game.0));
    let g = g_factor(combined_sq(r, game.0));
    let e = expected_score(r, game.0);
    lemma_product_bound(g, g, ONE as int, ONE as int);
    lemma_product_bound(e, ONE - e, ONE as int, ONE as int);
    lemma_product_bound(g * g, e * (ONE - e), ONE * ONE, ONE * ONE);
    lemma_signed_product_bound(g, game.1.score() - e, ONE as int, ONE as int);
    assert(ONE * ONE == 1_000_000_000_000);
    assert((ONE * ONE) * (ONE * ONE) == 1_000_000_000_000_000_000_000_000);
}

/// What a single game changes in a value is at most what two valid values
/// can differ by.
pub proof fn lemma_single_change_bounds(own: Rating, other: Rating, won: bool)
    requires
        own.wf(),
        other.wf(),
    ensures
        -2 * VALUE_LIMIT <= updated(
            own,
            seq![(other, if won {
                Outcome::Win
            } else {
                Outcome::Loss
            })],
        ).value - own.value <= 2 * VALUE_LIMIT,
{
    let games = seq![(other, if won {
        Outcome::Win
    } else {
        Outcome::Loss
    })];
    assert(games_wf(games));
    lemma_info_nonnegative(own, games);
    lemma_update_narrows(own, games);
}

/// A win never lowers a value and a loss never raises it: what a single
/// game changes has the sign of its outcome.
pub proof fn law_change_follows_outcome(own: Rating, other: Rating, outcome: Outcome)
    requires
        own.wf(),
        other.wf(),
    ensures
        outcome == Outcome::Win ==> updated(own, seq![(other, outcome)]).value >= own.value,
        outcome == Outcome::Loss ==> updated(own, seq![(other, outcome)]).value <= own.value,
{
    let games = seq![(other, outcome)];
    assert(games_wf(games));
    assert(games.drop_last() =~= Seq::<(Rating, Outcome)>::empty());
    assert(Seq::<(Rating, Outcome)>::empty().fold_left(0int, drift_adder(own)) == 0);
    assert(drift_sum(own, games) == drift_term(own, games.last()));
    lemma_info_nonnegative(own, games);
    let c = DEVIATION_CEILING as int;
    lemma_product_bound(own.deviation as int, own.deviation as int, c, c);
    lemma_product_bound(other.deviation as int, other.deviation as int, c, c);
    lemma_g_factor_bounds(combined_sq(own, other));
    lemma_logistic_bounds(scaled_gap(own, other));
    let g = g_factor(combined_sq(own, other));
    let e = expected_score(own, other);
    let p = grown_sq(own.deviation as int);
    assert(p >= 0) by (nonlinear_arith)
        requires
            p == own.deviation * own.deviation + VOLATILITY * VOLATILITY,
    ;
    let reduced = info_sum(own, games) / (WIDE_ONE as int);
    lemma_narrowed_bounds(p, reduced);
    let q = narrowed_sq(p, info_sum(own, games));
    let drift = drift_sum(own, games);
    let w = WIDE_ONE as int;
    if outcome == Outcome::Win {
        assert(q * drift >= 0) by (nonlinear_arith)
            requires
                drift == g * (ONE - e),
                g > 0,
                0 <= e <= ONE,
                q >= 0,
        ;
        assert((2 * (q * drift) + w) / (2 * w) >= 0) by (nonlinear_arith)
            requires
                q * drift >= 0,
                w > 0,
        ;
    }
    if outcome == Outcome::Loss {
        assert(q * drift <= 0) by (nonlinear_arith)
            requires
                drift == g * (0 - e),
                g > 0,
                0 <= e <= ONE,
                q >= 0,
        ;
        assert((w - 2 * (q * drift)) / (2 * w) >= 0) by (nonlinear_arith)
            requires
                q * drift <= 0,
                w > 0,
        ;
        if q * drift == 0 {
            lemma_round_div_odd(0, w);
        }
    }
}

/// Swapping the two ratings turns the expected score into its complement:
/// the two players' chances add up to exactly one.
pub proof fn law_expected_complement(a: Rating, b: Rating)
    ensures
        expected_score(a, b) + expected_score(b, a) == ONE,
        0 <= expected_score(a, b) <= ONE,
{
    assert(combined_sq(a, b) == combined_sq(b, a));
    let x = scaled_gap(a, b);
    assert(scaled_gap(b, a) == -x) by {
        let g = g_factor(combined_sq(a, b));
        let d = a.value - b.value;
        if d == 0 {
            assert(g * 0 == 0) by (nonlinear_arith);
        }
    }
    lemma_logistic_bounds(x);
}

/// A period without games changes only the deviation, and only upward:
/// the update by no games is one step of decay.
pub proof fn law_idle_period(r: Rating)
    requires
        r.wf(),
    ensures
        updated(r, Seq::empty()) == decayed(r, 1),
        updated(r, Seq::empty()).value == r.value,
        updated(r, Seq::empty()).deviation >= r.deviation,
        updated(r, Seq::empty()).deviation <= DEVIATION_CEILING,
{
    let games = Seq::<(Rating, Outcome)>::empty();
    let p = grown_sq(r.deviation as int);
    assert(info_sum(r, games) == 0);
    assert(drift_sum(r, games) == 0);
    assert(p >= 0) by (nonlinear_arith)
        requires
            p == r.deviation * r.deviation + VOLATILITY * VOLATILITY,
    ;
    lemma_narrowed_bounds(p, 0);
    assert(narrowed_sq(p, 0) == p);
    assert(p * 0 == 0) by (nonlinear_arith);
    lemma_round_div_odd(0, WIDE_ONE as int);
    lemma_decay_step_grows(r.deviation as int);
    reveal_with_fuel(decay_deviation, 2);
}

/// The order of a period's games does not matter: two lists that hold the
/// same games, each as often as the other, give the same rating.
pub proof fn law_update_order_independent(
    r: Rating,
    first: Seq<(Rating, Outcome)>,
    second: Seq<(Rating, Outcome)>,
)
    requires
        first.to_multiset() == second.to_multiset(),
    ensures
        updated(r, first) == updated(r, second),
{
    assert(vstd::seq_lib::commutative_foldl(info_adder(r)));
    assert(vstd::seq_lib::commutative_foldl(drift_adder(r)));
    vstd::seq_lib::lemma_fold_left_permutation(first, second, info_adder(r), 0int);
    vstd::seq_lib::lemma_fold_left_permutation(first, second, drift_adder(r), 0int);
}

/// The display value of a value within the limit lies within two hundred
/// million rating points of zero.
pub proof fn lemma_display_bounds(value: int)
    requires
        -VALUE_LIMIT <= value <= VALUE_LIMIT,
    ensures
        -200_000_000_000_000 <= to_display(value) <= 200_000_000_000_000,
{
    lemma_round_div_error(value * DISPLAY_SCALE, DISPLAY_UNIT as int);
}

/// Going to the display scale and back returns every internal value
/// unchanged, so the display of the result is the display one started from.
pub proof fn law_display_round_trip(value: int)
    ensures
        to_internal(to_display(value)) == value,
        to_display(to_internal(to_display(value))) == to_display(value),
{
    let shown = round_div(value * DISPLAY_SCALE, DISPLAY_UNIT as int);
    lemma_round_div_error(value * DISPLAY_SCALE, DISPLAY_UNIT as int);
    lemma_round_div_error(shown * DISPLAY_UNIT, DISPLAY_SCALE as int);
    let back = round_div(shown * DISPLAY_UNIT, DISPLAY_SCALE as int);
    assert(back == value);
}

/// Going to the internal scale and back moves a display value by less than
/// a ten-thousandth of a rating point.
pub proof fn law_internal_round_trip(display: int)
    ensures
        -87 <= to_display(to_internal(display)) - display <= 87,
{
    let centred = display - DISPLAY_CENTER;
    let inner = round_div(centred * DISPLAY_UNIT, DISPLAY_SCALE as int);
    lemma_round_div_error(centred * DISPLAY_UNIT, DISPLAY_SCALE as int);
    lemma_round_div_error(inner * DISPLAY_SCALE, DISPLAY_UNIT as int);
}

impl Rating {
    /// The deviation after one period without games.
    fn grow(deviation: i64) -> (next: i64)
        requires
            DEVIATION_FLOOR <= deviation <= DEVIATION_CEILING,
        ensures
            next == decay_step(deviation as int),
            deviation <= next <= DEVIATION_CEILING,
    {
        proof {
            lemma_product_bound(
                deviation as int,
                deviation as int,
                DEVIATION_CEILING as int,
                DEVIATION_CEILING as int,
            );
            lemma_decay_step_grows(deviation as int);
        }
        let p: i64 = deviation * deviation + VOLATILITY * VOLATILITY;
        let root = sqrt_floor(p as u64) as i64;
        if root < DEVIATION_FLOOR {
            DEVIATION_FLOOR
        } else if root > DEVIATION_CEILING {
            DEVIATION_CEILING
        } else {
            root
        }
    }

    /// The rating after `periods` periods without games: the value as it
    /// was, the deviation grown once per period and capped at the ceiling.
    pub fn decay(self, periods: u64) -> (res: Rating)
        requires
            self.wf(),
        ensures
            res == decayed(self, periods as nat),
            res.wf(),
            res.value == self.value,
            res.deviation >= self.deviation,
    {
        let mut deviation = self.deviation;
        let mut left = periods;
        let mut settled = false;
        while left > 0 && !settled
            invariant
                DEVIATION_FLOOR <= deviation <= DEVIATION_CEILING,
                self.deviation <= deviation,
                decay_deviation(deviation as int, left as nat) == decay_deviation(
                    self.deviation as int,
                    periods as nat,
                ),
                settled ==> decay_step(deviation as int) == deviation,
            decreases 2 * left + (if settled { 0int } else { 1int }),
        {
            let next = Rating::grow(deviation);
            if next == deviation {
                settled = true;
            } else {
                deviation = next;
                left = left - 1;
            }
        }
        proof {
            if settled {
                lemma_decay_fixpoint(deviation as int, left as nat);
            }
        }
        Rating { value: self.value, deviation }
    }

    /// The rating after one period in which `games` were played. All games
    /// count as simultaneous evidence against the rating at the period's
    /// start; their order does not matter.
    pub fn update(self, games: &Vec<(Rating, Outcome)>) -> (res: Rating)
        requires
            self.wf(),
            games_wf(games@),
            games.len() <= MAX_GAMES,
        ensures
            res == updated(self, games@),
            res.wf(),
            res.deviation <= decay_step(self.deviation as int),
    {
        let mut info: i128 = 0;
        let mut drift: i128 = 0;
        let mut i: usize = 0;
        while i < games.len()
            invariant
                self.wf(),
                games_wf(games@),
                games.len() <= MAX_GAMES,
                i <= games.len(),
                info == info_sum(self, games@.take(i as int)),
                drift == drift_sum(self, games@.take(i as int)),
                0 <= info <= i * 1_000_000_000_000_000_000_000_000,
                -i * 1_000_000_000_000 <= drift <= i * 1_000_000_000_000,
            decreases games.len() - i,
        {
            let opponent = games[i].0;
            let outcome = games[i].1;
            let g = self.weight(opponent);
            let e = self.expected(opponent);
            proof {
                lemma_term_bounds(self, games@[i as int]);
                lemma_product_bound(g as int, g as int, ONE as int, ONE as int);
                lemma_product_bound(e as int, ONE - e, ONE as int, ONE as int);
                assert(games@.take(i + 1).drop_last() == games@.take(i as int));
                assert(games@.take(i + 1).last() == games@[i as int]);
            }
            let gg: i128 = (g as i128) * (g as i128);
            let ee: i128 = (e as i128) * ((ONE - e) as i128);
            info = info + gg * ee;
            drift = drift + (g as i128) * ((outcome.points() - e) as i128);
            i = i + 1;
        }
        proof {
            assert(games@.take(i as int) == games@);
            lemma_product_bound(
                self.deviation as int,
                self.deviation as int,
                DEVIATION_CEILING as int,
                DEVIATION_CEILING as int,
            );
            lemma_update_narrows(self, games@);
        }
        let p: i128 = (self.deviation as i128) * (self.deviation as i128) + (VOLATILITY as i128) * (
        VOLATILITY as i128);
        let reduced: i128 = info / WIDE_ONE;
        proof {
            lemma_product_bound(
                p as int,
                reduced as int,
                5_000_000_000_000,
                4_294_967_295_000_000,
            );
            lemma_product_bound(p as int, WIDE_ONE as int, 5_000_000_000_000, WIDE_ONE as int);
            lemma_narrowed_bounds(p as int, reduced as int);
        }
        let q: i128 = (p * WIDE_ONE) / (WIDE_ONE + p * reduced);
        let root = sqrt_floor(q as u64) as i64;
        let deviation = if root < DEVIATION_FLOOR {
            DEVIATION_FLOOR
        } else if root > DEVIATION_CEILING {
            DEVIATION_CEILING
        } else {
            root
        };
        proof {
            lemma_signed_product_bound(
                q as int,
                drift as int,
                5_000_000_000_000,
                4_294_967_295_000_000_000_000,
            );
            lemma_round_div_error((q * drift) as int, WIDE_ONE as int);
        }
        let shift = div_round(q * drift, WIDE_ONE);
        let moved: i128 = self.value as i128 + shift;
        let value = if moved < -(VALUE_LIMIT as i128) {
            -VALUE_LIMIT
        } else if moved > VALUE_LIMIT as i128 {
            VALUE_LIMIT
        } else {
            moved as i64
        };
        Rating { value, deviation }
    }

    /// What a single game against `other` changes in this rating's value:
    /// the difference that [`Rating::update`] by that game alone makes.
    pub fn rating_change(self, other: Rating, outcome: Outcome) -> (delta: i64)
        requires
            self.wf(),
            other.wf(),
        ensures
            delta == updated(self, seq![(other, outcome)]).value - self.value,
            outcome == Outcome::Win ==> delta >= 0,
            outcome == Outcome::Loss ==> delta <= 0,
    {
        proof {
            law_change_follows_outcome(self, other, outcome);
        }
        let mut games: Vec<(Rating, Outcome)> = Vec::new();
        games.push((other, outcome));
        assert(games@ =~= seq![(other, outcome)]);
        let after = self.update(&games);
        after.value - self.value
    }
}

/// One more game adds its terms to the two sums of an update.
pub proof fn lemma_sums_push(r: Rating, games: Seq<(Rating, Outcome)>, game: (Rating, Outcome))
    ensures
        info_sum(r, games.push(game)) == info_sum(r, games) + info_term(r, game),
        drift_sum(r, games.push(game)) == drift_sum(r, games) + drift_term(r, game),
        info_sum(r, Seq::empty()) == 0,
        drift_sum(r, Seq::empty()) == 0,
{
    assert(games.push(game).drop_last() =~= games);
    assert(games.push(game).last() == game);
}

/// Players of equal value have an even chance against each other,
/// whatever their deviations.
pub proof fn law_even_chance(a: Rating, b: Rating)
    requires
        a.value == b.value,
    ensures
        expected_score(a, b) == ONE / 2,
{
    let g = g_factor(combined_sq(a, b));
    assert(g * 0 == 0) by (nonlinear_arith);
    assert(scaled_gap(a, b) == 0);
    crate::fixed::lemma_exp_neg_bounds(0);
    assert((ONE * ONE) / (ONE + ONE) == ONE / 2);
}

/// The weight of the combined deviation of a rating at the deviation two
/// and one at three tenths is 0.667675; with one at 1.8 it is 0.558956:
/// the less certain the opponent, the less a game counts.
proof fn lemma_weights_of_the_example()
    ensures
        g_factor(4_090_000_000_000) == 667_675,
        g_factor(7_240_000_000_000) == 558_956,
{
    assert(crate::fixed::is_sqrt(1_497_734, 2_243_210_000_000)) by (nonlinear_arith);
    crate::fixed::lemma_sqrt_is(1_497_734, 2_243_210_000_000);
    assert(3 * 4_090_000_000_000int / (PI_SQUARED as int) == 1_243_210);
    assert(((ONE + 1_243_210) * ONE) as nat == 2_243_210_000_000);
    assert((ONE * ONE) / 1_497_734 == 667_675);
    assert(crate::fixed::is_sqrt(1_789_048, 3_200_696_000_000)) by (nonlinear_arith);
    crate::fixed::lemma_sqrt_is(1_789_048, 3_200_696_000_000);
    assert(3 * 7_240_000_000_000int / (PI_SQUARED as int) == 2_200_696);
    assert(((ONE + 2_200_696) * ONE) as nat == 3_200_696_000_000);
    assert((ONE * ONE) / 1_789_048 == 558_956);
}

/// A worked example. A player at the value zero with the deviation two
/// loses twice to an opponent at the value zero with the deviation three
/// tenths and then wins once, all in one period. The player's deviation
/// falls, to 1.308428, and the value falls with the net loss, to
/// -0.571525. A single loss to that settled opponent costs more, 0.924189,
/// than a single loss to an opponent whose deviation is 1.8, 0.852373.
pub proof fn law_worked_example()
    ensures
        updated(
            Rating { value: 0, deviation: 2_000_000 },
            seq![
                (Rating { value: 0, deviation: 300_000 }, Outcome::Loss),
                (Rating { value: 0, deviation: 300_000 }, Outcome::Loss),
                (Rating { value: 0, deviation: 300_000 }, Outcome::Win),
            ],
        ).value == -571_525,
        updated(
            Rating { value: 0, deviation: 2_000_000 },
            seq![
                (Rating { value: 0, deviation: 300_000 }, Outcome::Loss),
                (Rating { value: 0, deviation: 300_000 }, Outcome::Loss),
                (Rating { value: 0, deviation: 300_000 }, Outcome::Win),
            ],
        ).deviation == 1_308_428,
        updated(
            Rating { value: 0, deviation: 2_000_000 },
            seq![(Rating { value: 0, deviation: 300_000 }, Outcome::Loss)],
        ).value == -924_189,
        updated(
            Rating { value: 0, deviation: 2_000_000 },
            seq![(Rating { value: 0, deviation: 1_800_000 }, Outcome::Loss)],
        ).value == -852_373,
{
    let p = Rating { value: 0, deviation: 2_000_000 };
    let o = Rating { value: 0, deviation: 300_000 };
    let u = Rating { value: 0, deviation: 1_800_000 };
    lemma_weights_of_the_example();
    law_even_chance(p, o);
    law_even_chance(p, u);
    assert(combined_sq(p, o) == 4_090_000_000_000);
    assert(combined_sq(p, u) == 7_240_000_000_000);
    let none = Seq::<(Rating, Outcome)>::empty();
    let w = WIDE_ONE as int;
    let grown = grown_sq(2_000_000);
    assert(grown == 4_003_600_000_000);

    let lost = (o, Outcome::Loss);
    let won = (o, Outcome::Win);
    assert(g_factor(combined_sq(p, o)) == 667_675);
    assert(expected_score(p, o) == 500_000);
    assert(667_675int * 667_675 == 445_789_905_625);
    assert(500_000int * (ONE - 500_000) == 250_000_000_000);
    assert(445_789_905_625int * 250_000_000_000 == 111_447_476_406_250_000_000_000);
    assert(667_675int * (0 - 500_000) == -333_837_500_000);
    assert(667_675int * (ONE - 500_000) == 333_837_500_000);
    assert(info_term(p, lost) == 111_447_476_406_250_000_000_000);
    assert(info_term(p, won) == 111_447_476_406_250_000_000_000);
    assert(drift_term(p, lost) == -333_837_500_000);
    assert(drift_term(p, won) == 333_837_500_000);
    assert(grown * w == 4_003_600_000_000_000_000_000_000_000_000);

    let three = seq![lost, lost, won];
    assert(three =~= none.push(lost).push(lost).push(won));
    lemma_sums_push(p, none, lost);
    lemma_sums_push(p, none.push(lost), lost);
    lemma_sums_push(p, none.push(lost).push(lost), won);
    assert(info_sum(p, three) == 334_342_429_218_750_000_000_000);
    assert(drift_sum(p, three) == -333_837_500_000);
    assert(334_342_429_218_750_000_000_000int / w == 334_342);
    assert(grown * 334_342 == 1_338_571_631_200_000_000);
    assert(4_003_600_000_000_000_000_000_000_000_000int / 2_338_571_631_200_000_000
        == 1_711_985_190_697);
    assert(narrowed_sq(grown, info_sum(p, three)) == 1_711_985_190_697);
    assert(crate::fixed::is_sqrt(1_308_428, 1_711_985_190_697)) by (nonlinear_arith);
    crate::fixed::lemma_sqrt_is(1_308_428, 1_711_985_190_697);
    assert(1_711_985_190_697int * -333_837_500_000 == -571_524_856_099_309_737_500_000);
    assert(1_143_050_712_198_619_475_000_000int / 2_000_000_000_000_000_000 == 571_525);
    assert(round_div(-571_524_856_099_309_737_500_000, w) == -571_525);

    let one = seq![lost];
    assert(one =~= none.push(lost));
    assert(info_sum(p, one) == 111_447_476_406_250_000_000_000);
    assert(drift_sum(p, one) == -333_837_500_000);
    assert(111_447_476_406_250_000_000_000int / w == 111_447);
    assert(grown * 111_447 == 446_189_209_200_000_000);
    assert(4_003_600_000_000_000_000_000_000_000_000int / 1_446_189_209_200_000_000
        == 2_768_379_112_864);
    assert(narrowed_sq(grown, info_sum(p, one)) == 2_768_379_112_864);
    assert(2_768_379_112_864int * -333_837_500_000 == -924_188_762_090_735_600_000_000);
    assert(1_848_378_524_181_471_200_000_000int / 2_000_000_000_000_000_000 == 924_189);
    assert(round_div(-924_188_762_090_735_600_000_000, w) == -924_189);

    let unsure = (u, Outcome::Loss);
    let other = seq![unsure];
    assert(other =~= none.push(unsure));
    lemma_sums_push(p, none, unsure);
    assert(g_factor(combined_sq(p, u)) == 558_956);
    assert(expected_score(p, u) == 500_000);
    assert(558_956int * 558_956 == 312_431_809_936);
    assert(312_431_809_936int * 250_000_000_000 == 78_107_952_484_000_000_000_000);
    assert(558_956int * (0 - 500_000) == -279_478_000_000);
    assert(info_term(p, unsure) == 78_107_952_484_000_000_000_000);
    assert(drift_term(p, unsure) == -279_478_000_000);
    assert(78_107_952_484_000_000_000_000int / w == 78_107);
    assert(grown * 78_107 == 312_709_185_200_000_000);
    assert(4_003_600_000_000_000_000_000_000_000_000int / 1_312_709_185_200_000_000
        == 3_049_875_817_993);
    assert(narrowed_sq(grown, info_sum(p, other)) == 3_049_875_817_993);
    assert(3_049_875_817_993int * -279_478_000_000 == -852_373_193_861_047_654_000_000);
    assert(1_704_747_387_722_095_308_000_000int / 2_000_000_000_000_000_000 == 852_373);
    assert(round_div(-852_373_193_861_047_654_000_000, w) == -852_373);
}

} // verus!
