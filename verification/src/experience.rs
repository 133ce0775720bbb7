//! How much stronger or weaker the opponents are that players meet: the
//! distribution of rating differences over the snapshots of past matches.

use vstd::prelude::*;
use fxhash::FxHashMap;
use crate::buckets::{bump, count_at, count_of, counts_new};
use crate::fixed::ONE;
use crate::glicko::to_display;
use crate::records::{snapshots_wf, RatingSnapshot};

verus! {

/// The width of one bucket of rating differences, in millionths of a
/// rating point.
pub const BUCKET_WIDTH: i64 = 25_000_000;

/// Half of [`BUCKET_WIDTH`]: buckets are centred on multiples of the width.
pub const BUCKET_HALF: i64 = 12_500_000;

/// The lowest and highest bucket that is reported.
pub const BUCKET_SPAN: i64 = 30;

/// One hundred rating points in millionths: the step of the thresholds.
pub const HUNDRED_POINTS: i64 = 100_000_000;

/// The largest number of snapshots that one evaluation takes.
pub const MAX_ROWS: usize = 0x3FFF_FFFF;

/// The number of the bucket that a rating difference falls into.
pub open spec fn bucket_of(delta: int) -> int {
    (delta + BUCKET_HALF) / (BUCKET_WIDTH as int)
}

/// How many of the differences exceed `threshold`.
pub open spec fn count_above(deltas: Seq<int>, threshold: int) -> int
    decreases deltas.len(),
{
    if deltas.len() == 0 {
        0
    } else {
        count_above(deltas.drop_last(), threshold) + if deltas.last() > threshold {
            1int
        } else {
            0int
        }
    }
}

/// How many of the differences lie below `threshold`.
pub open spec fn count_below(deltas: Seq<int>, threshold: int) -> int
    decreases deltas.len(),
{
    if deltas.len() == 0 {
        0
    } else {
        count_below(deltas.drop_last(), threshold) + if deltas.last() < threshold {
            1int
        } else {
            0int
        }
    }
}

/// How many of the differences fall into `bucket`.
pub open spec fn count_in_bucket(deltas: Seq<int>, bucket: int) -> int
    decreases deltas.len(),
{
    if deltas.len() == 0 {
        0
    } else {
        count_in_bucket(deltas.drop_last(), bucket) + if bucket_of(deltas.last()) == bucket {
            1int
        } else {
            0int
        }
    }
}

/// The part `count` of `total` as a multiple `scale` of millionths, rounded
/// down, or nothing where there is no total to take a part of. Rounding
/// down keeps the shares of parts that do not overlap from adding up to
/// more than the whole.
pub open spec fn share(count: int, total: int, scale: int) -> Option<i64> {
    if total <= 0 {
        None
    } else {
        Some(((count * scale * ONE) / total) as i64)
    }
}

/// A share lies between nothing and the whole, and the shares of two parts
/// that together are no more than the total add up to no more than the
/// whole.
pub proof fn lemma_share_bounds(first: int, second: int, total: int, scale: int)
    requires
        0 <= first,
        0 <= second,
        first + second <= total,
        0 < total,
        0 <= scale,
    ensures
        0 <= (first * scale * ONE) / total <= scale * ONE,
        (first * scale * ONE) / total + (second * scale * ONE) / total <= ((first + second) * scale
            * ONE) / total,
        ((first + second) * scale * ONE) / total <= scale * ONE,
{
    let unit = scale * ONE;
    assert(first * scale * ONE == first * unit) by (nonlinear_arith)
        requires
            unit == scale * ONE,
    ;
    assert(second * scale * ONE == second * unit) by (nonlinear_arith)
        requires
            unit == scale * ONE,
    ;
    assert((first + second) * scale * ONE == first * unit + second * unit) by (nonlinear_arith)
        requires
            unit == scale * ONE,
    ;
    let a = first * unit;
    let b = second * unit;
    assert(0 <= a && 0 <= b && a + b <= total * unit) by (nonlinear_arith)
        requires
            a == first * unit,
            b == second * unit,
            0 <= first,
            0 <= second,
            first + second <= total,
            0 <= unit,
    ;
    vstd::arithmetic::div_mod::lemma_fundamental_div_mod(a, total);
    vstd::arithmetic::div_mod::lemma_fundamental_div_mod(b, total);
    vstd::arithmetic::div_mod::lemma_fundamental_div_mod(a + b, total);
    vstd::arithmetic::div_mod::lemma_mod_bound(a, total);
    vstd::arithmetic::div_mod::lemma_mod_bound(b, total);
    vstd::arithmetic::div_mod::lemma_mod_bound(a + b, total);
    let x = a / total;
    let y = b / total;
    let z = (a + b) / total;
    assert(0 <= x && x + y <= z && z <= unit) by (nonlinear_arith)
        requires
            a == total * x + a % total,
            b == total * y + b % total,
            a + b == total * z + (a + b) % total,
            0 <= a % total < total,
            0 <= b % total < total,
            0 <= (a + b) % total < total,
            0 <= a,
            0 <= b,
            a + b <= total * unit,
            0 < total,
    ;
}

/// Computes [`share`].
pub fn share_of(count: u64, total: u64, scale: u64) -> (res: Option<i64>)
    requires
        count <= total,
        scale <= 1000,
    ensures
        res == share(count as int, total as int, scale as int),
        res matches Some(part) ==> 0 <= part <= scale * ONE,
{
    if total == 0 {
        None
    } else {
        let unit: i128 = (scale as i128) * 1_000_000;
        assert(0 <= count * unit <= 0xFFFF_FFFF_FFFF_FFFF * 1_000_000_000) by (nonlinear_arith)
            requires
                0 <= count <= 0xFFFF_FFFF_FFFF_FFFF,
                0 <= unit <= 1_000_000_000,
        ;
        let wide: i128 = (count as i128) * unit;
        proof {
            assert(count * scale * ONE == count * (scale * ONE)) by (nonlinear_arith);
            lemma_share_bounds(count as int, 0, total as int, scale as int);
        }
        Some((wide / (total as i128)) as i64)
    }
}

/// The differences that one snapshot adds for the band of display ratings
/// strictly between `min_rating` and `max_rating` (whole rating points):
/// for each side whose rating lies in the band, how far the opponent's
/// rating is above its own. A snapshot with a deviation at or above the
/// cutoff adds nothing.
pub open spec fn band_deltas_of(
    row: RatingSnapshot,
    min_rating: int,
    max_rating: int,
    low_deviation: int,
) -> Seq<int> {
    let a = to_display(row.rating_a.value as int);
    let b = to_display(row.rating_b.value as int);
    if !row.confident(low_deviation) {
        Seq::empty()
    } else {
        (if min_rating * ONE < a < max_rating * ONE {
            seq![b - a]
        } else {
            Seq::empty()
        }) + (if min_rating * ONE < b < max_rating * ONE {
            seq![a - b]
        } else {
            Seq::empty()
        })
    }
}

/// The differences that one snapshot adds for the player `id`: for each
/// side that the player was on, how far the opponent's display rating is
/// above the player's. A snapshot with a deviation at or above the cutoff
/// adds nothing.
pub open spec fn player_deltas_of(row: RatingSnapshot, id: int, low_deviation: int) -> Seq<int> {
    let a = to_display(row.rating_a.value as int);
    let b = to_display(row.rating_b.value as int);
    if !row.confident(low_deviation) {
        Seq::empty()
    } else {
        (if row.game.id_a == id {
            seq![b - a]
        } else {
            Seq::empty()
        }) + (if row.game.id_b == id {
            seq![a - b]
        } else {
            Seq::empty()
        })
    }
}

/// All differences of a sequence of snapshots for a band of ratings.
pub open spec fn band_deltas(
    rows: Seq<RatingSnapshot>,
    min_rating: int,
    max_rating: int,
    low_deviation: int,
) -> Seq<int>
    decreases rows.len(),
{
    if rows.len() == 0 {
        Seq::empty()
    } else {
        band_deltas(rows.drop_last(), min_rating, max_rating, low_deviation) + band_deltas_of(
            rows.last(),
            min_rating,
            max_rating,
            low_deviation,
        )
    }
}

/// All differences of a sequence of snapshots for one player.
pub open spec fn player_deltas(rows: Seq<RatingSnapshot>, id: int, low_deviation: int) -> Seq<int>
    decreases rows.len(),
{
    if rows.len() == 0 {
        Seq::empty()
    } else {
        player_deltas(rows.drop_last(), id, low_deviation) + player_deltas_of(
            rows.last(),
            id,
            low_deviation,
        )
    }
}

/// The distribution of rating differences: the share of games against
/// opponents more than 100, 200, 300 and 400 points stronger or weaker,
/// and the share per bucket of 25 points from -750 to 750. Shares are in
/// millionths (bucket shares in millionths of a percent); every share is
/// `None` where no game was counted.
#[derive(Debug)]
pub struct RatingDiffStats {
    pub below_400: Option<i64>,
    pub below_300: Option<i64>,
    pub below_200: Option<i64>,
    pub below_100: Option<i64>,
    pub over_100: Option<i64>,
    pub over_200: Option<i64>,
    pub over_300: Option<i64>,
    pub over_400: Option<i64>,
    pub difference_amounts: Vec<i64>,
    pub difference_counts: Vec<Option<i64>>,
}

impl RatingDiffStats {
    /// Whether these are the statistics of the given differences.
    pub open spec fn describes(self, deltas: Seq<int>) -> bool {
        let total = deltas.len() as int;
        &&& self.over_100 == share(count_above(deltas, 1 * HUNDRED_POINTS), total, 1)
        &&& self.over_200 == share(count_above(deltas, 2 * HUNDRED_POINTS), total, 1)
        &&& self.over_300 == share(count_above(deltas, 3 * HUNDRED_POINTS), total, 1)
        &&& self.over_400 == share(count_above(deltas, 4 * HUNDRED_POINTS), total, 1)
        &&& self.below_100 == share(count_below(deltas, -1 * HUNDRED_POINTS), total, 1)
        &&& self.below_200 == share(count_below(deltas, -2 * HUNDRED_POINTS), total, 1)
        &&& self.below_300 == share(count_below(deltas, -3 * HUNDRED_POINTS), total, 1)
        &&& self.below_400 == share(count_below(deltas, -4 * HUNDRED_POINTS), total, 1)
        &&& self.difference_amounts@.len() == 2 * BUCKET_SPAN + 1
        &&& self.difference_counts@.len() == 2 * BUCKET_SPAN + 1
        &&& forall|i: int|
            0 <= i <= 2 * BUCKET_SPAN ==> #[trigger] self.difference_amounts@[i] == (i
                - BUCKET_SPAN) * 25
        &&& forall|i: int|
            0 <= i <= 2 * BUCKET_SPAN ==> #[trigger] self.difference_counts@[i] == share(
                count_in_bucket(deltas, i - BUCKET_SPAN),
                total,
                100,
            )
    }
}

/// The running counts of an evaluation.
struct DiffTally {
    total: u64,
    over_100: u64,
    over_200: u64,
    over_300: u64,
    over_400: u64,
    below_100: u64,
    below_200: u64,
    below_300: u64,
    below_400: u64,
    counts: FxHashMap<i64, i64>,
    deltas: Ghost<Seq<int>>,
}

impl DiffTally {
    /// Whether every count is that of the differences counted so far.
    spec fn wf(self) -> bool {
        let deltas = self.deltas@;
        &&& self.total == deltas.len()
        &&& self.over_100 == count_above(deltas, 1 * HUNDRED_POINTS)
        &&& self.over_200 == count_above(deltas, 2 * HUNDRED_POINTS)
        &&& self.over_300 == count_above(deltas, 3 * HUNDRED_POINTS)
        &&& self.over_400 == count_above(deltas, 4 * HUNDRED_POINTS)
        &&& self.below_100 == count_below(deltas, -1 * HUNDRED_POINTS)
        &&& self.below_200 == count_below(deltas, -2 * HUNDRED_POINTS)
        &&& self.below_300 == count_below(deltas, -3 * HUNDRED_POINTS)
        &&& self.below_400 == count_below(deltas, -4 * HUNDRED_POINTS)
        &&& forall|b: int| #[trigger] count_at(self.counts@, b) == count_in_bucket(deltas, b)
    }

    /// The counts of no differences.
    fn new() -> (tally: DiffTally)
        ensures
            tally.wf(),
            tally.deltas@ == Seq::<int>::empty(),
    {
        DiffTally {
            total: 0,
            over_100: 0,
            over_200: 0,
            over_300: 0,
            over_400: 0,
            below_100: 0,
            below_200: 0,
            below_300: 0,
            below_400: 0,
            counts: counts_new(),
            deltas: Ghost(Seq::empty()),
        }
    }

    /// Counts one difference.
    fn record(&mut self, delta: i64)
        requires
            old(self).wf(),
            old(self).total < 2 * MAX_ROWS,
            -1_000_000_000_000_000 <= delta <= 1_000_000_000_000_000,
        ensures
            final(self).wf(),
            final(self).deltas@ == old(self).deltas@.push(delta as int),
            final(self).total == old(self).total + 1,
    {
        let ghost before = self.deltas@;
        let ghost after = before.push(delta as int);
        proof {
            assert(after.drop_last() == before);
            lemma_counts_bounded(before, 1 * HUNDRED_POINTS);
            lemma_counts_bounded(before, 2 * HUNDRED_POINTS);
            lemma_counts_bounded(before, 3 * HUNDRED_POINTS);
            lemma_counts_bounded(before, 4 * HUNDRED_POINTS);
            lemma_counts_bounded(before, -1 * HUNDRED_POINTS);
            lemma_counts_bounded(before, -2 * HUNDRED_POINTS);
            lemma_counts_bounded(before, -3 * HUNDRED_POINTS);
            lemma_counts_bounded(before, -4 * HUNDRED_POINTS);
        }
        if delta > HUNDRED_POINTS {
            self.over_100 = self.over_100 + 1;
        }
        if delta > 2 * HUNDRED_POINTS {
            self.over_200 = self.over_200 + 1;
        }
        if delta > 3 * HUNDRED_POINTS {
            self.over_300 = self.over_300 + 1;
        }
        if delta > 4 * HUNDRED_POINTS {
            self.over_400 = self.over_400 + 1;
        }
        if delta < -HUNDRED_POINTS {
            self.below_100 = self.below_100 + 1;
        }
        if delta < -2 * HUNDRED_POINTS {
            self.below_200 = self.below_200 + 1;
        }
        if delta < -3 * HUNDRED_POINTS {
            self.below_300 = self.below_300 + 1;
        }
        if delta < -4 * HUNDRED_POINTS {
            self.below_400 = self.below_400 + 1;
        }
        let bucket = floor_bucket(delta);
        proof {
            assert(count_at(self.counts@, bucket as int) == count_in_bucket(before, bucket as int));
            lemma_bucket_bounded(before, bucket as int);
        }
        bump(&mut self.counts, bucket);
        self.total = self.total + 1;
        self.deltas = Ghost(after);
        proof {
            assert forall|b: int| #[trigger]
                count_at(self.counts@, b) == count_in_bucket(after, b) by {
                if b != bucket {
                    assert(count_at(old(self).counts@, b) == count_in_bucket(before, b));
                }
            }
        }
    }

    /// The statistics of everything counted.
    fn finish(self) -> (stats: RatingDiffStats)
        requires
            self.wf(),
        ensures
            stats.describes(self.deltas@),
    {
        let ghost deltas = self.deltas@;
        proof {
            lemma_counts_bounded(deltas, 1 * HUNDRED_POINTS);
            lemma_counts_bounded(deltas, 2 * HUNDRED_POINTS);
            lemma_counts_bounded(deltas, 3 * HUNDRED_POINTS);
            lemma_counts_bounded(deltas, 4 * HUNDRED_POINTS);
            lemma_counts_bounded(deltas, -1 * HUNDRED_POINTS);
            lemma_counts_bounded(deltas, -2 * HUNDRED_POINTS);
            lemma_counts_bounded(deltas, -3 * HUNDRED_POINTS);
            lemma_counts_bounded(deltas, -4 * HUNDRED_POINTS);
        }
        let mut amounts: Vec<i64> = Vec::new();
        let mut shares: Vec<Option<i64>> = Vec::new();
        let mut bucket: i64 = -BUCKET_SPAN;
        while bucket <= BUCKET_SPAN
            invariant
                self.wf(),
                deltas == self.deltas@,
                -BUCKET_SPAN <= bucket <= BUCKET_SPAN + 1,
                amounts@.len() == bucket + BUCKET_SPAN,
                shares@.len() == bucket + BUCKET_SPAN,
                forall|i: int|
                    0 <= i < amounts@.len() ==> #[trigger] amounts@[i] == (i - BUCKET_SPAN) * 25,
                forall|i: int|
                    0 <= i < shares@.len() ==> #[trigger] shares@[i] == share(
                        count_in_bucket(deltas, i - BUCKET_SPAN),
                        deltas.len() as int,
                        100,
                    ),
            decreases BUCKET_SPAN + 1 - bucket,
        {
            let count = count_of(&self.counts, bucket);
            proof {
                assert(count_at(self.counts@, bucket as int) == count_in_bucket(
                    deltas,
                    bucket as int,
                ));
                lemma_bucket_bounded(deltas, bucket as int);
            }
            amounts.push(bucket * 25);
            shares.push(share_of(count as u64, self.total, 100));
            bucket = bucket + 1;
        }
        RatingDiffStats {
            below_400: share_of(self.below_400, self.total, 1),
            below_300: share_of(self.below_300, self.total, 1),
            below_200: share_of(self.below_200, self.total, 1),
            below_100: share_of(self.below_100, self.total, 1),
            over_100: share_of(self.over_100, self.total, 1),
            over_200: share_of(self.over_200, self.total, 1),
            over_300: share_of(self.over_300, self.total, 1),
            over_400: share_of(self.over_400, self.total, 1),
            difference_amounts: amounts,
            difference_counts: shares,
        }
    }
}

/// No count exceeds the number of differences.
proof fn lemma_counts_bounded(deltas: Seq<int>, threshold: int)
    ensures
        0 <= count_above(deltas, threshold) <= deltas.len(),
        0 <= count_below(deltas, threshold) <= deltas.len(),
    decreases deltas.len(),
{
    if deltas.len() > 0 {
        lemma_counts_bounded(deltas.drop_last(), threshold);
    }
}

/// No bucket holds more than the number of differences.
proof fn lemma_bucket_bounded(deltas: Seq<int>, bucket: int)
    ensures
        0 <= count_in_bucket(deltas, bucket) <= deltas.len(),
    decreases deltas.len(),
{
    if deltas.len() > 0 {
        lemma_bucket_bounded(deltas.drop_last(), bucket);
    }
}

/// Computes [`bucket_of`].
fn floor_bucket(delta: i64) -> (bucket: i64)
    requires
        -1_000_000_000_000_000 <= delta <= 1_000_000_000_000_000,
    ensures
        bucket == bucket_of(delta as int),
{
    let shifted: i64 = delta + BUCKET_HALF;
    if shifted >= 0 {
        shifted / BUCKET_WIDTH
    } else {
        -((BUCKET_WIDTH - 1 - shifted) / BUCKET_WIDTH)
    }
}

/// Whether a display rating in millionths lies strictly between two whole
/// numbers of rating points.
fn in_band(shown: i64, min_rating: i64, max_rating: i64) -> (res: bool)
    ensures
        res == (min_rating * ONE < shown < max_rating * ONE),
{
    (min_rating as i128) * 1_000_000 < shown as i128 && (shown as i128) < (max_rating as i128)
        * 1_000_000
}

/// The distribution of rating differences met by players whose display
/// rating lies strictly between `min_rating` and `max_rating`, over the
/// snapshots in which both deviations were below `low_deviation`.
pub fn rating_experience(
    rows: &Vec<RatingSnapshot>,
    min_rating: i64,
    max_rating: i64,
    low_deviation: i64,
) -> (stats: RatingDiffStats)
    requires
        snapshots_wf(rows@),
        rows.len() <= MAX_ROWS,
    ensures
        stats.describes(
            band_deltas(rows@, min_rating as int, max_rating as int, low_deviation as int),
        ),
{
    let mut tally = DiffTally::new();
    let mut i: usize = 0;
    while i < rows.len()
        invariant
            snapshots_wf(rows@),
            rows.len() <= MAX_ROWS,
            i <= rows.len(),
            tally.wf(),
            tally.total <= 2 * i,
            tally.deltas@ == band_deltas(
                rows@.take(i as int),
                min_rating as int,
                max_rating as int,
                low_deviation as int,
            ),
        decreases rows.len() - i,
    {
        let row = rows[i];
        let ghost so_far = tally.deltas@;
        proof {
            assert(rows@.take(i + 1).drop_last() == rows@.take(i as int));
            assert(rows@.take(i + 1).last() == row);
            assert(row.wf());
        }
        if row.is_confident(low_deviation) {
            let a = row.rating_a.display_value();
            let b = row.rating_b.display_value();
            proof {
                crate::glicko::lemma_display_bounds(row.rating_a.value as int);
                crate::glicko::lemma_display_bounds(row.rating_b.value as int);
            }
            if in_band(a, min_rating, max_rating) {
                tally.record(b - a);
            }
            if in_band(b, min_rating, max_rating) {
                tally.record(a - b);
            }
        }
        proof {
            assert(tally.deltas@ =~= so_far + band_deltas_of(
                row,
                min_rating as int,
                max_rating as int,
                low_deviation as int,
            ));
        }
        i = i + 1;
    }
    proof {
        assert(rows@.take(i as int) == rows@);
    }
    tally.finish()
}

/// The distribution of rating differences met by the player `id`, over the
/// snapshots in which both deviations were below `low_deviation`.
pub fn rating_experience_player(rows: &Vec<RatingSnapshot>, id: i64, low_deviation: i64) -> (stats:
    RatingDiffStats)
    requires
        snapshots_wf(rows@),
        rows.len() <= MAX_ROWS,
    ensures
        stats.describes(player_deltas(rows@, id as int, low_deviation as int)),
{
    let mut tally = DiffTally::new();
    let mut i: usize = 0;
    while i < rows.len()
        invariant
            snapshots_wf(rows@),
            rows.len() <= MAX_ROWS,
            i <= rows.len(),
            tally.wf(),
            tally.total <= 2 * i,
            tally.deltas@ == player_deltas(rows@.take(i as int), id as int, low_deviation as int),
        decreases rows.len() - i,
    {
        let row = rows[i];
        let ghost so_far = tally.deltas@;
        proof {
            assert(rows@.take(i + 1).drop_last() == rows@.take(i as int));
            assert(rows@.take(i + 1).last() == row);
            assert(row.wf());
        }
        if row.is_confident(low_deviation) {
            let a = row.rating_a.display_value();
            let b = row.rating_b.display_value();
            proof {
                crate::glicko::lemma_display_bounds(row.rating_a.value as int);
                crate::glicko::lemma_display_bounds(row.rating_b.value as int);
            }
            if row.game.id_a == id {
                tally.record(b - a);
            }
            if row.game.id_b == id {
                tally.record(a - b);
            }
        }
        proof {
            assert(tally.deltas@ =~= so_far + player_deltas_of(
                row,
                id as int,
                low_deviation as int,
            ));
        }
        i = i + 1;
    }
    proof {
        assert(rows@.take(i as int) == rows@);
    }
    tally.finish()
}

/// How many of the differences fall into the buckets from `low` to `high`,
/// both included.
pub open spec fn bucket_span(deltas: Seq<int>, low: int, high: int) -> int
    decreases high - low + 1,
{
    if high < low {
        0
    } else {
        bucket_span(deltas, low, high - 1) + count_in_bucket(deltas, high)
    }
}

/// The sum of the shares of a list, a missing share counting as nothing.
pub open spec fn shares_total(shares: Seq<Option<i64>>) -> int
    decreases shares.len(),
{
    if shares.len() == 0 {
        0
    } else {
        shares_total(shares.drop_last()) + match shares.last() {
            Some(part) => part as int,
            None => 0int,
        }
    }
}

/// A span of buckets holds no more differences than there are, since
/// every difference falls into one bucket.
pub proof fn lemma_bucket_span_bound(deltas: Seq<int>, low: int, high: int)
    ensures
        0 <= bucket_span(deltas, low, high) <= deltas.len(),
    decreases deltas.len(), high - low + 1,
{
    if deltas.len() == 0 {
        if high >= low {
            lemma_bucket_span_bound(deltas, low, high - 1);
        }
    } else {
        lemma_bucket_span_bound(deltas.drop_last(), low, high);
        lemma_bucket_span_step(deltas, low, high);
    }
}

/// One more difference adds one to a span of buckets exactly where it
/// falls into the span.
pub proof fn lemma_bucket_span_step(deltas: Seq<int>, low: int, high: int)
    requires
        deltas.len() > 0,
    ensures
        bucket_span(deltas, low, high) == bucket_span(deltas.drop_last(), low, high) + if low
            <= bucket_of(deltas.last()) <= high {
            1int
        } else {
            0int
        },
    decreases high - low + 1,
{
    if high >= low {
        lemma_bucket_span_step(deltas, low, high - 1);
    }
}

/// No difference lies both above a threshold and below its negative.
pub proof fn lemma_outside_apart(deltas: Seq<int>, threshold: int)
    requires
        threshold >= 0,
    ensures
        0 <= count_above(deltas, threshold),
        0 <= count_below(deltas, -threshold),
        count_above(deltas, threshold) + count_below(deltas, -threshold) <= deltas.len(),
    decreases deltas.len(),
{
    if deltas.len() > 0 {
        lemma_outside_apart(deltas.drop_last(), threshold);
    }
}

/// The shares of the first `k` buckets of the chart, times the number of
/// differences, are no more than the differences in those buckets, taken
/// as a hundred each.
proof fn lemma_shares_prefix(shares: Seq<Option<i64>>, deltas: Seq<int>, k: int)
    requires
        deltas.len() > 0,
        0 <= k <= shares.len(),
        forall|i: int|
            0 <= i < shares.len() ==> #[trigger] shares[i] == share(
                count_in_bucket(deltas, i - BUCKET_SPAN),
                deltas.len() as int,
                100,
            ),
    ensures
        0 <= shares_total(shares.take(k)),
        shares_total(shares.take(k)) * deltas.len() <= bucket_span(
            deltas,
            -BUCKET_SPAN as int,
            k - 1 - BUCKET_SPAN,
        ) * (100 * ONE),
    decreases k,
{
    let total = deltas.len() as int;
    if k == 0 {
        assert(shares.take(0) =~= Seq::<Option<i64>>::empty());
    } else {
        lemma_shares_prefix(shares, deltas, k - 1);
        assert(shares.take(k).drop_last() =~= shares.take(k - 1));
        assert(shares.take(k).last() == shares[k - 1]);
        let count = count_in_bucket(deltas, k - 1 - BUCKET_SPAN);
        lemma_bucket_bounded(deltas, k - 1 - BUCKET_SPAN);
        lemma_share_bounds(count, 0, total, 100);
        let part = (count * 100 * ONE) / total;
        assert(shares[k - 1] == Some(part as i64));
        vstd::arithmetic::div_mod::lemma_fundamental_div_mod(count * 100 * ONE, total);
        vstd::arithmetic::div_mod::lemma_mod_bound(count * 100 * ONE, total);
        let before = shares_total(shares.take(k - 1));
        let span = bucket_span(deltas, -BUCKET_SPAN as int, k - 2 - BUCKET_SPAN);
        assert((before + part) * total <= (span + count) * (100 * ONE)) by (nonlinear_arith)
            requires
                before * total <= span * (100 * ONE),
                count * 100 * ONE == total * part + (count * 100 * ONE) % total,
                0 <= (count * 100 * ONE) % total,
        ;
    }
}

/// The shares of a chart of differences never add up to more than the
/// whole: the share of the games against opponents more than a hundred
/// points stronger and that against opponents more than a hundred points
/// weaker are together at most one, and the shares of the buckets are
/// together at most a hundred percent.
pub proof fn law_shares_within_the_whole(stats: RatingDiffStats, deltas: Seq<int>)
    requires
        stats.describes(deltas),
    ensures
        shares_total(seq![stats.over_100, stats.below_100]) <= ONE,
        0 <= shares_total(stats.difference_counts@) <= 100 * ONE,
{
    let total = deltas.len() as int;
    let pair = seq![stats.over_100, stats.below_100];
    assert(pair.drop_last() =~= seq![stats.over_100]);
    assert(pair.drop_last().drop_last() =~= Seq::<Option<i64>>::empty());
    assert(shares_total(pair.drop_last().drop_last()) == 0);
    assert(shares_total(pair.drop_last()) == match stats.over_100 {
        Some(part) => part as int,
        None => 0int,
    });
    let shares = stats.difference_counts@;
    if total == 0 {
        lemma_missing_shares(shares, shares.len() as int);
        assert(shares.take(shares.len() as int) =~= shares);
    } else {
        let above = count_above(deltas, 1 * HUNDRED_POINTS);
        let below = count_below(deltas, -1 * HUNDRED_POINTS);
        lemma_outside_apart(deltas, 1 * HUNDRED_POINTS);
        lemma_share_bounds(above, below, total, 1);
        lemma_share_bounds(below, 0, total, 1);
        lemma_shares_prefix(shares, deltas, shares.len() as int);
        assert(shares.take(shares.len() as int) =~= shares);
        lemma_bucket_span_bound(deltas, -BUCKET_SPAN as int, BUCKET_SPAN as int);
        let sum = shares_total(shares);
        let span = bucket_span(deltas, -BUCKET_SPAN as int, BUCKET_SPAN as int);
        assert(sum <= 100 * ONE) by (nonlinear_arith)
            requires
                sum * total <= span * (100 * ONE),
                0 <= span <= total,
                0 < total,
        ;
    }
}

/// Shares that are all missing add up to nothing.
proof fn lemma_missing_shares(shares: Seq<Option<i64>>, k: int)
    requires
        0 <= k <= shares.len(),
        forall|i: int| 0 <= i < shares.len() ==> (#[trigger] shares[i]) is None,
    ensures
        shares_total(shares.take(k)) == 0,
    decreases k,
{
    if k == 0 {
        assert(shares.take(0) =~= Seq::<Option<i64>>::empty());
    } else {
        lemma_missing_shares(shares, k - 1);
        assert(shares.take(k).drop_last() =~= shares.take(k - 1));
        assert(shares.take(k).last() == shares[k - 1]);
    }
}

/// A snapshot with its two sides swapped: the same match, told from the
/// other side.
pub open spec fn swapped(row: RatingSnapshot) -> RatingSnapshot {
    RatingSnapshot {
        game: crate::records::Match {
            timestamp: row.game.timestamp,
            id_a: row.game.id_b,
            char_a: row.game.char_b,
            id_b: row.game.id_a,
            char_b: row.game.char_a,
            winner: match row.game.winner {
                crate::records::Winner::A => crate::records::Winner::B,
                crate::records::Winner::B => crate::records::Winner::A,
            },
            floor: row.game.floor,
        },
        rating_a: row.rating_b,
        rating_b: row.rating_a,
    }
}

/// It does not matter on which side of a match a player is recorded: with
/// the sides of any matches swapped, the player's differences are the
/// same, as long as the player is not on both sides of a match.
pub proof fn law_sides_do_not_matter(
    rows: Seq<RatingSnapshot>,
    turned: Seq<RatingSnapshot>,
    id: int,
    low_deviation: int,
)
    requires
        turned.len() == rows.len(),
        forall|i: int|
            0 <= i < rows.len() ==> #[trigger] turned[i] == rows[i] || turned[i] == swapped(
                rows[i],
            ),
        forall|i: int|
            0 <= i < rows.len() ==> !((#[trigger] rows[i]).game.id_a == id && rows[i].game.id_b
                == id),
    ensures
        player_deltas(turned, id, low_deviation) == player_deltas(rows, id, low_deviation),
    decreases rows.len(),
{
    if rows.len() > 0 {
        let rest = rows.drop_last();
        let turned_rest = turned.drop_last();
        assert forall|i: int| 0 <= i < rest.len() implies (#[trigger] turned_rest[i] == rest[i]
            || turned_rest[i] == swapped(rest[i])) && !(rest[i].game.id_a == id
            && rest[i].game.id_b == id) by {
            assert(turned_rest[i] == turned[i]);
            assert(rest[i] == rows[i]);
        }
        law_sides_do_not_matter(rest, turned_rest, id, low_deviation);
        let last = rows.len() - 1;
        assert(turned[last] == rows[last] || turned[last] == swapped(rows[last]));
        assert(!(rows[last].game.id_a == id && rows[last].game.id_b == id));
        assert(player_deltas_of(turned.last(), id, low_deviation) =~= player_deltas_of(
            rows.last(),
            id,
            low_deviation,
        ));
    }
}

} // verus!
