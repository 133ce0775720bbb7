//! The distribution of ratings on each floor: how many established players
//! of a floor fall into each bucket of fifty rating points.

use vstd::prelude::*;
use fxhash::FxHashMap;
use crate::buckets::{bump, count_at, count_of, counts_new};
use crate::floors::{floor_of_line, floor_slot, slot_of, FLOOR_SLOTS, TOP_FLOOR};
use crate::glicko::{lemma_display_bounds, to_display, Rating};

verus! {

/// The width of a bucket in millionths of a rating point.
pub const CURVE_STEP: i64 = 50_000_000;

/// Half of [`CURVE_STEP`]: buckets are centred on multiples of the width.
pub const CURVE_HALF: i64 = 25_000_000;

/// The largest number of players that one evaluation takes.
pub const MAX_PLAYERS: usize = 0x3FFF_FFFF;

/// A player's floor and rating.
#[derive(Clone, Copy, Debug, PartialEq, Eq, Structural)]
pub struct FloorRated {
    pub floor: i64,
    pub rating: Rating,
}

/// The bucket of a rating.
pub open spec fn curve_bucket(rating: Rating) -> int {
    (to_display(rating.value as int) + CURVE_HALF) / (CURVE_STEP as int)
}

/// Whether a player counts for a floor, or for all floors where none is
/// given: the rating is established, and the floor is the one.
pub open spec fn on_curve(row: FloorRated, cutoff: int, slot: Option<int>) -> bool {
    row.rating.deviation < cutoff && (slot matches Some(s) ==> floor_slot(row.floor as int) == s)
}

/// The number of players of a floor, or of all floors, in a bucket.
pub open spec fn curve_count(rows: Seq<FloorRated>, cutoff: int, slot: Option<int>, bucket: int)
    -> int
    decreases rows.len(),
{
    if rows.len() == 0 {
        0
    } else {
        curve_count(rows.drop_last(), cutoff, slot, bucket) + if on_curve(rows.last(), cutoff, slot)
            && curve_bucket(rows.last().rating) == bucket {
            1int
        } else {
            0int
        }
    }
}

/// The number of players of a floor, or of all floors.
pub open spec fn curve_size(rows: Seq<FloorRated>, cutoff: int, slot: Option<int>) -> int
    decreases rows.len(),
{
    if rows.len() == 0 {
        0
    } else {
        curve_size(rows.drop_last(), cutoff, slot) + if on_curve(rows.last(), cutoff, slot) {
            1int
        } else {
            0int
        }
    }
}

/// The lowest and the highest bucket that holds an established player, or
/// nothing where no player is established.
pub open spec fn curve_range(rows: Seq<FloorRated>, cutoff: int) -> Option<(int, int)>
    decreases rows.len(),
{
    if rows.len() == 0 {
        None
    } else {
        let rest = curve_range(rows.drop_last(), cutoff);
        if !on_curve(rows.last(), cutoff, None) {
            rest
        } else {
            let bucket = curve_bucket(rows.last().rating);
            match rest {
                None => Some((bucket, bucket)),
                Some((low, high)) => Some(
                    (if bucket < low {
                        bucket
                    } else {
                        low
                    }, if bucket > high {
                        bucket
                    } else {
                        high
                    }),
                ),
            }
        }
    }
}

/// The lines of the floor distribution that have established players, in
/// their order: the floors one to ten, then the top tier.
pub open spec fn lines_present(rows: Seq<FloorRated>, cutoff: int, lines: int) -> Seq<int>
    decreases lines,
{
    if lines <= 0 {
        Seq::empty()
    } else {
        let rest = lines_present(rows, cutoff, lines - 1);
        if curve_size(rows, cutoff, Some(floor_slot(floor_of_line(lines - 1)))) > 0 {
            rest.push(lines - 1)
        } else {
            rest
        }
    }
}

/// The counts of one floor.
#[derive(Debug)]
pub struct FloorCurve {
    pub floor: i64,
    pub counts: Vec<i64>,
}

/// The distribution of ratings on each floor.
#[derive(Debug)]
pub struct FloorRatingDistributions {
    /// The rating at the centre of each bucket, in rating points.
    pub ratings: Vec<i64>,
    /// For each floor that has established players, their number in each
    /// bucket.
    pub floors: Vec<FloorCurve>,
    /// The number of established players of all floors in each bucket.
    pub overall: Vec<i64>,
}

impl FloorRatingDistributions {
    /// Whether this is the distribution of the given players: one entry
    /// for every bucket from the lowest that holds a player to the highest
    /// that holds one, both included.
    pub open spec fn describes(self, rows: Seq<FloorRated>, cutoff: int, low: int, high: int)
        -> bool {
        &&& self.ratings@.len() == high - low + 1
        &&& self.overall@.len() == high - low + 1
        &&& forall|k: int| 0 <= k <= high - low ==> #[trigger] self.ratings@[k] == (low + k) * 50
        &&& forall|k: int|
            0 <= k <= high - low ==> #[trigger] self.overall@[k] == curve_count(
                rows,
                cutoff,
                None,
                low + k,
            )
        &&& self.floors@.len() == lines_present(rows, cutoff, FLOOR_SLOTS as int).len()
        &&& forall|f: int|
            0 <= f < self.floors@.len() ==> (#[trigger] self.floors@[f]).floor == floor_of_line(
                lines_present(rows, cutoff, FLOOR_SLOTS as int)[f],
            ) && self.floors@[f].counts@.len() == high - low + 1
        &&& forall|f: int, k: int|
            0 <= f < self.floors@.len() && 0 <= k <= high - low
                ==> #[trigger] self.floors@[f].counts@[k] == curve_count(
                rows,
                cutoff,
                Some(floor_slot(floor_of_line(lines_present(rows, cutoff, FLOOR_SLOTS as int)[f]))),
                low + k,
            )
    }
}

/// Whether every rating of the rows is valid.
pub open spec fn rated_wf(rows: Seq<FloorRated>) -> bool {
    forall|i: int| 0 <= i < rows.len() ==> (#[trigger] rows[i]).rating.wf()
}

/// Counts are bounded by the rows, and the range holds every bucket that
/// a player falls into.
pub proof fn lemma_curve_bounds(rows: Seq<FloorRated>, cutoff: int, slot: Option<int>, bucket: int)
    requires
        rated_wf(rows),
    ensures
        0 <= curve_count(rows, cutoff, slot, bucket) <= curve_size(rows, cutoff, slot) <= rows.len(),
        curve_range(rows, cutoff) matches Some((low, high)) ==> -5_000_000 <= low <= high
            <= 5_000_000,
    decreases rows.len(),
{
    if rows.len() > 0 {
        let rest = rows.drop_last();
        assert forall|i: int| 0 <= i < rest.len() implies (#[trigger] rest[i]).rating.wf() by {
            assert(rest[i] == rows[i]);
        }
        lemma_curve_bounds(rest, cutoff, slot, bucket);
        assert(rows.last().rating.wf());
        lemma_display_bounds(rows.last().rating.value as int);
    }
}

/// Computes [`curve_bucket`].
fn bucket_of_rating(rating: Rating) -> (bucket: i64)
    requires
        rating.wf(),
    ensures
        bucket == curve_bucket(rating),
        -5_000_000 <= bucket <= 5_000_000,
{
    let shown = rating.display_value();
    proof {
        lemma_display_bounds(rating.value as int);
    }
    let shifted: i64 = shown + CURVE_HALF;
    if shifted >= 0 {
        shifted / CURVE_STEP
    } else {
        -((CURVE_STEP - 1 - shifted) / CURVE_STEP)
    }
}

/// Counts the established players of a floor, or of all floors, by
/// bucket.
fn count_curve(rows: &Vec<FloorRated>, cutoff: i64, slot: Option<usize>) -> (res: (
    FxHashMap<i64, i64>,
    usize,
))
    requires
        rated_wf(rows@),
        rows@.len() <= MAX_PLAYERS,
    ensures
        forall|b: int|
            #[trigger] count_at(res.0@, b) == curve_count(
                rows@,
                cutoff as int,
                match slot {
                    Some(s) => Some(s as int),
                    None => None,
                },
                b,
            ),
        res.1 == curve_size(
            rows@,
            cutoff as int,
            match slot {
                Some(s) => Some(s as int),
                None => None,
            },
        ),
{
    let ghost wanted: Option<int> = match slot {
        Some(s) => Some(s as int),
        None => None,
    };
    let mut counts = counts_new();
    let mut size: usize = 0;
    let mut i: usize = 0;
    while i < rows.len()
        invariant
            rated_wf(rows@),
            rows@.len() <= MAX_PLAYERS,
            wanted == match slot {
                Some(s) => Some(s as int),
                None => None,
            },
            i <= rows@.len(),
            size == curve_size(rows@.take(i as int), cutoff as int, wanted),
            size <= i,
            forall|b: int|
                #[trigger] count_at(counts@, b) == curve_count(
                    rows@.take(i as int),
                    cutoff as int,
                    wanted,
                    b,
                ),
        decreases rows@.len() - i,
    {
        let row = rows[i];
        let ghost before = counts@;
        let ghost seen = rows@.take(i as int);
        proof {
            assert(rows@.take(i + 1).drop_last() == seen);
            assert(rows@.take(i + 1).last() == row);
            assert(row.rating.wf());
            assert forall|k: int| 0 <= k < seen.len() implies (#[trigger] seen[k]).rating.wf() by {
                assert(seen[k] == rows@[k]);
            }
        }
        let on_floor = match slot {
            Some(s) => slot_of(row.floor) == s,
            None => true,
        };
        if row.rating.deviation < cutoff && on_floor {
            let bucket = bucket_of_rating(row.rating);
            proof {
                lemma_curve_bounds(seen, cutoff as int, wanted, bucket as int);
                assert(count_at(counts@, bucket as int) == curve_count(
                    seen,
                    cutoff as int,
                    wanted,
                    bucket as int,
                ));
            }
            bump(&mut counts, bucket);
            size = size + 1;
            proof {
                assert forall|b: int| #[trigger]
                    count_at(counts@, b) == curve_count(
                        rows@.take(i + 1),
                        cutoff as int,
                        wanted,
                        b,
                    ) by {
                    if b != bucket {
                        assert(count_at(before, b) == curve_count(seen, cutoff as int, wanted, b));
                    }
                }
            }
        } else {
            proof {
                assert forall|b: int| #[trigger]
                    count_at(counts@, b) == curve_count(
                        rows@.take(i + 1),
                        cutoff as int,
                        wanted,
                        b,
                    ) by {
                    assert(count_at(before, b) == curve_count(seen, cutoff as int, wanted, b));
                }
            }
        }
        i = i + 1;
    }
    proof {
        assert(rows@.take(i as int) == rows@);
    }
    (counts, size)
}

/// Reads the counts of the buckets from `low` to `high`, both included.
fn read_curve(counts: &FxHashMap<i64, i64>, low: i64, high: i64) -> (res: Vec<i64>)
    requires
        -5_000_000 <= low <= high <= 5_000_000,
    ensures
        res@.len() == high - low + 1,
        forall|k: int| 0 <= k <= high - low ==> #[trigger] res@[k] == count_at(counts@, low + k),
{
    let mut res: Vec<i64> = Vec::new();
    let mut bucket: i64 = low;
    while bucket <= high
        invariant
            -5_000_000 <= low <= bucket <= high + 1 <= 5_000_001,
            res@.len() == bucket - low,
            forall|k: int|
                0 <= k < bucket - low ==> #[trigger] res@[k] == count_at(counts@, low + k),
        decreases high + 1 - bucket,
    {
        res.push(count_of(counts, bucket));
        bucket = bucket + 1;
    }
    res
}

/// The range of buckets that hold established players.
fn find_range(rows: &Vec<FloorRated>, cutoff: i64) -> (range: Option<(i64, i64)>)
    requires
        rated_wf(rows@),
    ensures
        match range {
            Some((low, high)) => curve_range(rows@, cutoff as int) == Some((low as int, high as int))
                && -5_000_000 <= low <= high <= 5_000_000,
            None => curve_range(rows@, cutoff as int) is None,
        },
{
    let mut range: Option<(i64, i64)> = None;
    let mut i: usize = 0;
    while i < rows.len()
        invariant
            rated_wf(rows@),
            i <= rows@.len(),
            match range {
                Some((low, high)) => curve_range(rows@.take(i as int), cutoff as int) == Some(
                    (low as int, high as int),
                ) && -5_000_000 <= low <= high <= 5_000_000,
                None => curve_range(rows@.take(i as int), cutoff as int) is None,
            },
        decreases rows@.len() - i,
    {
        let row = rows[i];
        proof {
            assert(rows@.take(i + 1).drop_last() == rows@.take(i as int));
            assert(rows@.take(i + 1).last() == row);
            assert(row.rating.wf());
        }
        if row.rating.deviation < cutoff {
            let bucket = bucket_of_rating(row.rating);
            range = match range {
                None => Some((bucket, bucket)),
                Some((low, high)) => Some(
                    (if bucket < low {
                        bucket
                    } else {
                        low
                    }, if bucket > high {
                        bucket
                    } else {
                        high
                    }),
                ),
            };
        }
        i = i + 1;
    }
    proof {
        assert(rows@.take(i as int) == rows@);
    }
    range
}

/// The distribution of ratings on each floor, over the players whose
/// deviation is below the cutoff, or nothing where there is no such
/// player. The chart has one entry for every bucket from the lowest that
/// holds a player to the highest, both included, which are returned with
/// it.
pub fn floor_rating_distribution(rows: &Vec<FloorRated>, cutoff: i64) -> (res: Option<
    (FloorRatingDistributions, i64, i64),
>)
    requires
        rated_wf(rows@),
        rows@.len() <= MAX_PLAYERS,
    ensures
        match res {
            Some((chart, low, high)) => curve_range(rows@, cutoff as int) == Some(
                (low as int, high as int),
            ) && chart.describes(rows@, cutoff as int, low as int, high as int),
            None => curve_range(rows@, cutoff as int) is None,
        },
{
    let (low, high) = match find_range(rows, cutoff) {
        Some(range) => range,
        None => {
            return None;
        },
    };
    let (all, _) = count_curve(rows, cutoff, None);
    let overall = read_curve(&all, low, high);
    let mut ratings: Vec<i64> = Vec::new();
    let mut bucket: i64 = low;
    while bucket <= high
        invariant
            -5_000_000 <= low <= bucket <= high + 1 <= 5_000_001,
            ratings@.len() == bucket - low,
            forall|k: int| 0 <= k < bucket - low ==> #[trigger] ratings@[k] == (low + k) * 50,
        decreases high + 1 - bucket,
    {
        ratings.push(bucket * 50);
        bucket = bucket + 1;
    }
    let mut floors: Vec<FloorCurve> = Vec::new();
    let mut line: usize = 0;
    while line < FLOOR_SLOTS
        invariant
            rated_wf(rows@),
            rows@.len() <= MAX_PLAYERS,
            -5_000_000 <= low <= high <= 5_000_000,
            line <= FLOOR_SLOTS,
            floors@.len() == lines_present(rows@, cutoff as int, line as int).len(),
            forall|f: int|
                0 <= f < floors@.len() ==> (#[trigger] floors@[f]).floor == floor_of_line(
                    lines_present(rows@, cutoff as int, line as int)[f],
                ) && floors@[f].counts@.len() == high - low + 1,
            forall|f: int, k: int|
                0 <= f < floors@.len() && 0 <= k <= high - low
                    ==> #[trigger] floors@[f].counts@[k] == curve_count(
                    rows@,
                    cutoff as int,
                    Some(
                        floor_slot(floor_of_line(lines_present(rows@, cutoff as int, line as int)[f])),
                    ),
                    low + k,
                ),
        decreases FLOOR_SLOTS - line,
    {
        let floor: i64 = if line < 10 {
            line as i64 + 1
        } else {
            TOP_FLOOR
        };
        let slot = slot_of(floor);
        let (counts, size) = count_curve(rows, cutoff, Some(slot));
        let ghost before = lines_present(rows@, cutoff as int, line as int);
        let ghost present = lines_present(rows@, cutoff as int, line + 1);
        if size > 0 {
            let curve = read_curve(&counts, low, high);
            floors.push(FloorCurve { floor, counts: curve });
            proof {
                assert(present == before.push(line as int));
                assert forall|f: int| 0 <= f < floors@.len() implies (#[trigger] floors@[f]).floor
                    == floor_of_line(present[f]) && floors@[f].counts@.len() == high - low + 1 by {
                    if f < before.len() {
                        assert(present[f] == before[f]);
                    }
                }
                assert forall|f: int, k: int|
                    0 <= f < floors@.len() && 0 <= k <= high
                        - low implies #[trigger] floors@[f].counts@[k] == curve_count(
                    rows@,
                    cutoff as int,
                    Some(floor_slot(floor_of_line(present[f]))),
                    low + k,
                ) by {
                    if f < before.len() {
                        assert(present[f] == before[f]);
                    }
                }
            }
        } else {
            proof {
                assert(present == before);
            }
        }
        line = line + 1;
    }
    Some((FloorRatingDistributions { ratings, floors, overall }, low, high))
}

/// The number of players of a floor, or of all floors, in the buckets
/// from `low` to `high`, both included.
pub open spec fn count_span(
    rows: Seq<FloorRated>,
    cutoff: int,
    slot: Option<int>,
    low: int,
    high: int,
) -> int
    decreases high - low + 1,
{
    if high < low {
        0
    } else {
        count_span(rows, cutoff, slot, low, high - 1) + curve_count(rows, cutoff, slot, high)
    }
}

/// The number of players in a bucket, summed over the first `slots`
/// floors.
pub open spec fn floors_sum(rows: Seq<FloorRated>, cutoff: int, bucket: int, slots: int) -> int
    decreases slots,
{
    if slots <= 0 {
        0
    } else {
        floors_sum(rows, cutoff, bucket, slots - 1) + curve_count(
            rows,
            cutoff,
            Some(slots - 1),
            bucket,
        )
    }
}

/// One more player adds one to a span of buckets exactly where the player
/// counts and falls into the span.
pub proof fn lemma_span_step(
    rows: Seq<FloorRated>,
    cutoff: int,
    slot: Option<int>,
    low: int,
    high: int,
)
    requires
        rows.len() > 0,
    ensures
        count_span(rows, cutoff, slot, low, high) == count_span(
            rows.drop_last(),
            cutoff,
            slot,
            low,
            high,
        ) + if on_curve(rows.last(), cutoff, slot) && low <= curve_bucket(rows.last().rating)
            <= high {
            1int
        } else {
            0int
        },
    decreases high - low + 1,
{
    if high >= low {
        lemma_span_step(rows, cutoff, slot, low, high - 1);
    }
}

/// One more player adds one to the sum over the floors exactly where the
/// player counts, falls into the bucket, and is of one of the floors.
pub proof fn lemma_floors_step(rows: Seq<FloorRated>, cutoff: int, bucket: int, slots: int)
    requires
        rows.len() > 0,
    ensures
        floors_sum(rows, cutoff, bucket, slots) == floors_sum(
            rows.drop_last(),
            cutoff,
            bucket,
            slots,
        ) + if on_curve(rows.last(), cutoff, None) && curve_bucket(rows.last().rating) == bucket
            && floor_slot(rows.last().floor as int) < slots {
            1int
        } else {
            0int
        },
    decreases slots,
{
    if slots > 0 {
        lemma_floors_step(rows, cutoff, bucket, slots - 1);
    }
}

/// Every established player falls into a bucket of the range.
pub proof fn lemma_range_covers(rows: Seq<FloorRated>, cutoff: int, i: int)
    requires
        0 <= i < rows.len(),
        on_curve(rows[i], cutoff, None),
    ensures
        curve_range(rows, cutoff) matches Some((low, high)) && low <= curve_bucket(rows[i].rating)
            <= high,
    decreases rows.len(),
{
    if i < rows.len() - 1 {
        assert(rows.drop_last()[i] == rows[i]);
        lemma_range_covers(rows.drop_last(), cutoff, i);
    }
}

/// The chart counts every player once. Over the buckets of a span that
/// holds every established player of a floor, or of all floors, the
/// counts add up to the number of those players. The span from the lowest
/// bucket of the range to the highest is such a span.
pub proof fn law_curve_counts_everyone(
    rows: Seq<FloorRated>,
    cutoff: int,
    slot: Option<int>,
    low: int,
    high: int,
)
    requires
        forall|i: int|
            0 <= i < rows.len() && on_curve(#[trigger] rows[i], cutoff, None) ==> low
                <= curve_bucket(rows[i].rating) <= high,
    ensures
        count_span(rows, cutoff, slot, low, high) == curve_size(rows, cutoff, slot),
    decreases rows.len(),
{
    if rows.len() == 0 {
        assert(rows =~= Seq::<FloorRated>::empty());
        lemma_span_empty(cutoff, slot, low, high);
    } else {
        let rest = rows.drop_last();
        assert(rows[rows.len() - 1] == rows.last());
        assert forall|i: int|
            0 <= i < rest.len() && on_curve(#[trigger] rest[i], cutoff, None) implies low
            <= curve_bucket(rest[i].rating) <= high by {
            assert(rest[i] == rows[i]);
        }
        law_curve_counts_everyone(rest, cutoff, slot, low, high);
        lemma_span_step(rows, cutoff, slot, low, high);
    }
}

/// No player, no count.
pub proof fn lemma_span_empty(cutoff: int, slot: Option<int>, low: int, high: int)
    ensures
        count_span(Seq::<FloorRated>::empty(), cutoff, slot, low, high) == 0,
        forall|bucket: int, slots: int|
            #[trigger] floors_sum(Seq::<FloorRated>::empty(), cutoff, bucket, slots) == 0,
    decreases high - low + 1,
{
    if high >= low {
        lemma_span_empty(cutoff, slot, low, high - 1);
    }
    assert forall|bucket: int, slots: int| #[trigger]
        floors_sum(Seq::<FloorRated>::empty(), cutoff, bucket, slots) == 0 by {
        lemma_floors_empty(cutoff, bucket, slots);
    }
}

/// No player, no count on any floor.
pub proof fn lemma_floors_empty(cutoff: int, bucket: int, slots: int)
    ensures
        floors_sum(Seq::<FloorRated>::empty(), cutoff, bucket, slots) == 0,
    decreases slots,
{
    if slots > 0 {
        lemma_floors_empty(cutoff, bucket, slots - 1);
    }
}

/// The floors add up to the whole: in every bucket, the counts of the
/// eleven floors sum to the count over all floors.
pub proof fn law_floors_add_up(rows: Seq<FloorRated>, cutoff: int, bucket: int)
    ensures
        floors_sum(rows, cutoff, bucket, FLOOR_SLOTS as int) == curve_count(
            rows,
            cutoff,
            None,
            bucket,
        ),
    decreases rows.len(),
{
    if rows.len() == 0 {
        assert(rows =~= Seq::<FloorRated>::empty());
        lemma_floors_empty(cutoff, bucket, FLOOR_SLOTS as int);
    } else {
        law_floors_add_up(rows.drop_last(), cutoff, bucket);
        lemma_floors_step(rows, cutoff, bucket, FLOOR_SLOTS as int);
    }
}

/// The chart of all floors counts every established player: over the
/// buckets of the range, the counts add up to the number of established
/// players.
pub proof fn law_chart_counts_everyone(rows: Seq<FloorRated>, cutoff: int, low: int, high: int)
    requires
        curve_range(rows, cutoff) == Some((low, high)),
    ensures
        count_span(rows, cutoff, None, low, high) == curve_size(rows, cutoff, None),
        low <= high,
{
    assert forall|i: int|
        0 <= i < rows.len() && on_curve(#[trigger] rows[i], cutoff, None) implies low
        <= curve_bucket(rows[i].rating) <= high by {
        lemma_range_covers(rows, cutoff, i);
    }
    law_curve_counts_everyone(rows, cutoff, None, low, high);
    lemma_range_ordered(rows, cutoff);
}

/// The lowest bucket of a range is not above the highest.
pub proof fn lemma_range_ordered(rows: Seq<FloorRated>, cutoff: int)
    ensures
        curve_range(rows, cutoff) matches Some((low, high)) ==> low <= high,
    decreases rows.len(),
{
    if rows.len() > 0 {
        lemma_range_ordered(rows.drop_last(), cutoff);
    }
}

} // verus!
