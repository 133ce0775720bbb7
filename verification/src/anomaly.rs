//! The anomaly index: for each character, how far the players who play it
//! are rated above their own other characters.

use vstd::prelude::*;
use crate::distribution::{established, MAX_TABLE};
use crate::fixed::{div_round, lemma_round_div_error, lemma_round_div_mean, round_div};
use crate::glicko::{DISPLAY_SCALE, DISPLAY_UNIT, VALUE_LIMIT};
use crate::matchups::MAX_CHARACTERS;
use crate::records::PlayerRating;

verus! {

/// Whether `row` is another established rating of the player of `of`.
pub open spec fn is_other(row: PlayerRating, of: PlayerRating, cutoff: int) -> bool {
    row.id == of.id && row.char_id != of.char_id && established(row, cutoff)
}

/// The sum of the values of a player's other established ratings.
pub open spec fn others_sum(table: Seq<PlayerRating>, of: PlayerRating, cutoff: int) -> int
    decreases table.len(),
{
    if table.len() == 0 {
        0
    } else {
        others_sum(table.drop_last(), of, cutoff) + if is_other(table.last(), of, cutoff) {
            table.last().rating.value as int
        } else {
            0int
        }
    }
}

/// The number of a player's other established ratings.
pub open spec fn others_count(table: Seq<PlayerRating>, of: PlayerRating, cutoff: int) -> int
    decreases table.len(),
{
    if table.len() == 0 {
        0
    } else {
        others_count(table.drop_last(), of, cutoff) + if is_other(table.last(), of, cutoff) {
            1int
        } else {
            0int
        }
    }
}

/// How far a rating lies above the mean of the player's other established
/// ratings, in millionths on the internal scale. Meant for a player who
/// has other established ratings.
pub open spec fn offset_of(table: Seq<PlayerRating>, row: PlayerRating, cutoff: int) -> int {
    row.rating.value - round_div(others_sum(table, row, cutoff), others_count(table, row, cutoff))
}

/// Whether a row counts for the index of a character: it is an
/// established rating of that character, of a value of at least
/// `min_value`, and its player has other established ratings.
pub open spec fn counts_for(
    table: Seq<PlayerRating>,
    row: PlayerRating,
    character: int,
    min_value: int,
    cutoff: int,
) -> bool {
    &&& row.char_id == character
    &&& established(row, cutoff)
    &&& row.rating.value >= min_value
    &&& others_count(table, row, cutoff) > 0
}

/// The sum of the offsets of the rows of `part` that count.
pub open spec fn offsets_sum(
    part: Seq<PlayerRating>,
    table: Seq<PlayerRating>,
    character: int,
    min_value: int,
    cutoff: int,
) -> int
    decreases part.len(),
{
    if part.len() == 0 {
        0
    } else {
        offsets_sum(part.drop_last(), table, character, min_value, cutoff) + if counts_for(
            table,
            part.last(),
            character,
            min_value,
            cutoff,
        ) {
            offset_of(table, part.last(), cutoff)
        } else {
            0int
        }
    }
}

/// The number of the rows of `part` that count.
pub open spec fn offsets_count(
    part: Seq<PlayerRating>,
    table: Seq<PlayerRating>,
    character: int,
    min_value: int,
    cutoff: int,
) -> int
    decreases part.len(),
{
    if part.len() == 0 {
        0
    } else {
        offsets_count(part.drop_last(), table, character, min_value, cutoff) + if counts_for(
            table,
            part.last(),
            character,
            min_value,
            cutoff,
        ) {
            1int
        } else {
            0int
        }
    }
}

/// The mean offset of a character in millionths of a rating point of the
/// display scale, or nothing where no row counts.
pub open spec fn mean_offset(
    table: Seq<PlayerRating>,
    character: int,
    min_value: int,
    cutoff: int,
) -> Option<i64> {
    let count = offsets_count(table, table, character, min_value, cutoff);
    if count <= 0 {
        None
    } else {
        Some(
            round_div(
                round_div(offsets_sum(table, table, character, min_value, cutoff), count)
                    * DISPLAY_SCALE,
                DISPLAY_UNIT as int,
            ) as i64,
        )
    }
}

/// One line of the anomaly index.
#[derive(Clone, Copy, Debug, PartialEq, Eq)]
pub struct FraudEntry {
    pub char_id: i64,
    pub player_count: u64,
    pub average_delta: Option<i64>,
}

/// The sums over a player's other ratings are bounded by their number.
pub proof fn lemma_others_bounds(table: Seq<PlayerRating>, of: PlayerRating, cutoff: int)
    requires
        forall|i: int| 0 <= i < table.len() ==> (#[trigger] table[i]).wf(),
    ensures
        0 <= others_count(table, of, cutoff) <= table.len(),
        -(others_count(table, of, cutoff) * VALUE_LIMIT) <= others_sum(table, of, cutoff)
            <= others_count(table, of, cutoff) * VALUE_LIMIT,
    decreases table.len(),
{
    if table.len() > 0 {
        let rest = table.drop_last();
        assert forall|i: int| 0 <= i < rest.len() implies (#[trigger] rest[i]).wf() by {
            assert(rest[i] == table[i]);
        }
        lemma_others_bounds(rest, of, cutoff);
        assert(table.last().wf());
        let n = others_count(rest, of, cutoff);
        assert((n + 1) * VALUE_LIMIT == n * VALUE_LIMIT + VALUE_LIMIT) by (nonlinear_arith);
    }
}

/// An offset is at most two value limits in magnitude.
pub proof fn lemma_offset_bounds(table: Seq<PlayerRating>, row: PlayerRating, cutoff: int)
    requires
        forall|i: int| 0 <= i < table.len() ==> (#[trigger] table[i]).wf(),
        row.wf(),
        others_count(table, row, cutoff) > 0,
    ensures
        -2 * VALUE_LIMIT <= offset_of(table, row, cutoff) <= 2 * VALUE_LIMIT,
{
    lemma_others_bounds(table, row, cutoff);
    lemma_round_div_mean(
        others_sum(table, row, cutoff),
        others_count(table, row, cutoff),
        VALUE_LIMIT as int,
    );
}

/// The sum of the offsets is bounded by their number.
pub proof fn lemma_offsets_bounds(
    part: Seq<PlayerRating>,
    table: Seq<PlayerRating>,
    character: int,
    min_value: int,
    cutoff: int,
)
    requires
        forall|i: int| 0 <= i < table.len() ==> (#[trigger] table[i]).wf(),
        forall|i: int| 0 <= i < part.len() ==> (#[trigger] part[i]).wf(),
    ensures
        0 <= offsets_count(part, table, character, min_value, cutoff) <= part.len(),
        -(offsets_count(part, table, character, min_value, cutoff) * (2 * VALUE_LIMIT))
            <= offsets_sum(part, table, character, min_value, cutoff) <= offsets_count(
            part,
            table,
            character,
            min_value,
            cutoff,
        ) * (2 * VALUE_LIMIT),
    decreases part.len(),
{
    if part.len() > 0 {
        let rest = part.drop_last();
        assert forall|i: int| 0 <= i < rest.len() implies (#[trigger] rest[i]).wf() by {
            assert(rest[i] == part[i]);
        }
        lemma_offsets_bounds(rest, table, character, min_value, cutoff);
        assert(part.last().wf());
        if counts_for(table, part.last(), character, min_value, cutoff) {
            lemma_offset_bounds(table, part.last(), cutoff);
        }
        let n = offsets_count(rest, table, character, min_value, cutoff);
        assert((n + 1) * (2 * VALUE_LIMIT) == n * (2 * VALUE_LIMIT) + 2 * VALUE_LIMIT)
            by (nonlinear_arith);
    }
}

/// The offset of a row against the player's other established ratings, if
/// the player has any.
pub fn offset(table: &Vec<PlayerRating>, row: &PlayerRating, cutoff: i64) -> (res: Option<i64>)
    requires
        forall|i: int| 0 <= i < table@.len() ==> (#[trigger] table@[i]).wf(),
        table@.len() <= MAX_TABLE,
        row.wf(),
    ensures
        res is Some <==> others_count(table@, *row, cutoff as int) > 0,
        res matches Some(delta) ==> delta == offset_of(table@, *row, cutoff as int),
{
    let mut sum: i128 = 0;
    let mut count: i128 = 0;
    let mut i: usize = 0;
    while i < table.len()
        invariant
            forall|k: int| 0 <= k < table@.len() ==> (#[trigger] table@[k]).wf(),
            table@.len() <= MAX_TABLE,
            i <= table@.len(),
            sum == others_sum(table@.take(i as int), *row, cutoff as int),
            count == others_count(table@.take(i as int), *row, cutoff as int),
            0 <= count <= i,
            -(i * 1_000_000_000_000) <= sum <= i * 1_000_000_000_000,
        decreases table@.len() - i,
    {
        let other = table[i];
        proof {
            assert(table@.take(i + 1).drop_last() == table@.take(i as int));
            assert(table@.take(i + 1).last() == other);
            assert(other.wf());
        }
        if other.id == row.id && other.char_id != row.char_id && other.rating.deviation < cutoff {
            sum = sum + other.rating.value as i128;
            count = count + 1;
        }
        i = i + 1;
    }
    proof {
        assert(table@.take(i as int) == table@);
    }
    if count == 0 {
        None
    } else {
        proof {
            lemma_offset_bounds(table@, *row, cutoff as int);
        }
        let mean = div_round(sum, count);
        Some((row.rating.value as i128 - mean) as i64)
    }
}

/// The line of the anomaly index for one character: the number of
/// established ratings of that character, of a value of at least
/// `min_value`, whose players have other established ratings, and the mean
/// of how far they lie above those.
pub fn fraud_entry(table: &Vec<PlayerRating>, character: i64, min_value: i64, cutoff: i64) -> (entry:
    FraudEntry)
    requires
        forall|i: int| 0 <= i < table@.len() ==> (#[trigger] table@[i]).wf(),
        table@.len() <= MAX_TABLE,
    ensures
        entry.char_id == character,
        entry.player_count == offsets_count(
            table@,
            table@,
            character as int,
            min_value as int,
            cutoff as int,
        ),
        entry.average_delta == mean_offset(
            table@,
            character as int,
            min_value as int,
            cutoff as int,
        ),
{
    let mut sum: i128 = 0;
    let mut count: u64 = 0;
    let mut i: usize = 0;
    while i < table.len()
        invariant
            forall|k: int| 0 <= k < table@.len() ==> (#[trigger] table@[k]).wf(),
            table@.len() <= MAX_TABLE,
            i <= table@.len(),
            sum == offsets_sum(
                table@.take(i as int),
                table@,
                character as int,
                min_value as int,
                cutoff as int,
            ),
            count == offsets_count(
                table@.take(i as int),
                table@,
                character as int,
                min_value as int,
                cutoff as int,
            ),
            0 <= count <= i,
            -(i * 2_000_000_000_000) <= sum <= i * 2_000_000_000_000,
        decreases table@.len() - i,
    {
        let row = table[i];
        proof {
            assert(table@.take(i + 1).drop_last() == table@.take(i as int));
            assert(table@.take(i + 1).last() == row);
            assert(row.wf());
        }
        if row.char_id == character && row.rating.deviation < cutoff && row.rating.value
            >= min_value {
            match offset(table, &row, cutoff) {
                Some(delta) => {
                    proof {
                        lemma_offset_bounds(table@, row, cutoff as int);
                    }
                    sum = sum + delta as i128;
                    count = count + 1;
                },
                None => {},
            }
        }
        i = i + 1;
    }
    proof {
        assert(table@.take(i as int) == table@);
        lemma_offsets_bounds(table@, table@, character as int, min_value as int, cutoff as int);
    }
    let average_delta = if count == 0 {
        None
    } else {
        proof {
            lemma_round_div_mean(sum as int, count as int, 2 * VALUE_LIMIT);
        }
        let mean = div_round(sum, count as i128);
        let wide: i128 = mean * 1_737_178;
        proof {
            lemma_round_div_error(wide as int, DISPLAY_UNIT as int);
        }
        Some(div_round(wide, DISPLAY_UNIT as i128) as i64)
    };
    FraudEntry { char_id: character, player_count: count, average_delta }
}

/// The anomaly index of a table for `size` characters, one line for each
/// character in the order of the identifiers.
pub fn fraud_index(table: &Vec<PlayerRating>, size: usize, min_value: i64, cutoff: i64) -> (lines:
    Vec<FraudEntry>)
    requires
        forall|i: int| 0 <= i < table@.len() ==> (#[trigger] table@[i]).wf(),
        table@.len() <= MAX_TABLE,
        size <= MAX_CHARACTERS,
    ensures
        lines@.len() == size,
        forall|c: int|
            0 <= c < size ==> (#[trigger] lines@[c]) == (FraudEntry {
                char_id: c as i64,
                player_count: offsets_count(table@, table@, c, min_value as int, cutoff as int)
                    as u64,
                average_delta: mean_offset(table@, c, min_value as int, cutoff as int),
            }),
{
    let mut lines: Vec<FraudEntry> = Vec::new();
    let mut c: usize = 0;
    while c < size
        invariant
            forall|k: int| 0 <= k < table@.len() ==> (#[trigger] table@[k]).wf(),
            table@.len() <= MAX_TABLE,
            size <= MAX_CHARACTERS,
            c <= size,
            lines@.len() == c,
            forall|k: int|
                0 <= k < c ==> (#[trigger] lines@[k]) == (FraudEntry {
                    char_id: k as i64,
                    player_count: offsets_count(table@, table@, k, min_value as int, cutoff as int)
                        as u64,
                    average_delta: mean_offset(table@, k, min_value as int, cutoff as int),
                }),
        decreases size - c,
    {
        lines.push(fraud_entry(table, c as i64, min_value, cutoff));
        c = c + 1;
    }
    lines
}

} // verus!
