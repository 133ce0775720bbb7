//! Distributions over the table of ratings: how many established ratings
//! fall into each bracket of rating points, and how much each character is
//! played, overall and within each bracket.

use vstd::prelude::*;
use crate::fixed::{div_round, round_div, ONE};
use crate::glicko::{lemma_display_bounds, to_display};
use crate::matchups::MAX_CHARACTERS;
use crate::records::PlayerRating;

verus! {

/// The largest number of brackets.
pub const MAX_BRACKETS: usize = 1024;

/// The largest number of rows that a distribution is built from.
pub const MAX_TABLE: usize = 0x3FFF_FFFF;

/// The brackets of the display scale: `count` brackets of `width` rating
/// points, the first of which ends at `base + width`. The first bracket
/// also takes every rating below it, the last every rating above it.
#[derive(Clone, Copy, Debug, PartialEq, Eq, Structural)]
pub struct Brackets {
    pub base: i64,
    pub width: i64,
    pub count: usize,
}

impl Brackets {
    /// Whether there is at least one bracket, of a positive width, and the
    /// numbers are of a size that rating points have.
    pub open spec fn wf(self) -> bool {
        &&& 0 < self.count <= MAX_BRACKETS
        &&& 0 < self.width <= 1_000_000
        &&& -1_000_000 <= self.base <= 1_000_000
    }

    /// The bracket of a display value in millionths.
    pub open spec fn of(self, shown: int) -> int {
        let raw = (shown - self.base * ONE) / (self.width * ONE);
        if raw < 0 {
            0
        } else if raw >= self.count {
            self.count - 1
        } else {
            raw
        }
    }

    /// The bracket of a row's rating.
    pub open spec fn of_row(self, row: PlayerRating) -> int {
        self.of(to_display(row.rating.value as int))
    }

    /// Computes [`Brackets::of_row`].
    pub fn bracket(&self, row: &PlayerRating) -> (index: usize)
        requires
            self.wf(),
            row.wf(),
        ensures
            index == self.of_row(*row),
            index < self.count,
    {
        let shown = row.rating.display_value();
        proof {
            lemma_display_bounds(row.rating.value as int);
        }
        let offset: i128 = shown as i128 - (self.base as i128) * 1_000_000;
        let step: i128 = (self.width as i128) * 1_000_000;
        if offset < 0 {
            proof {
                assert((offset as int) / (step as int) < 0) by (nonlinear_arith)
                    requires
                        offset < 0,
                        step > 0,
                ;
            }
            0
        } else {
            let raw: i128 = offset / step;
            if raw >= self.count as i128 {
                self.count - 1
            } else {
                raw as usize
            }
        }
    }

    /// The lower edge of a bracket in rating points.
    pub open spec fn lower_edge(self, index: int) -> int {
        self.base + index * self.width
    }

    /// Computes [`Brackets::lower_edge`].
    pub fn lower(&self, index: usize) -> (edge: i64)
        requires
            self.wf(),
            index <= self.count,
        ensures
            edge == self.lower_edge(index as int),
    {
        assert(0 <= index * self.width <= 1024 * 1_000_000) by (nonlinear_arith)
            requires
                0 <= index <= 1024,
                0 < self.width <= 1_000_000,
        ;
        self.base + (index as i64) * self.width
    }
}

/// Whether a row's rating is established: its deviation is below the
/// cutoff.
pub open spec fn established(row: PlayerRating, cutoff: int) -> bool {
    row.rating.deviation < cutoff
}

/// The number of established rows in a bracket.
pub open spec fn population(table: Seq<PlayerRating>, brackets: Brackets, cutoff: int, index: int)
    -> int
    decreases table.len(),
{
    if table.len() == 0 {
        0
    } else {
        population(table.drop_last(), brackets, cutoff, index) + if established(
            table.last(),
            cutoff,
        ) && brackets.of_row(table.last()) == index {
            1int
        } else {
            0int
        }
    }
}

/// The number of established rows in a bracket and in all brackets
/// below it.
pub open spec fn population_up_to(
    table: Seq<PlayerRating>,
    brackets: Brackets,
    cutoff: int,
    index: int,
) -> int
    decreases table.len(),
{
    if table.len() == 0 {
        0
    } else {
        population_up_to(table.drop_last(), brackets, cutoff, index) + if established(
            table.last(),
            cutoff,
        ) && brackets.of_row(table.last()) <= index {
            1int
        } else {
            0int
        }
    }
}

/// The cumulative population of a bracket is that of the bracket below
/// plus its own; no population exceeds the table.
pub proof fn lemma_population_steps(
    table: Seq<PlayerRating>,
    brackets: Brackets,
    cutoff: int,
    index: int,
)
    ensures
        population_up_to(table, brackets, cutoff, index) == population_up_to(
            table,
            brackets,
            cutoff,
            index - 1,
        ) + population(table, brackets, cutoff, index),
        0 <= population(table, brackets, cutoff, index) <= table.len(),
        0 <= population_up_to(table, brackets, cutoff, index) <= table.len(),
    decreases table.len(),
{
    if table.len() > 0 {
        lemma_population_steps(table.drop_last(), brackets, cutoff, index);
    }
}

/// No established row lies below the first bracket.
pub proof fn lemma_population_below(table: Seq<PlayerRating>, brackets: Brackets, cutoff: int)
    requires
        brackets.wf(),
    ensures
        population_up_to(table, brackets, cutoff, -1) == 0,
    decreases table.len(),
{
    if table.len() > 0 {
        lemma_population_below(table.drop_last(), brackets, cutoff);
    }
}

/// One bracket of the distribution of ratings: its edges in rating
/// points, the number of established ratings in it, and the number in it
/// and below.
#[derive(Clone, Copy, Debug, PartialEq, Eq, Structural)]
pub struct RatingBracket {
    pub min_rating: i64,
    pub max_rating: i64,
    pub player_count: u64,
    pub player_count_cum: u64,
}

/// The distribution of the established ratings over the brackets.
pub fn rating_distribution(table: &Vec<PlayerRating>, brackets: Brackets, cutoff: i64) -> (rows:
    Vec<RatingBracket>)
    requires
        brackets.wf(),
        forall|i: int| 0 <= i < table@.len() ==> (#[trigger] table@[i]).wf(),
    ensures
        rows@.len() == brackets.count,
        forall|r: int|
            0 <= r < brackets.count ==> (#[trigger] rows@[r]) == (RatingBracket {
                min_rating: brackets.lower_edge(r) as i64,
                max_rating: brackets.lower_edge(r + 1) as i64,
                player_count: population(table@, brackets, cutoff as int, r) as u64,
                player_count_cum: population_up_to(table@, brackets, cutoff as int, r) as u64,
            }),
{
    let mut counts: Vec<u64> = Vec::new();
    while counts.len() < brackets.count
        invariant
            counts@.len() <= brackets.count,
            forall|r: int| 0 <= r < counts@.len() ==> counts@[r] == 0,
        decreases brackets.count - counts@.len(),
    {
        counts.push(0);
    }
    let mut i: usize = 0;
    while i < table.len()
        invariant
            brackets.wf(),
            forall|k: int| 0 <= k < table@.len() ==> (#[trigger] table@[k]).wf(),
            i <= table@.len(),
            counts@.len() == brackets.count,
            forall|r: int|
                0 <= r < brackets.count ==> #[trigger] counts@[r] == population(
                    table@.take(i as int),
                    brackets,
                    cutoff as int,
                    r,
                ),
        decreases table@.len() - i,
    {
        let row = table[i];
        let ghost before = counts@;
        proof {
            assert(table@.take(i + 1).drop_last() == table@.take(i as int));
            assert(table@.take(i + 1).last() == row);
            assert(row.wf());
        }
        if row.rating.deviation < cutoff {
            let index = brackets.bracket(&row);
            proof {
                lemma_population_steps(table@.take(i as int), brackets, cutoff as int, index as int);
            }
            let held = counts[index];
            counts.set(index, held + 1);
        }
        proof {
            assert forall|r: int| 0 <= r < brackets.count implies #[trigger] counts@[r]
                == population(table@.take(i + 1), brackets, cutoff as int, r) by {
                assert(before[r] == population(table@.take(i as int), brackets, cutoff as int, r));
            }
        }
        i = i + 1;
    }
    proof {
        assert(table@.take(i as int) == table@);
        lemma_population_below(table@, brackets, cutoff as int);
    }
    let mut rows: Vec<RatingBracket> = Vec::new();
    let mut running: u64 = 0;
    let mut r: usize = 0;
    while r < brackets.count
        invariant
            brackets.wf(),
            r <= brackets.count,
            counts@.len() == brackets.count,
            forall|k: int|
                0 <= k < brackets.count ==> #[trigger] counts@[k] == population(
                    table@,
                    brackets,
                    cutoff as int,
                    k,
                ),
            running == population_up_to(table@, brackets, cutoff as int, r - 1),
            table@.len() <= usize::MAX,
            rows@.len() == r,
            forall|k: int|
                0 <= k < r ==> (#[trigger] rows@[k]) == (RatingBracket {
                    min_rating: brackets.lower_edge(k) as i64,
                    max_rating: brackets.lower_edge(k + 1) as i64,
                    player_count: population(table@, brackets, cutoff as int, k) as u64,
                    player_count_cum: population_up_to(table@, brackets, cutoff as int, k) as u64,
                }),
        decreases brackets.count - r,
    {
        proof {
            lemma_population_steps(table@, brackets, cutoff as int, r as int);
            assert(counts@[r as int] == population(table@, brackets, cutoff as int, r as int));
        }
        running = running + counts[r];
        rows.push(
            RatingBracket {
                min_rating: brackets.lower(r),
                max_rating: brackets.lower(r + 1),
                player_count: counts[r],
                player_count_cum: running,
            },
        );
        r = r + 1;
    }
    rows
}

/// The games that the rows of one character count, among the rows of one
/// bracket or, where no bracket is given, among all rows.
pub open spec fn games_played(
    table: Seq<PlayerRating>,
    brackets: Brackets,
    character: int,
    bracket: Option<int>,
) -> int
    decreases table.len(),
{
    if table.len() == 0 {
        0
    } else {
        let row = table.last();
        games_played(table.drop_last(), brackets, character, bracket) + if row.char_id == character
            && (bracket matches Some(index) ==> brackets.of_row(row) == index) {
            row.games()
        } else {
            0int
        }
    }
}

/// The games that all rows count, among the rows of one bracket or among
/// all rows.
pub open spec fn games_total(table: Seq<PlayerRating>, brackets: Brackets, bracket: Option<int>)
    -> int
    decreases table.len(),
{
    if table.len() == 0 {
        0
    } else {
        let row = table.last();
        games_total(table.drop_last(), brackets, bracket) + if bracket matches Some(index)
            ==> brackets.of_row(row) == index {
            row.games()
        } else {
            0int
        }
    }
}

/// The games of a character are part of the total, and the total is at
/// most what the rows can count.
pub proof fn lemma_games_bounds(
    table: Seq<PlayerRating>,
    brackets: Brackets,
    character: int,
    bracket: Option<int>,
)
    requires
        forall|i: int| 0 <= i < table.len() ==> (#[trigger] table[i]).wf(),
    ensures
        0 <= games_played(table, brackets, character, bracket) <= games_total(
            table,
            brackets,
            bracket,
        ) <= table.len() * 0x7FFF_FFFF_FFFF_FFFE,
    decreases table.len(),
{
    if table.len() > 0 {
        let rest = table.drop_last();
        assert forall|i: int| 0 <= i < rest.len() implies (#[trigger] rest[i]).wf() by {
            assert(rest[i] == table[i]);
        }
        lemma_games_bounds(rest, brackets, character, bracket);
        assert(table.last().wf());
    }
}

/// The share of the games that a character has, in millionths, or nothing
/// where no game was played.
pub open spec fn popularity(
    table: Seq<PlayerRating>,
    brackets: Brackets,
    character: int,
    bracket: Option<int>,
) -> Option<i64> {
    let total = games_total(table, brackets, bracket);
    if total <= 0 {
        None
    } else {
        Some(round_div(games_played(table, brackets, character, bracket) * ONE, total) as i64)
    }
}

/// How much each character is played: for each of `size` characters the
/// share of all games that its rows count, overall where `bracket` is
/// `None`, else among the rows of that bracket.
pub fn character_shares(
    table: &Vec<PlayerRating>,
    brackets: Brackets,
    size: usize,
    bracket: Option<usize>,
) -> (shares: Vec<Option<i64>>)
    requires
        brackets.wf(),
        size <= MAX_CHARACTERS,
        table@.len() <= MAX_TABLE,
        forall|i: int| 0 <= i < table@.len() ==> (#[trigger] table@[i]).wf(),
    ensures
        shares@.len() == size,
        forall|c: int|
            0 <= c < size ==> #[trigger] shares@[c] == popularity(
                table@,
                brackets,
                c,
                match bracket {
                    Some(index) => Some(index as int),
                    None => None,
                },
            ),
        forall|c: int|
            0 <= c < size ==> (#[trigger] shares@[c] matches Some(part) ==> 0 <= part <= ONE),
{
    let ghost wanted: Option<int> = match bracket {
        Some(index) => Some(index as int),
        None => None,
    };
    let mut played: Vec<u128> = Vec::new();
    while played.len() < size
        invariant
            played@.len() <= size,
            forall|c: int| 0 <= c < played@.len() ==> played@[c] == 0,
        decreases size - played@.len(),
    {
        played.push(0);
    }
    let mut total: u128 = 0;
    let mut i: usize = 0;
    while i < table.len()
        invariant
            brackets.wf(),
            table@.len() <= MAX_TABLE,
            forall|k: int| 0 <= k < table@.len() ==> (#[trigger] table@[k]).wf(),
            wanted == match bracket {
                Some(index) => Some(index as int),
                None => None,
            },
            i <= table@.len(),
            played@.len() == size,
            total == games_total(table@.take(i as int), brackets, wanted),
            forall|c: int|
                0 <= c < size ==> #[trigger] played@[c] == games_played(
                    table@.take(i as int),
                    brackets,
                    c,
                    wanted,
                ),
        decreases table@.len() - i,
    {
        let row = table[i];
        let ghost before = played@;
        let ghost seen = table@.take(i as int);
        proof {
            assert(table@.take(i + 1).drop_last() == seen);
            assert(table@.take(i + 1).last() == row);
            assert(row.wf());
            assert forall|k: int| 0 <= k < seen.len() implies (#[trigger] seen[k]).wf() by {
                assert(seen[k] == table@[k]);
            }
            lemma_games_bounds(seen, brackets, row.char_id as int, wanted);
        }
        let counted = match bracket {
            Some(index) => brackets.bracket(&row) == index,
            None => true,
        };
        if counted {
            let games = row.game_count() as u128;
            total = total + games;
            if 0 <= row.char_id && (row.char_id as u64) < size as u64 {
                let c = row.char_id as usize;
                let held = played[c];
                played.set(c, held + games);
            }
        }
        proof {
            assert forall|c: int| 0 <= c < size implies #[trigger] played@[c] == games_played(
                table@.take(i + 1),
                brackets,
                c,
                wanted,
            ) by {
                assert(before[c] == games_played(seen, brackets, c, wanted));
            }
        }
        i = i + 1;
    }
    proof {
        assert(table@.take(i as int) == table@);
    }
    let mut shares: Vec<Option<i64>> = Vec::new();
    let mut c: usize = 0;
    while c < size
        invariant
            table@.len() <= MAX_TABLE,
            forall|k: int| 0 <= k < table@.len() ==> (#[trigger] table@[k]).wf(),
            c <= size,
            played@.len() == size,
            total == games_total(table@, brackets, wanted),
            forall|k: int|
                0 <= k < size ==> #[trigger] played@[k] == games_played(
                    table@,
                    brackets,
                    k,
                    wanted,
                ),
            shares@.len() == c,
            forall|k: int|
                0 <= k < c ==> #[trigger] shares@[k] == popularity(table@, brackets, k, wanted),
            forall|k: int|
                0 <= k < c ==> (#[trigger] shares@[k] matches Some(part) ==> 0 <= part <= ONE),
        decreases size - c,
    {
        proof {
            lemma_games_bounds(table@, brackets, c as int, wanted);
        }
        let part = if total == 0 {
            None
        } else {
            let games = played[c];
            assert(0 <= games * 1_000_000 <= total * 1_000_000 <= 0x3FFF_FFFF
                * 0x7FFF_FFFF_FFFF_FFFE * 1_000_000) by (nonlinear_arith)
                requires
                    0 <= games <= total <= 0x3FFF_FFFF * 0x7FFF_FFFF_FFFF_FFFE,
            ;
            let wide: i128 = (games as i128) * 1_000_000;
            proof {
                crate::fixed::lemma_round_div_error(wide as int, total as int);
                let q = round_div(wide as int, total as int);
                assert(0 <= q <= 1_000_000) by (nonlinear_arith)
                    requires
                        -total <= 2 * (q * total - wide) <= total,
                        0 <= wide <= total * 1_000_000,
                        total > 0,
                ;
            }
            Some(div_round(wide, total as i128) as i64)
        };
        shares.push(part);
        c = c + 1;
    }
    shares
}

} // verus!
