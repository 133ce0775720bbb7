//! The derived tables of one run, each rebuilt in full from the ratings and
//! the history of snapshots.

use vstd::prelude::*;
use crate::anomaly::{fraud_index, mean_offset, offsets_count, FraudEntry};
use crate::distribution::{
    character_shares, population, population_up_to, popularity, rating_distribution, Brackets,
    RatingBracket, MAX_TABLE,
};
use crate::floors::{
    floor_distribution, floor_games, floor_of_line, floor_players, floor_slot, FloorCount,
    FLOOR_SLOTS,
};
use crate::intake::Strictness;
use crate::matchups::{
    lemma_slot, player_tally_of, slot, tally_matchups, tally_player, versus, versus_games,
    versus_pairs, versus_wins, MatchupCounts, MatchupTable, VersusCounts, MAX_CHARACTERS,
    MAX_HISTORY,
};
use crate::ranking::{rank, ranking};
use crate::records::{snapshots_wf, PlayerRating, RatingSnapshot};

verus! {

/// What the engine is configured with from outside.
#[derive(Clone, Copy, Debug, PartialEq, Eq, Structural)]
pub struct Config {
    /// The seconds between two runs.
    pub rating_period: i64,
    /// The deviation from which on a rating counts as not yet established.
    pub low_deviation: i64,
    /// The games below which a matchup is flagged as thinly supported.
    pub min_games: u64,
    /// The pairs of players below which a matchup between characters is
    /// flagged as thinly supported.
    pub min_pairs: u64,
    /// The brackets of the distributions.
    pub brackets: Brackets,
    /// The number of characters of the game.
    pub characters: usize,
    /// The least value of a rating for the high-rated matchup table and
    /// for the second variant of the anomaly index.
    pub high_value: i64,
    /// The least value of a rating for the third variant of the anomaly
    /// index.
    pub highest_value: i64,
    /// What a run does with records that cannot be rated.
    pub strictness: Strictness,
}

impl Config {
    /// Whether the configuration is one that the engine can run with.
    pub open spec fn wf(self) -> bool {
        &&& self.rating_period > 0
        &&& self.low_deviation > 0
        &&& self.brackets.wf()
        &&& self.characters <= MAX_CHARACTERS
    }

    /// Computes [`Config::wf`].
    pub fn is_valid(&self) -> (res: bool)
        ensures
            res == self.wf(),
    {
        self.rating_period > 0 && self.low_deviation > 0 && 0 < self.brackets.count
            && self.brackets.count <= crate::distribution::MAX_BRACKETS && 0 < self.brackets.width
            && self.brackets.width <= 1_000_000 && -1_000_000 <= self.brackets.base
            && self.brackets.base <= 1_000_000 && self.characters <= MAX_CHARACTERS
    }
}

/// The derived tables.
#[derive(Debug)]
pub struct Aggregates {
    pub ranking_global: Vec<PlayerRating>,
    pub ranking_character: Vec<Vec<PlayerRating>>,
    pub matchups_player: Vec<Vec<MatchupCounts>>,
    pub matchups_global: MatchupTable,
    pub matchups_high_rated: MatchupTable,
    pub versus: Vec<VersusCounts>,
    pub rating_distribution: Vec<RatingBracket>,
    pub floor_distribution: Vec<FloorCount>,
    pub popularity_global: Vec<Option<i64>>,
    pub popularity_rating: Vec<Vec<Option<i64>>>,
    pub fraud_index: Vec<FraudEntry>,
    pub fraud_index_higher_rated: Vec<FraudEntry>,
    pub fraud_index_highest_rated: Vec<FraudEntry>,
}

/// The line of the anomaly index that a table gives a character.
pub open spec fn fraud_line(table: Seq<PlayerRating>, c: int, min_value: int, cutoff: int)
    -> FraudEntry {
    FraudEntry {
        char_id: c as i64,
        player_count: offsets_count(table, table, c, min_value, cutoff) as u64,
        average_delta: mean_offset(table, c, min_value, cutoff),
    }
}

/// The meetings of two characters that a history holds.
pub open spec fn versus_of(snapshots: Seq<RatingSnapshot>, a: int, b: int, cutoff: int)
    -> VersusCounts {
    VersusCounts {
        wins: versus_wins(snapshots, a, b, cutoff) as u64,
        games: versus_games(snapshots, a, b, cutoff) as u64,
        pairs: versus_pairs(snapshots, a, b, cutoff).len() as u64,
    }
}

impl Aggregates {
    /// Whether these are the derived tables of the given ratings and
    /// history under the given configuration. Every table is fixed by
    /// this, entry by entry.
    pub open spec fn describes(
        self,
        table: Seq<PlayerRating>,
        snapshots: Seq<RatingSnapshot>,
        config: Config,
    ) -> bool {
        let size = config.characters as int;
        let cutoff = config.low_deviation as int;
        &&& self.ranking_global@ == ranking(table, cutoff, None)
        &&& self.ranking_character@.len() == size
        &&& forall|c: int|
            0 <= c < size ==> (#[trigger] self.ranking_character@[c])@ == ranking(
                table,
                cutoff,
                Some(c as i64),
            )
        &&& self.matchups_player@.len() == table.len()
        &&& forall|i: int|
            0 <= i < table.len() ==> (#[trigger] self.matchups_player@[i])@.len() == size
        &&& forall|i: int, o: int|
            0 <= i < table.len() && 0 <= o < size ==> (#[trigger] self.matchups_player@[i]@[o])@
                == player_tally_of(snapshots, table[i].id as int, table[i].char_id as int, o, cutoff)
        &&& self.matchups_global.size == size
        &&& self.matchups_global.tallies(snapshots, i64::MIN as int, cutoff)
        &&& self.matchups_high_rated.size == size
        &&& self.matchups_high_rated.tallies(snapshots, config.high_value as int, cutoff)
        &&& self.versus@.len() == size * size
        &&& forall|a: int, b: int|
            0 <= a < size && 0 <= b < size ==> #[trigger] self.versus@[slot(a, b, size)]
                == versus_of(snapshots, a, b, cutoff)
        &&& self.rating_distribution@.len() == config.brackets.count
        &&& forall|r: int|
            0 <= r < config.brackets.count ==> (#[trigger] self.rating_distribution@[r])
                == (RatingBracket {
                min_rating: config.brackets.lower_edge(r) as i64,
                max_rating: config.brackets.lower_edge(r + 1) as i64,
                player_count: population(table, config.brackets, cutoff, r) as u64,
                player_count_cum: population_up_to(table, config.brackets, cutoff, r) as u64,
            })
        &&& self.floor_distribution@.len() == FLOOR_SLOTS
        &&& forall|k: int|
            0 <= k < FLOOR_SLOTS ==> (#[trigger] self.floor_distribution@[k]) == (FloorCount {
                floor: floor_of_line(k) as i64,
                player_count: floor_players(snapshots, floor_slot(floor_of_line(k))) as u64,
                game_count: floor_games(snapshots, floor_slot(floor_of_line(k))) as u64,
            })
        &&& self.popularity_global@.len() == size
        &&& forall|c: int|
            0 <= c < size ==> #[trigger] self.popularity_global@[c] == popularity(
                table,
                config.brackets,
                c,
                None,
            )
        &&& self.popularity_rating@.len() == config.brackets.count
        &&& forall|r: int|
            0 <= r < config.brackets.count ==> (#[trigger] self.popularity_rating@[r])@.len()
                == size
        &&& forall|r: int, c: int|
            0 <= r < config.brackets.count && 0 <= c < size ==> #[trigger] self.popularity_rating@[r]@[c]
                == popularity(table, config.brackets, c, Some(r))
        &&& self.fraud_index@.len() == size
        &&& self.fraud_index_higher_rated@.len() == size
        &&& self.fraud_index_highest_rated@.len() == size
        &&& forall|c: int|
            0 <= c < size ==> (#[trigger] self.fraud_index@[c]) == fraud_line(
                table,
                c,
                i64::MIN as int,
                cutoff,
            )
        &&& forall|c: int|
            0 <= c < size ==> (#[trigger] self.fraud_index_higher_rated@[c]) == fraud_line(
                table,
                c,
                config.high_value as int,
                cutoff,
            )
        &&& forall|c: int|
            0 <= c < size ==> (#[trigger] self.fraud_index_highest_rated@[c]) == fraud_line(
                table,
                c,
                config.highest_value as int,
                cutoff,
            )
    }

    /// Whether two sets of derived tables hold the same entries.
    pub open spec fn same_as(self, other: Aggregates) -> bool {
        &&& self.ranking_global@ == other.ranking_global@
        &&& self.ranking_character@.len() == other.ranking_character@.len()
        &&& forall|c: int|
            0 <= c < self.ranking_character@.len() ==> (#[trigger] self.ranking_character@[c])@
                == other.ranking_character@[c]@
        &&& self.matchups_player@.len() == other.matchups_player@.len()
        &&& forall|i: int|
            0 <= i < self.matchups_player@.len() ==> (#[trigger] self.matchups_player@[i])@
                == other.matchups_player@[i]@
        &&& self.matchups_global.size == other.matchups_global.size
        &&& forall|c: int, o: int|
            0 <= c < self.matchups_global.size && 0 <= o < self.matchups_global.size
                ==> #[trigger] self.matchups_global.at(c, o) == other.matchups_global.at(c, o)
        &&& self.matchups_high_rated.size == other.matchups_high_rated.size
        &&& forall|c: int, o: int|
            0 <= c < self.matchups_high_rated.size && 0 <= o < self.matchups_high_rated.size
                ==> #[trigger] self.matchups_high_rated.at(c, o) == other.matchups_high_rated.at(
                c,
                o,
            )
        &&& self.versus@.len() == other.versus@.len()
        &&& forall|a: int, b: int|
            0 <= a < self.matchups_global.size && 0 <= b < self.matchups_global.size
                ==> #[trigger] self.versus@[slot(a, b, self.matchups_global.size as int)]
                == other.versus@[slot(a, b, self.matchups_global.size as int)]
        &&& self.rating_distribution@ == other.rating_distribution@
        &&& self.floor_distribution@ == other.floor_distribution@
        &&& self.popularity_global@ == other.popularity_global@
        &&& self.popularity_rating@.len() == other.popularity_rating@.len()
        &&& forall|r: int|
            0 <= r < self.popularity_rating@.len() ==> (#[trigger] self.popularity_rating@[r])@
                == other.popularity_rating@[r]@
        &&& self.fraud_index@ == other.fraud_index@
        &&& self.fraud_index_higher_rated@ == other.fraud_index_higher_rated@
        &&& self.fraud_index_highest_rated@ == other.fraud_index_highest_rated@
    }
}

/// Rebuilding is repeatable: any two sets of derived tables of the same
/// ratings, history and configuration hold the same entries.
pub proof fn law_rebuild_repeatable(
    first: Aggregates,
    second: Aggregates,
    table: Seq<PlayerRating>,
    snapshots: Seq<RatingSnapshot>,
    config: Config,
)
    requires
        first.describes(table, snapshots, config),
        second.describes(table, snapshots, config),
    ensures
        first.same_as(second),
{
    let size = config.characters as int;
    assert(first.rating_distribution@ =~= second.rating_distribution@);
    assert(first.floor_distribution@ =~= second.floor_distribution@);
    assert(first.popularity_global@ =~= second.popularity_global@);
    assert(first.fraud_index@ =~= second.fraud_index@);
    assert(first.fraud_index_higher_rated@ =~= second.fraud_index_higher_rated@);
    assert(first.fraud_index_highest_rated@ =~= second.fraud_index_highest_rated@);
    assert forall|r: int| 0 <= r < first.popularity_rating@.len() implies (
    #[trigger] first.popularity_rating@[r])@ == second.popularity_rating@[r]@ by {
        let left = first.popularity_rating@[r]@;
        let right = second.popularity_rating@[r]@;
        assert(left.len() == size && right.len() == size);
        assert forall|c: int| 0 <= c < size implies left[c] == right[c] by {
            assert(first.popularity_rating@[r]@[c] == popularity(
                table,
                config.brackets,
                c,
                Some(r),
            ));
            assert(second.popularity_rating@[r]@[c] == popularity(
                table,
                config.brackets,
                c,
                Some(r),
            ));
        }
        assert(left =~= right);
    }
    assert forall|i: int| 0 <= i < first.matchups_player@.len() implies (
    #[trigger] first.matchups_player@[i])@ == second.matchups_player@[i]@ by {
        let left = first.matchups_player@[i]@;
        let right = second.matchups_player@[i]@;
        assert(left.len() == size && right.len() == size);
        assert forall|o: int| 0 <= o < size implies left[o] == right[o] by {
            assert(first.matchups_player@[i]@[o]@ == second.matchups_player@[i]@[o]@);
        }
        assert(left =~= right);
    }
    assert forall|c: int, o: int|
        0 <= c < first.matchups_global.size && 0 <= o
            < first.matchups_global.size implies #[trigger] first.matchups_global.at(c, o)
        == second.matchups_global.at(c, o) by {
        assert(first.matchups_global.at(c, o)@ == second.matchups_global.at(c, o)@);
    }
    assert forall|c: int, o: int|
        0 <= c < first.matchups_high_rated.size && 0 <= o
            < first.matchups_high_rated.size implies #[trigger] first.matchups_high_rated.at(c, o)
        == second.matchups_high_rated.at(c, o) by {
        assert(first.matchups_high_rated.at(c, o)@ == second.matchups_high_rated.at(c, o)@);
    }
}

/// The leaderboard of every character.
fn rank_characters(table: &Vec<PlayerRating>, size: usize, cutoff: i64) -> (boards: Vec<
    Vec<PlayerRating>,
>)
    ensures
        boards@.len() == size,
        forall|c: int|
            0 <= c < size ==> (#[trigger] boards@[c])@ == ranking(
                table@,
                cutoff as int,
                Some(c as i64),
            ),
{
    let mut boards: Vec<Vec<PlayerRating>> = Vec::new();
    let mut c: usize = 0;
    while c < size
        invariant
            c <= size,
            boards@.len() == c,
            forall|k: int|
                0 <= k < c ==> (#[trigger] boards@[k])@ == ranking(
                    table@,
                    cutoff as int,
                    Some(k as i64),
                ),
        decreases size - c,
    {
        boards.push(rank(table, cutoff, Some(c as i64)));
        c = c + 1;
    }
    boards
}

/// The matchups of every row of the table.
fn tally_players(
    table: &Vec<PlayerRating>,
    snapshots: &Vec<RatingSnapshot>,
    size: usize,
    cutoff: i64,
) -> (rows: Vec<Vec<MatchupCounts>>)
    requires
        snapshots_wf(snapshots@),
        snapshots@.len() <= MAX_HISTORY,
        0 < cutoff,
    ensures
        rows@.len() == table@.len(),
        forall|i: int| 0 <= i < table@.len() ==> (#[trigger] rows@[i])@.len() == size,
        forall|i: int, o: int|
            0 <= i < table@.len() && 0 <= o < size ==> (#[trigger] rows@[i]@[o])@
                == player_tally_of(
                snapshots@,
                table@[i].id as int,
                table@[i].char_id as int,
                o,
                cutoff as int,
            ),
{
    let mut rows: Vec<Vec<MatchupCounts>> = Vec::new();
    let mut i: usize = 0;
    while i < table.len()
        invariant
            snapshots_wf(snapshots@),
            snapshots@.len() <= MAX_HISTORY,
            0 < cutoff,
            i <= table@.len(),
            rows@.len() == i,
            forall|k: int| 0 <= k < i ==> (#[trigger] rows@[k])@.len() == size,
            forall|k: int, o: int|
                0 <= k < i && 0 <= o < size ==> (#[trigger] rows@[k]@[o])@ == player_tally_of(
                    snapshots@,
                    table@[k].id as int,
                    table@[k].char_id as int,
                    o,
                    cutoff as int,
                ),
        decreases table@.len() - i,
    {
        rows.push(tally_player(snapshots, table[i].id, table[i].char_id, size, cutoff));
        i = i + 1;
    }
    rows
}

/// The meetings of every pair of characters.
fn tally_versus(snapshots: &Vec<RatingSnapshot>, size: usize, cutoff: i64) -> (cells: Vec<
    VersusCounts,
>)
    requires
        size <= MAX_CHARACTERS,
    ensures
        cells@.len() == size * size,
        forall|a: int, b: int|
            0 <= a < size && 0 <= b < size ==> #[trigger] cells@[slot(a, b, size as int)]
                == versus_of(snapshots@, a, b, cutoff as int),
{
    let mut cells: Vec<VersusCounts> = Vec::new();
    let mut a: usize = 0;
    assert(0 * size == 0) by (nonlinear_arith);
    while a < size
        invariant
            size <= MAX_CHARACTERS,
            a <= size,
            cells@.len() == a * size,
            forall|x: int, y: int|
                0 <= x < a && 0 <= y < size ==> #[trigger] cells@[slot(x, y, size as int)]
                    == versus_of(snapshots@, x, y, cutoff as int),
        decreases size - a,
    {
        let mut b: usize = 0;
        while b < size
            invariant
                size <= MAX_CHARACTERS,
                a < size,
                b <= size,
                cells@.len() == a * size + b,
                forall|x: int, y: int|
                    0 <= x < a && 0 <= y < size ==> #[trigger] cells@[slot(x, y, size as int)]
                        == versus_of(snapshots@, x, y, cutoff as int),
                forall|y: int|
                    0 <= y < b ==> #[trigger] cells@[slot(a as int, y, size as int)] == versus_of(
                        snapshots@,
                        a as int,
                        y,
                        cutoff as int,
                    ),
            decreases size - b,
        {
            let ghost before = cells@;
            let counts = versus(snapshots, a as i64, b as i64, cutoff);
            cells.push(counts);
            proof {
                assert forall|x: int, y: int| 0 <= x < a && 0 <= y < size implies #[trigger] cells@[slot(
                    x,
                    y,
                    size as int,
                )] == versus_of(snapshots@, x, y, cutoff as int) by {
                    lemma_slot(x, y, size as int);
                    assert(x * size + y < a * size) by (nonlinear_arith)
                        requires
                            0 <= x < a,
                            0 <= y < size,
                    ;
                    assert(before[slot(x, y, size as int)] == versus_of(
                        snapshots@,
                        x,
                        y,
                        cutoff as int,
                    ));
                }
                assert forall|y: int| 0 <= y < b + 1 implies #[trigger] cells@[slot(
                    a as int,
                    y,
                    size as int,
                )] == versus_of(snapshots@, a as int, y, cutoff as int) by {
                    if y < b {
                        assert(before[slot(a as int, y, size as int)] == versus_of(
                            snapshots@,
                            a as int,
                            y,
                            cutoff as int,
                        ));
                    }
                }
            }
            b = b + 1;
        }
        proof {
            assert((a + 1) * size == a * size + size) by (nonlinear_arith);
        }
        a = a + 1;
    }
    cells
}

/// How much each character is played within each bracket.
fn shares_by_bracket(table: &Vec<PlayerRating>, brackets: Brackets, size: usize) -> (rows: Vec<
    Vec<Option<i64>>,
>)
    requires
        brackets.wf(),
        size <= MAX_CHARACTERS,
        table@.len() <= MAX_TABLE,
        forall|i: int| 0 <= i < table@.len() ==> (#[trigger] table@[i]).wf(),
    ensures
        rows@.len() == brackets.count,
        forall|r: int| 0 <= r < brackets.count ==> (#[trigger] rows@[r])@.len() == size,
        forall|r: int, c: int|
            0 <= r < brackets.count && 0 <= c < size ==> #[trigger] rows@[r]@[c] == popularity(
                table@,
                brackets,
                c,
                Some(r),
            ),
{
    let mut rows: Vec<Vec<Option<i64>>> = Vec::new();
    let mut r: usize = 0;
    while r < brackets.count
        invariant
            brackets.wf(),
            size <= MAX_CHARACTERS,
            table@.len() <= MAX_TABLE,
            forall|i: int| 0 <= i < table@.len() ==> (#[trigger] table@[i]).wf(),
            r <= brackets.count,
            rows@.len() == r,
            forall|k: int| 0 <= k < r ==> (#[trigger] rows@[k])@.len() == size,
            forall|k: int, c: int|
                0 <= k < r && 0 <= c < size ==> #[trigger] rows@[k]@[c] == popularity(
                    table@,
                    brackets,
                    c,
                    Some(k),
                ),
        decreases brackets.count - r,
    {
        rows.push(character_shares(table, brackets, size, Some(r)));
        r = r + 1;
    }
    rows
}

/// Rebuilds every derived table from the ratings and the history.
pub fn rebuild(table: &Vec<PlayerRating>, snapshots: &Vec<RatingSnapshot>, config: &Config) -> (res:
    Aggregates)
    requires
        config.wf(),
        forall|i: int| 0 <= i < table@.len() ==> (#[trigger] table@[i]).wf(),
        table@.len() <= MAX_TABLE,
        snapshots_wf(snapshots@),
        snapshots@.len() <= MAX_HISTORY,
    ensures
        res.describes(table@, snapshots@, *config),
{
    let size = config.characters;
    let cutoff = config.low_deviation;
    Aggregates {
        ranking_global: rank(table, cutoff, None),
        ranking_character: rank_characters(table, size, cutoff),
        matchups_player: tally_players(table, snapshots, size, cutoff),
        matchups_global: tally_matchups(snapshots, size, i64::MIN, cutoff),
        matchups_high_rated: tally_matchups(snapshots, size, config.high_value, cutoff),
        versus: tally_versus(snapshots, size, cutoff),
        rating_distribution: rating_distribution(table, config.brackets, cutoff),
        floor_distribution: floor_distribution(snapshots),
        popularity_global: character_shares(table, config.brackets, size, None),
        popularity_rating: shares_by_bracket(table, config.brackets, size),
        fraud_index: fraud_index(table, size, i64::MIN, cutoff),
        fraud_index_higher_rated: fraud_index(table, size, config.high_value, cutoff),
        fraud_index_highest_rated: fraud_index(table, size, config.highest_value, cutoff),
    }
}

} // verus!
