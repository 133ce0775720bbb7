//! The batch update of one run: new entrants, the snapshot of every match,
//! the new rating of every player-character, and the watermarks.

use vstd::prelude::*;
use crate::glicko::{decayed, games_wf, updated, Outcome, Rating, MAX_GAMES};
use crate::records::{
    Match, PlayerRating, RatingSnapshot, TopDefeated, TopRating, Winner, COUNT_LIMIT,
};

verus! {

/// Whether a table holds a row for the player and character.
pub open spec fn has_row(table: Seq<PlayerRating>, id: int, char_id: int) -> bool {
    exists|i: int| 0 <= i < table.len() && #[trigger] table[i].is_for(id, char_id)
}

/// The index of the row for the player and character.
pub open spec fn row_index(table: Seq<PlayerRating>, id: int, char_id: int) -> int {
    choose|i: int| 0 <= i < table.len() && #[trigger] table[i].is_for(id, char_id)
}

/// Whether no two rows of a table are for the same player and character.
pub open spec fn keys_unique(table: Seq<PlayerRating>) -> bool {
    forall|i: int, j: int|
        0 <= i < j < table.len() ==> !(#[trigger] table[i]).is_for(
            (#[trigger] table[j]).id as int,
            table[j].char_id as int,
        )
}

/// Whether a table is one that the engine keeps: every row valid, and one
/// row at most for each player and character.
pub open spec fn table_wf(table: Seq<PlayerRating>) -> bool {
    &&& forall|i: int| 0 <= i < table.len() ==> (#[trigger] table[i]).wf()
    &&& keys_unique(table)
}

/// The table with a row for the player and character: the table itself
/// where it has one, else the table with an entrant's row appended.
pub open spec fn entered(table: Seq<PlayerRating>, id: i64, char_id: i64, period: i64) -> Seq<
    PlayerRating,
> {
    if has_row(table, id as int, char_id as int) {
        table
    } else {
        table.push(PlayerRating::entrant_spec(id, char_id, period))
    }
}

/// The table with a row for every side of every match, entrants in the
/// order in which the matches name them, side A before side B.
pub open spec fn with_entrants(table: Seq<PlayerRating>, matches: Seq<Match>, period: i64) -> Seq<
    PlayerRating,
>
    decreases matches.len(),
{
    if matches.len() == 0 {
        table
    } else {
        let before = with_entrants(table, matches.drop_last(), period);
        let game = matches.last();
        entered(
            entered(before, game.id_a, game.char_a, period),
            game.id_b,
            game.char_b,
            period,
        )
    }
}

/// The rating that a table holds for the player and character.
pub open spec fn rating_in(table: Seq<PlayerRating>, id: int, char_id: int) -> Rating {
    table[row_index(table, id, char_id)].rating
}

/// The snapshot of a match against a table.
pub open spec fn snapshot_of(table: Seq<PlayerRating>, game: Match) -> RatingSnapshot {
    RatingSnapshot {
        game,
        rating_a: rating_in(table, game.id_a as int, game.char_a as int),
        rating_b: rating_in(table, game.id_b as int, game.char_b as int),
    }
}

/// The snapshots of a run's matches: each match with the ratings that both
/// sides had before the run.
pub open spec fn snapshots_of(table: Seq<PlayerRating>, matches: Seq<Match>) -> Seq<
    RatingSnapshot,
> {
    Seq::new(matches.len(), |i: int| snapshot_of(table, matches[i]))
}

/// Whether no match has the same player and character on both sides.
pub open spec fn matches_wf(matches: Seq<Match>) -> bool {
    forall|i: int| 0 <= i < matches.len() ==> !(#[trigger] matches[i]).mirrored()
}

impl Match {
    /// Whether both sides of the match are the same player and character.
    pub open spec fn mirrored(self) -> bool {
        self.id_a == self.id_b && self.char_a == self.char_b
    }

    /// Whether side A is the given player and character.
    pub open spec fn a_is(self, id: int, char_id: int) -> bool {
        self.id_a == id && self.char_a == char_id
    }

    /// Whether side B is the given player and character.
    pub open spec fn b_is(self, id: int, char_id: int) -> bool {
        self.id_b == id && self.char_b == char_id
    }

    /// How the match ended for side A.
    pub open spec fn outcome_a(self) -> Outcome {
        match self.winner {
            Winner::A => Outcome::Win,
            Winner::B => Outcome::Loss,
        }
    }

    /// How the match ended for side B.
    pub open spec fn outcome_b(self) -> Outcome {
        match self.winner {
            Winner::A => Outcome::Loss,
            Winner::B => Outcome::Win,
        }
    }
}

/// The games that one snapshot holds for a player and character: the
/// opponent's rating and the outcome, once for each side that the player
/// was on.
pub open spec fn side_games(snapshot: RatingSnapshot, id: int, char_id: int) -> Seq<
    (Rating, Outcome),
> {
    (if snapshot.game.a_is(id, char_id) {
        seq![(snapshot.rating_b, snapshot.game.outcome_a())]
    } else {
        Seq::empty()
    }) + (if snapshot.game.b_is(id, char_id) {
        seq![(snapshot.rating_a, snapshot.game.outcome_b())]
    } else {
        Seq::empty()
    })
}

/// All games of a player and character in a run's snapshots, in order.
pub open spec fn games_of(snapshots: Seq<RatingSnapshot>, id: int, char_id: int) -> Seq<
    (Rating, Outcome),
>
    decreases snapshots.len(),
{
    if snapshots.len() == 0 {
        Seq::empty()
    } else {
        games_of(snapshots.drop_last(), id, char_id) + side_games(snapshots.last(), id, char_id)
    }
}

/// How many of the games ended with the given outcome.
pub open spec fn count_outcome(games: Seq<(Rating, Outcome)>, outcome: Outcome) -> int
    decreases games.len(),
{
    if games.len() == 0 {
        0
    } else {
        count_outcome(games.drop_last(), outcome) + if games.last().1 == outcome {
            1int
        } else {
            0int
        }
    }
}

/// A count raised by `more`, stopping at [`COUNT_LIMIT`].
pub open spec fn counted(count: u64, more: int) -> u64 {
    if count + more > COUNT_LIMIT {
        COUNT_LIMIT
    } else {
        (count + more) as u64
    }
}

/// The peak-rating watermark after a match that left the rating `after`:
/// replaced only where the value is strictly above the stored one.
pub open spec fn raised_top(current: Option<TopRating>, after: Rating, timestamp: i64) -> Option<
    TopRating,
> {
    match current {
        Some(top) => if after.value > top.value {
            Some(TopRating { value: after.value, deviation: after.deviation, timestamp })
        } else {
            current
        },
        None => Some(TopRating { value: after.value, deviation: after.deviation, timestamp }),
    }
}

/// The best-win watermark after a win over `candidate`: replaced only
/// where the opponent's rating is strictly above the stored one.
pub open spec fn raised_defeated(current: Option<TopDefeated>, candidate: TopDefeated) -> Option<
    TopDefeated,
> {
    match current {
        Some(top) => if candidate.opponent_rating > top.opponent_rating {
            Some(candidate)
        } else {
            current
        },
        None => Some(candidate),
    }
}

/// Side B of a snapshot as a beaten opponent.
pub open spec fn beaten_b(snapshot: RatingSnapshot) -> TopDefeated {
    TopDefeated {
        opponent_id: snapshot.game.id_b,
        opponent_char: snapshot.game.char_b,
        opponent_rating: snapshot.rating_b.value,
        opponent_deviation: snapshot.rating_b.deviation,
        floor: snapshot.game.floor,
        timestamp: snapshot.game.timestamp,
    }
}

/// Side A of a snapshot as a beaten opponent.
pub open spec fn beaten_a(snapshot: RatingSnapshot) -> TopDefeated {
    TopDefeated {
        opponent_id: snapshot.game.id_a,
        opponent_char: snapshot.game.char_a,
        opponent_rating: snapshot.rating_a.value,
        opponent_deviation: snapshot.rating_a.deviation,
        floor: snapshot.game.floor,
        timestamp: snapshot.game.timestamp,
    }
}

/// The peak-rating watermark of a player and character after one match.
pub open spec fn top_rating_step(
    current: Option<TopRating>,
    snapshot: RatingSnapshot,
    id: int,
    char_id: int,
    after: Rating,
) -> Option<TopRating> {
    if snapshot.game.a_is(id, char_id) || snapshot.game.b_is(id, char_id) {
        raised_top(current, after, snapshot.game.timestamp)
    } else {
        current
    }
}

/// The best-win watermark of a player and character after one match.
pub open spec fn top_defeated_step(
    current: Option<TopDefeated>,
    snapshot: RatingSnapshot,
    id: int,
    char_id: int,
) -> Option<TopDefeated> {
    let as_a = if snapshot.game.a_is(id, char_id) && snapshot.game.winner == Winner::A {
        raised_defeated(current, beaten_b(snapshot))
    } else {
        current
    };
    if snapshot.game.b_is(id, char_id) && snapshot.game.winner == Winner::B {
        raised_defeated(as_a, beaten_a(snapshot))
    } else {
        as_a
    }
}

/// The peak-rating watermark after a run's matches, taken in order.
pub open spec fn top_rating_after(
    current: Option<TopRating>,
    snapshots: Seq<RatingSnapshot>,
    id: int,
    char_id: int,
    after: Rating,
) -> Option<TopRating>
    decreases snapshots.len(),
{
    if snapshots.len() == 0 {
        current
    } else {
        top_rating_step(
            top_rating_after(current, snapshots.drop_last(), id, char_id, after),
            snapshots.last(),
            id,
            char_id,
            after,
        )
    }
}

/// The best-win watermark after a run's matches, taken in order.
pub open spec fn top_defeated_after(
    current: Option<TopDefeated>,
    snapshots: Seq<RatingSnapshot>,
    id: int,
    char_id: int,
) -> Option<TopDefeated>
    decreases snapshots.len(),
{
    if snapshots.len() == 0 {
        current
    } else {
        top_defeated_step(
            top_defeated_after(current, snapshots.drop_last(), id, char_id),
            snapshots.last(),
            id,
            char_id,
        )
    }
}

/// The rating of a row after a run: updated by its games where it has
/// any, decayed by the run's periods where it has none.
pub open spec fn rating_after(row: PlayerRating, snapshots: Seq<RatingSnapshot>, periods: u64)
    -> Rating {
    let games = games_of(snapshots, row.id as int, row.char_id as int);
    if games.len() == 0 {
        decayed(row.rating, periods as nat)
    } else {
        updated(row.rating, games)
    }
}

/// A row after a run with the given snapshots.
pub open spec fn row_after(
    row: PlayerRating,
    snapshots: Seq<RatingSnapshot>,
    periods: u64,
    period: i64,
) -> PlayerRating {
    let games = games_of(snapshots, row.id as int, row.char_id as int);
    let after = rating_after(row, snapshots, periods);
    PlayerRating {
        id: row.id,
        char_id: row.char_id,
        rating: after,
        wins: counted(row.wins, count_outcome(games, Outcome::Win)),
        losses: counted(row.losses, count_outcome(games, Outcome::Loss)),
        last_decay_period: period,
        top_rating: top_rating_after(
            row.top_rating,
            snapshots,
            row.id as int,
            row.char_id as int,
            after,
        ),
        top_defeated: top_defeated_after(
            row.top_defeated,
            snapshots,
            row.id as int,
            row.char_id as int,
        ),
    }
}

/// The table after a run: every row of the table with its entrants,
/// brought forward by the run's snapshots.
pub open spec fn table_after(
    table: Seq<PlayerRating>,
    matches: Seq<Match>,
    periods: u64,
    period: i64,
) -> Seq<PlayerRating> {
    let entered = with_entrants(table, matches, period);
    let snapshots = snapshots_of(entered, matches);
    Seq::new(entered.len(), |i: int| row_after(entered[i], snapshots, periods, period))
}

/// Looks up the row of a player and character.
pub fn find_row(table: &Vec<PlayerRating>, id: i64, char_id: i64) -> (found: Option<usize>)
    ensures
        found is Some <==> has_row(table@, id as int, char_id as int),
        found matches Some(index) ==> index < table@.len() && table@[index as int].is_for(
            id as int,
            char_id as int,
        ),
        found matches Some(index) ==> keys_unique(table@) ==> index == row_index(
            table@,
            id as int,
            char_id as int,
        ),
{
    let mut i: usize = 0;
    while i < table.len()
        invariant
            i <= table@.len(),
            forall|j: int| 0 <= j < i ==> !(#[trigger] table@[j]).is_for(id as int, char_id as int),
        decreases table@.len() - i,
    {
        if table[i].id == id && table[i].char_id == char_id {
            proof {
                assert(table@[i as int].is_for(id as int, char_id as int));
                if keys_unique(table@) {
                    let other = row_index(table@, id as int, char_id as int);
                    assert(table@[other].is_for(id as int, char_id as int));
                    if other > i {
                        assert(!table@[i as int].is_for(
                            table@[other].id as int,
                            table@[other].char_id as int,
                        ));
                    }
                }
            }
            return Some(i);
        }
        i = i + 1;
    }
    None
}

/// Entering a player and character keeps a table valid and keeps every
/// row where it was.
pub proof fn lemma_entered_wf(table: Seq<PlayerRating>, id: i64, char_id: i64, period: i64)
    requires
        table_wf(table),
    ensures
        table_wf(entered(table, id, char_id, period)),
        has_row(entered(table, id, char_id, period), id as int, char_id as int),
        table.len() <= entered(table, id, char_id, period).len(),
        forall|i: int| 0 <= i < table.len() ==> entered(table, id, char_id, period)[i] == table[i],
        forall|i: int|
            table.len() <= i < entered(table, id, char_id, period).len() ==> (#[trigger] entered(
                table,
                id,
                char_id,
                period,
            )[i]) == PlayerRating::entrant_spec(id, char_id, period),
{
    let next = entered(table, id, char_id, period);
    if !has_row(table, id as int, char_id as int) {
        let row = PlayerRating::entrant_spec(id, char_id, period);
        assert(next[table.len() as int].is_for(id as int, char_id as int));
        assert forall|i: int, j: int| 0 <= i < j < next.len() implies !(#[trigger] next[i]).is_for(
            (#[trigger] next[j]).id as int,
            next[j].char_id as int,
        ) by {
            if j == table.len() {
                assert(next[i] == table[i]);
                if table[i].is_for(id as int, char_id as int) {
                    assert(has_row(table, id as int, char_id as int));
                }
            } else {
                assert(next[i] == table[i]);
                assert(next[j] == table[j]);
            }
        }
    }
}

/// Entering the sides of a run's matches keeps a table valid, keeps every
/// row where it was, and gives every side a row.
pub proof fn lemma_with_entrants_wf(table: Seq<PlayerRating>, matches: Seq<Match>, period: i64)
    requires
        table_wf(table),
    ensures
        table_wf(with_entrants(table, matches, period)),
        table.len() <= with_entrants(table, matches, period).len(),
        forall|i: int|
            0 <= i < table.len() ==> (#[trigger] with_entrants(table, matches, period)[i])
                == table[i],
        forall|i: int|
            table.len() <= i < with_entrants(table, matches, period).len() ==> (
            #[trigger] with_entrants(table, matches, period)[i]).rating == (Rating {
                value: 0,
                deviation: crate::glicko::DEVIATION_CEILING,
            }) && with_entrants(table, matches, period)[i].top_rating is None && with_entrants(
                table,
                matches,
                period,
            )[i].top_defeated is None,
        forall|k: int|
            0 <= k < matches.len() ==> has_row(
                with_entrants(table, matches, period),
                (#[trigger] matches[k]).id_a as int,
                matches[k].char_a as int,
            ) && has_row(
                with_entrants(table, matches, period),
                matches[k].id_b as int,
                matches[k].char_b as int,
            ),
    decreases matches.len(),
{
    if matches.len() > 0 {
        let rest = matches.drop_last();
        let game = matches.last();
        lemma_with_entrants_wf(table, rest, period);
        let before = with_entrants(table, rest, period);
        lemma_entered_wf(before, game.id_a, game.char_a, period);
        let mid = entered(before, game.id_a, game.char_a, period);
        lemma_entered_wf(mid, game.id_b, game.char_b, period);
        let all = entered(mid, game.id_b, game.char_b, period);
        assert(all == with_entrants(table, matches, period));
        assert forall|k: int| 0 <= k < matches.len() implies has_row(
            all,
            (#[trigger] matches[k]).id_a as int,
            matches[k].char_a as int,
        ) && has_row(all, matches[k].id_b as int, matches[k].char_b as int) by {
            if k < rest.len() {
                assert(matches[k] == rest[k]);
                lemma_has_row_kept(before, all, matches[k].id_a as int, matches[k].char_a as int);
                lemma_has_row_kept(before, all, matches[k].id_b as int, matches[k].char_b as int);
            } else {
                lemma_has_row_kept(mid, all, game.id_a as int, game.char_a as int);
            }
        }
    }
}

/// A table that extends another has every row that the other has.
pub proof fn lemma_has_row_kept(
    table: Seq<PlayerRating>,
    longer: Seq<PlayerRating>,
    id: int,
    char_id: int,
)
    requires
        table.len() <= longer.len(),
        forall|i: int| 0 <= i < table.len() ==> longer[i] == table[i],
        has_row(table, id, char_id),
    ensures
        has_row(longer, id, char_id),
{
    let i = row_index(table, id, char_id);
    assert(longer[i].is_for(id, char_id));
}

/// Whether every match that a sequence of snapshots holds keeps its two
/// sides apart.
pub open spec fn sides_apart(snapshots: Seq<RatingSnapshot>) -> bool {
    forall|i: int| 0 <= i < snapshots.len() ==> !(#[trigger] snapshots[i]).game.mirrored()
}

/// A player and character has at most one game in each snapshot whose
/// sides are apart, all of them against valid ratings.
pub proof fn lemma_games_of_bounds(snapshots: Seq<RatingSnapshot>, id: int, char_id: int)
    requires
        crate::records::snapshots_wf(snapshots),
        sides_apart(snapshots),
    ensures
        games_of(snapshots, id, char_id).len() <= snapshots.len(),
        games_wf(games_of(snapshots, id, char_id)),
    decreases snapshots.len(),
{
    if snapshots.len() > 0 {
        let rest = snapshots.drop_last();
        assert forall|i: int| 0 <= i < rest.len() implies (#[trigger] rest[i]).wf() && !rest[i].game.mirrored() by {
            assert(rest[i] == snapshots[i]);
        }
        lemma_games_of_bounds(rest, id, char_id);
        let last = snapshots.last();
        assert(last.wf() && !last.game.mirrored());
    }
}

/// The counts of an outcome in two runs of games add up.
pub proof fn lemma_count_outcome_add(
    first: Seq<(Rating, Outcome)>,
    second: Seq<(Rating, Outcome)>,
    outcome: Outcome,
)
    ensures
        count_outcome(first + second, outcome) == count_outcome(first, outcome) + count_outcome(
            second,
            outcome,
        ),
        0 <= count_outcome(first, outcome) <= first.len(),
    decreases second.len(),
{
    lemma_count_outcome_bounds(first, outcome);
    if second.len() == 0 {
        assert(first + second == first);
    } else {
        lemma_count_outcome_add(first, second.drop_last(), outcome);
        assert((first + second).drop_last() == first + second.drop_last());
        assert((first + second).last() == second.last());
    }
}

/// No outcome is counted more often than there are games.
pub proof fn lemma_count_outcome_bounds(games: Seq<(Rating, Outcome)>, outcome: Outcome)
    ensures
        0 <= count_outcome(games, outcome) <= games.len(),
    decreases games.len(),
{
    if games.len() > 0 {
        lemma_count_outcome_bounds(games.drop_last(), outcome);
    }
}

/// Whether a peak-rating watermark has not been lowered: it is as it was,
/// or its value is strictly higher.
pub open spec fn top_rating_kept(before: Option<TopRating>, after: Option<TopRating>) -> bool {
    match before {
        None => true,
        Some(old_top) => after matches Some(new_top) && (new_top == old_top || new_top.value
            > old_top.value),
    }
}

/// Whether a best-win watermark has not been lowered: it is as it was, or
/// the beaten opponent's rating is strictly higher.
pub open spec fn top_defeated_kept(before: Option<TopDefeated>, after: Option<TopDefeated>)
    -> bool {
    match before {
        None => true,
        Some(old_top) => after matches Some(new_top) && (new_top == old_top
            || new_top.opponent_rating > old_top.opponent_rating),
    }
}

/// The peak-rating watermark is never lowered by a run. Where a run
/// changes it, it holds the rating after the run and the time of one of
/// the player-character's matches in the run.
pub proof fn lemma_top_rating_monotonic(
    current: Option<TopRating>,
    snapshots: Seq<RatingSnapshot>,
    id: int,
    char_id: int,
    after: Rating,
)
    ensures
        top_rating_kept(current, top_rating_after(current, snapshots, id, char_id, after)),
        top_rating_after(current, snapshots, id, char_id, after) == current || exists|k: int|
            0 <= k < snapshots.len() && ((#[trigger] snapshots[k]).game.a_is(id, char_id)
                || snapshots[k].game.b_is(id, char_id)) && top_rating_after(
                current,
                snapshots,
                id,
                char_id,
                after,
            ) == Some(
                TopRating {
                    value: after.value,
                    deviation: after.deviation,
                    timestamp: snapshots[k].game.timestamp,
                },
            ),
    decreases snapshots.len(),
{
    if snapshots.len() > 0 {
        let rest = snapshots.drop_last();
        lemma_top_rating_monotonic(current, rest, id, char_id, after);
        let before = top_rating_after(current, rest, id, char_id, after);
        let result = top_rating_after(current, snapshots, id, char_id, after);
        if result != current {
            if result == before {
                let k = choose|k: int|
                    0 <= k < rest.len() && ((#[trigger] rest[k]).game.a_is(id, char_id)
                        || rest[k].game.b_is(id, char_id)) && before == Some(
                        TopRating {
                            value: after.value,
                            deviation: after.deviation,
                            timestamp: rest[k].game.timestamp,
                        },
                    );
                assert(snapshots[k] == rest[k]);
            } else {
                let k = snapshots.len() - 1;
                assert(snapshots[k] == snapshots.last());
            }
        }
    }
}

/// The best-win watermark is never lowered by a run. Where a run changes
/// it, it holds the opponent, floor and time of one of the matches that
/// the player-character won in the run.
pub proof fn lemma_top_defeated_monotonic(
    current: Option<TopDefeated>,
    snapshots: Seq<RatingSnapshot>,
    id: int,
    char_id: int,
)
    ensures
        top_defeated_kept(current, top_defeated_after(current, snapshots, id, char_id)),
        top_defeated_after(current, snapshots, id, char_id) == current || exists|k: int|
            0 <= k < snapshots.len() && (((#[trigger] snapshots[k]).game.a_is(id, char_id)
                && snapshots[k].game.winner == Winner::A && top_defeated_after(
                current,
                snapshots,
                id,
                char_id,
            ) == Some(beaten_b(snapshots[k]))) || (snapshots[k].game.b_is(id, char_id)
                && snapshots[k].game.winner == Winner::B && top_defeated_after(
                current,
                snapshots,
                id,
                char_id,
            ) == Some(beaten_a(snapshots[k])))),
    decreases snapshots.len(),
{
    if snapshots.len() > 0 {
        let rest = snapshots.drop_last();
        lemma_top_defeated_monotonic(current, rest, id, char_id);
        let before = top_defeated_after(current, rest, id, char_id);
        let result = top_defeated_after(current, snapshots, id, char_id);
        if result != current {
            if result == before {
                let k = choose|k: int|
                    0 <= k < rest.len() && (((#[trigger] rest[k]).game.a_is(id, char_id)
                        && rest[k].game.winner == Winner::A && before == Some(beaten_b(rest[k])))
                        || (rest[k].game.b_is(id, char_id) && rest[k].game.winner == Winner::B
                        && before == Some(beaten_a(rest[k]))));
                assert(snapshots[k] == rest[k]);
            } else {
                let k = snapshots.len() - 1;
                assert(snapshots[k] == snapshots.last());
            }
        }
    }
}

/// Brings one row forward by a run: the new rating from the row's games in
/// the run's snapshots or from decay, the counts, and the watermarks.
pub fn bring_forward(
    row: &PlayerRating,
    snapshots: &Vec<RatingSnapshot>,
    periods: u64,
    period: i64,
) -> (res: PlayerRating)
    requires
        row.wf(),
        crate::records::snapshots_wf(snapshots@),
        sides_apart(snapshots@),
        snapshots@.len() <= MAX_GAMES,
    ensures
        res == row_after(*row, snapshots@, periods, period),
        res.wf(),
{
    let ghost id = row.id as int;
    let ghost char_id = row.char_id as int;
    let mut games: Vec<(Rating, Outcome)> = Vec::new();
    let mut wins: u64 = 0;
    let mut losses: u64 = 0;
    let mut defeated = row.top_defeated;
    let mut i: usize = 0;
    while i < snapshots.len()
        invariant
            id == row.id,
            char_id == row.char_id,
            crate::records::snapshots_wf(snapshots@),
            sides_apart(snapshots@),
            snapshots@.len() <= MAX_GAMES,
            i <= snapshots@.len(),
            games@ == games_of(snapshots@.take(i as int), id, char_id),
            games@.len() <= i,
            wins == count_outcome(games@, Outcome::Win),
            losses == count_outcome(games@, Outcome::Loss),
            defeated == top_defeated_after(row.top_defeated, snapshots@.take(i as int), id, char_id),
            defeated matches Some(top) ==> top.rating().wf(),
            row.wf(),
        decreases snapshots@.len() - i,
    {
        let snapshot = snapshots[i];
        let ghost before = games@;
        proof {
            assert(snapshots@.take(i + 1).drop_last() == snapshots@.take(i as int));
            assert(snapshots@.take(i + 1).last() == snapshot);
            assert(!snapshot.game.mirrored());
            assert(snapshot.wf());
            lemma_count_outcome_add(before, side_games(snapshot, id, char_id), Outcome::Win);
            lemma_count_outcome_add(before, side_games(snapshot, id, char_id), Outcome::Loss);
            reveal_with_fuel(count_outcome, 2);
        }
        if snapshot.game.id_a == row.id && snapshot.game.char_a == row.char_id {
            match snapshot.game.winner {
                Winner::A => {
                    games.push((snapshot.rating_b, Outcome::Win));
                    wins = wins + 1;
                    defeated = raise_defeated(
                        defeated,
                        TopDefeated {
                            opponent_id: snapshot.game.id_b,
                            opponent_char: snapshot.game.char_b,
                            opponent_rating: snapshot.rating_b.value,
                            opponent_deviation: snapshot.rating_b.deviation,
                            floor: snapshot.game.floor,
                            timestamp: snapshot.game.timestamp,
                        },
                    );
                },
                Winner::B => {
                    games.push((snapshot.rating_b, Outcome::Loss));
                    losses = losses + 1;
                },
            }
        } else if snapshot.game.id_b == row.id && snapshot.game.char_b == row.char_id {
            match snapshot.game.winner {
                Winner::B => {
                    games.push((snapshot.rating_a, Outcome::Win));
                    wins = wins + 1;
                    defeated = raise_defeated(
                        defeated,
                        TopDefeated {
                            opponent_id: snapshot.game.id_a,
                            opponent_char: snapshot.game.char_a,
                            opponent_rating: snapshot.rating_a.value,
                            opponent_deviation: snapshot.rating_a.deviation,
                            floor: snapshot.game.floor,
                            timestamp: snapshot.game.timestamp,
                        },
                    );
                },
                Winner::A => {
                    games.push((snapshot.rating_a, Outcome::Loss));
                    losses = losses + 1;
                },
            }
        }
        proof {
            assert(games@ =~= before + side_games(snapshot, id, char_id));
        }
        i = i + 1;
    }
    proof {
        assert(snapshots@.take(i as int) == snapshots@);
        lemma_games_of_bounds(snapshots@, id, char_id);
    }
    let after = if games.len() == 0 {
        row.rating.decay(periods)
    } else {
        row.rating.update(&games)
    };
    let mut top = row.top_rating;
    let mut j: usize = 0;
    while j < snapshots.len()
        invariant
            id == row.id,
            char_id == row.char_id,
            j <= snapshots@.len(),
            top == top_rating_after(row.top_rating, snapshots@.take(j as int), id, char_id, after),
            top matches Some(peak) ==> peak.rating().wf(),
            after.wf(),
        decreases snapshots@.len() - j,
    {
        let snapshot = snapshots[j];
        proof {
            assert(snapshots@.take(j + 1).drop_last() == snapshots@.take(j as int));
            assert(snapshots@.take(j + 1).last() == snapshot);
        }
        if (snapshot.game.id_a == row.id && snapshot.game.char_a == row.char_id) || (
        snapshot.game.id_b == row.id && snapshot.game.char_b == row.char_id) {
            top = raise_top(top, after, snapshot.game.timestamp);
        }
        j = j + 1;
    }
    proof {
        assert(snapshots@.take(j as int) == snapshots@);
    }
    PlayerRating {
        id: row.id,
        char_id: row.char_id,
        rating: after,
        wins: add_count(row.wins, wins),
        losses: add_count(row.losses, losses),
        last_decay_period: period,
        top_rating: top,
        top_defeated: defeated,
    }
}

/// Computes [`raised_top`].
pub fn raise_top(current: Option<TopRating>, after: Rating, timestamp: i64) -> (res: Option<
    TopRating,
>)
    ensures
        res == raised_top(current, after, timestamp),
{
    match current {
        Some(top) => {
            if after.value > top.value {
                Some(TopRating { value: after.value, deviation: after.deviation, timestamp })
            } else {
                current
            }
        },
        None => Some(TopRating { value: after.value, deviation: after.deviation, timestamp }),
    }
}

/// Computes [`raised_defeated`].
pub fn raise_defeated(current: Option<TopDefeated>, candidate: TopDefeated) -> (res: Option<
    TopDefeated,
>)
    ensures
        res == raised_defeated(current, candidate),
{
    match current {
        Some(top) => {
            if candidate.opponent_rating > top.opponent_rating {
                Some(candidate)
            } else {
                current
            }
        },
        None => Some(candidate),
    }
}

/// Computes [`counted`].
pub fn add_count(count: u64, more: u64) -> (res: u64)
    ensures
        res == counted(count, more as int),
        count <= COUNT_LIMIT ==> res <= COUNT_LIMIT,
{
    if count as u128 + more as u128 > COUNT_LIMIT as u128 {
        COUNT_LIMIT
    } else {
        count + more
    }
}

/// Gives the player and character a row, if the table has none yet.
pub fn enter(table: &mut Vec<PlayerRating>, id: i64, char_id: i64, period: i64)
    ensures
        final(table)@ == entered(old(table)@, id, char_id, period),
{
    if find_row(table, id, char_id).is_none() {
        table.push(PlayerRating::entrant(id, char_id, period));
    }
}

/// Gives every side of every match a row.
pub fn enter_sides(table: &mut Vec<PlayerRating>, matches: &Vec<Match>, period: i64)
    ensures
        final(table)@ == with_entrants(old(table)@, matches@, period),
{
    let mut i: usize = 0;
    while i < matches.len()
        invariant
            i <= matches@.len(),
            table@ == with_entrants(old(table)@, matches@.take(i as int), period),
        decreases matches@.len() - i,
    {
        proof {
            assert(matches@.take(i + 1).drop_last() == matches@.take(i as int));
            assert(matches@.take(i + 1).last() == matches@[i as int]);
        }
        enter(table, matches[i].id_a, matches[i].char_a, period);
        enter(table, matches[i].id_b, matches[i].char_b, period);
        i = i + 1;
    }
    proof {
        assert(matches@.take(i as int) == matches@);
    }
}

/// Whether a table has a row for both sides of every match.
pub open spec fn sides_entered(table: Seq<PlayerRating>, matches: Seq<Match>) -> bool {
    forall|k: int|
        0 <= k < matches.len() ==> has_row(
            table,
            (#[trigger] matches[k]).id_a as int,
            matches[k].char_a as int,
        ) && has_row(table, matches[k].id_b as int, matches[k].char_b as int)
}

/// Takes the snapshot of every match against a table that holds a row for
/// every side.
pub fn take_snapshots(table: &Vec<PlayerRating>, matches: &Vec<Match>) -> (res: Vec<
    RatingSnapshot,
>)
    requires
        keys_unique(table@),
        sides_entered(table@, matches@),
    ensures
        res@ == snapshots_of(table@, matches@),
{
    let mut res: Vec<RatingSnapshot> = Vec::new();
    let mut i: usize = 0;
    while i < matches.len()
        invariant
            keys_unique(table@),
            sides_entered(table@, matches@),
            i <= matches@.len(),
            res@.len() == i,
            forall|k: int| 0 <= k < i ==> #[trigger] res@[k] == snapshot_of(table@, matches@[k]),
        decreases matches@.len() - i,
    {
        let game = matches[i];
        assert(has_row(table@, game.id_a as int, game.char_a as int) && has_row(
            table@,
            game.id_b as int,
            game.char_b as int,
        ));
        let a = find_row(table, game.id_a, game.char_a).unwrap();
        let b = find_row(table, game.id_b, game.char_b).unwrap();
        res.push(RatingSnapshot { game, rating_a: table[a].rating, rating_b: table[b].rating });
        i = i + 1;
    }
    assert(res@ =~= snapshots_of(table@, matches@));
    res
}

/// The snapshots of a run against a valid table are valid, and keep the
/// sides of their matches apart where the matches do.
pub proof fn lemma_snapshots_wf(table: Seq<PlayerRating>, matches: Seq<Match>)
    requires
        table_wf(table),
        sides_entered(table, matches),
        matches_wf(matches),
    ensures
        crate::records::snapshots_wf(snapshots_of(table, matches)),
        sides_apart(snapshots_of(table, matches)),
        snapshots_of(table, matches).len() == matches.len(),
{
    let snapshots = snapshots_of(table, matches);
    assert forall|i: int| 0 <= i < snapshots.len() implies (#[trigger] snapshots[i]).wf()
        && !snapshots[i].game.mirrored() by {
        let game = matches[i];
        assert(!game.mirrored());
        assert(has_row(table, game.id_a as int, game.char_a as int) && has_row(
            table,
            game.id_b as int,
            game.char_b as int,
        ));
        let a = row_index(table, game.id_a as int, game.char_a as int);
        let b = row_index(table, game.id_b as int, game.char_b as int);
        assert(table[a].wf());
        assert(table[b].wf());
    }
}

/// Applies one run to the table of ratings. Every side of every match
/// gets a row if it has none. Each match is snapshotted with the ratings
/// that both sides had before the run. Each row is then brought forward:
/// by all of its games at once where it played, by `periods` periods of
/// decay where it did not; its counts and watermarks follow its matches.
/// Returns the new table and the run's snapshots.
pub fn apply_period(table: Vec<PlayerRating>, matches: &Vec<Match>, periods: u64, period: i64)
    -> (res: (Vec<PlayerRating>, Vec<RatingSnapshot>))
    requires
        table_wf(table@),
        matches_wf(matches@),
        matches@.len() <= MAX_GAMES,
    ensures
        res.0@ == table_after(table@, matches@, periods, period),
        res.1@ == snapshots_of(with_entrants(table@, matches@, period), matches@),
        table_wf(res.0@),
        crate::records::snapshots_wf(res.1@),
        res.1@.len() == matches@.len(),
{
    let mut entered = table;
    enter_sides(&mut entered, matches, period);
    proof {
        lemma_with_entrants_wf(table@, matches@, period);
        lemma_snapshots_wf(entered@, matches@);
    }
    let snapshots = take_snapshots(&entered, matches);
    let mut after: Vec<PlayerRating> = Vec::new();
    let mut i: usize = 0;
    while i < entered.len()
        invariant
            table_wf(entered@),
            crate::records::snapshots_wf(snapshots@),
            sides_apart(snapshots@),
            snapshots@.len() <= MAX_GAMES,
            i <= entered@.len(),
            after@.len() == i,
            forall|k: int|
                0 <= k < i ==> #[trigger] after@[k] == row_after(
                    entered@[k],
                    snapshots@,
                    periods,
                    period,
                ),
            forall|k: int| 0 <= k < i ==> (#[trigger] after@[k]).wf(),
        decreases entered@.len() - i,
    {
        let row = bring_forward(&entered[i], &snapshots, periods, period);
        after.push(row);
        i = i + 1;
    }
    proof {
        assert(after@ =~= table_after(table@, matches@, periods, period));
        assert forall|a: int, b: int| 0 <= a < b < after@.len() implies !(#[trigger] after@[a]).is_for(
            (#[trigger] after@[b]).id as int,
            after@[b].char_id as int,
        ) by {
            assert(!entered@[a].is_for(entered@[b].id as int, entered@[b].char_id as int));
        }
    }
    (after, snapshots)
}

/// Watermarks only rise. For every row that the table held before a run,
/// the row at the same place after the run is for the same player and
/// character, and each of its two watermarks is as it was or strictly
/// higher; a raised peak holds the rating after the run.
pub proof fn law_watermarks_monotonic(
    table: Seq<PlayerRating>,
    matches: Seq<Match>,
    periods: u64,
    period: i64,
    i: int,
)
    requires
        table_wf(table),
        0 <= i < table.len(),
    ensures
        i < table_after(table, matches, periods, period).len(),
        table_after(table, matches, periods, period)[i].is_for(
            table[i].id as int,
            table[i].char_id as int,
        ),
        top_rating_kept(
            table[i].top_rating,
            table_after(table, matches, periods, period)[i].top_rating,
        ),
        top_defeated_kept(
            table[i].top_defeated,
            table_after(table, matches, periods, period)[i].top_defeated,
        ),
        table_after(table, matches, periods, period)[i].top_rating != table[i].top_rating
            ==> table_after(table, matches, periods, period)[i].top_rating->0.value == table_after(
            table,
            matches,
            periods,
            period,
        )[i].rating.value,
{
    lemma_with_entrants_wf(table, matches, period);
    let entered = with_entrants(table, matches, period);
    let snapshots = snapshots_of(entered, matches);
    let row = entered[i];
    assert(row == table[i]);
    let after = rating_after(row, snapshots, periods);
    lemma_top_rating_monotonic(row.top_rating, snapshots, row.id as int, row.char_id as int, after);
    lemma_top_defeated_monotonic(row.top_defeated, snapshots, row.id as int, row.char_id as int);
}

} // verus!
