//! Matchup tables: how characters fare against each other, counted over
//! the snapshots of all rated matches.

use vstd::prelude::*;
use crate::fixed::ONE;
use crate::records::{snapshots_wf, RatingSnapshot, Winner};

verus! {

/// The largest number of characters that a table is built for.
pub const MAX_CHARACTERS: usize = 1024;

/// The largest number of snapshots that a table is built from.
pub const MAX_HISTORY: usize = 0x3FFF_FFFF;

/// Wins and losses, counted as they are and weighted by confidence.
#[derive(Clone, Copy, Debug, PartialEq, Eq)]
pub struct MatchupCounts {
    pub wins_real: u64,
    pub losses_real: u64,
    pub wins_adjusted: i64,
    pub losses_adjusted: i64,
}

/// The mathematical value of [`MatchupCounts`].
pub struct Tally {
    pub wins: int,
    pub losses: int,
    pub wins_adjusted: int,
    pub losses_adjusted: int,
}

impl View for MatchupCounts {
    type V = Tally;

    open spec fn view(&self) -> Tally {
        Tally {
            wins: self.wins_real as int,
            losses: self.losses_real as int,
            wins_adjusted: self.wins_adjusted as int,
            losses_adjusted: self.losses_adjusted as int,
        }
    }
}

impl Tally {
    /// The tally of no games.
    pub open spec fn zero() -> Tally {
        Tally { wins: 0, losses: 0, wins_adjusted: 0, losses_adjusted: 0 }
    }

    /// The tally with one more game of the given weight.
    pub open spec fn plus(self, won: bool, weight: int) -> Tally {
        if won {
            Tally {
                wins: self.wins + 1,
                wins_adjusted: self.wins_adjusted + weight,
                ..self
            }
        } else {
            Tally {
                losses: self.losses + 1,
                losses_adjusted: self.losses_adjusted + weight,
                ..self
            }
        }
    }

    /// The number of games counted.
    pub open spec fn games(self) -> int {
        self.wins + self.losses
    }

    /// Whether the tally is one of at most `games` games, each of a
    /// weight of at most one.
    pub open spec fn within(self, games: int) -> bool {
        &&& 0 <= self.wins
        &&& 0 <= self.losses
        &&& self.wins + self.losses <= games
        &&& 0 <= self.wins_adjusted <= self.wins * ONE
        &&& 0 <= self.losses_adjusted <= self.losses * ONE
    }
}

impl MatchupCounts {
    /// The counts of no games.
    pub fn zero() -> (res: MatchupCounts)
        ensures
            res@ == Tally::zero(),
    {
        MatchupCounts { wins_real: 0, losses_real: 0, wins_adjusted: 0, losses_adjusted: 0 }
    }

    /// The counts with one more game of the given weight.
    pub fn plus(self, won: bool, weight: i64) -> (res: MatchupCounts)
        requires
            self@.within(2 * MAX_HISTORY),
            self@.games() < 2 * MAX_HISTORY,
            0 <= weight <= ONE,
        ensures
            res@ == self@.plus(won, weight as int),
            res@.within(self@.games() + 1),
    {
        if won {
            MatchupCounts {
                wins_real: self.wins_real + 1,
                wins_adjusted: self.wins_adjusted + weight,
                ..self
            }
        } else {
            MatchupCounts {
                losses_real: self.losses_real + 1,
                losses_adjusted: self.losses_adjusted + weight,
                ..self
            }
        }
    }
}

/// The weight of a match in the adjusted counts, in millionths: one where
/// both deviations are within the cutoff, else the cutoff's share of the
/// larger deviation. The less certain a rating was, the less the match
/// counts.
pub open spec fn weight_of(snapshot: RatingSnapshot, cutoff: int) -> int {
    let worst = if snapshot.rating_a.deviation >= snapshot.rating_b.deviation {
        snapshot.rating_a.deviation as int
    } else {
        snapshot.rating_b.deviation as int
    };
    if worst <= cutoff {
        ONE as int
    } else {
        (ONE * cutoff) / worst
    }
}

/// Computes [`weight_of`].
pub fn weigh(snapshot: &RatingSnapshot, cutoff: i64) -> (weight: i64)
    requires
        snapshot.wf(),
        0 < cutoff,
    ensures
        weight == weight_of(*snapshot, cutoff as int),
        0 <= weight <= ONE,
{
    let worst = if snapshot.rating_a.deviation >= snapshot.rating_b.deviation {
        snapshot.rating_a.deviation
    } else {
        snapshot.rating_b.deviation
    };
    if worst <= cutoff {
        ONE
    } else {
        assert(0 <= (ONE * cutoff) / (worst as int) <= ONE) by (nonlinear_arith)
            requires
                0 < cutoff < worst,
        ;
        assert(ONE * cutoff <= 1_000_000 * 2_014_732) by (nonlinear_arith)
            requires
                0 < cutoff < 2_014_732,
                ONE == 1_000_000,
        ;
        (ONE * cutoff) / worst
    }
}

/// What is asked of a game for it to count in a table: the characters of
/// the player and of the opponent, and the least value of the player's
/// rating.
pub struct Pairing {
    pub character: int,
    pub opponent: int,
    pub min_value: int,
}

/// The tally with the games of one snapshot added: the game as side A
/// played it, then the game as side B played it, each where it fits the
/// pairing.
pub open spec fn plus_snapshot(tally: Tally, snapshot: RatingSnapshot, pairing: Pairing, cutoff: int)
    -> Tally {
    let weight = weight_of(snapshot, cutoff);
    let game = snapshot.game;
    let with_a = if game.char_a == pairing.character && game.char_b == pairing.opponent
        && snapshot.rating_a.value >= pairing.min_value {
        tally.plus(game.winner == Winner::A, weight)
    } else {
        tally
    };
    if game.char_b == pairing.character && game.char_a == pairing.opponent
        && snapshot.rating_b.value >= pairing.min_value {
        with_a.plus(game.winner == Winner::B, weight)
    } else {
        with_a
    }
}

/// The tally of a pairing over a history of snapshots.
pub open spec fn tally_of(snapshots: Seq<RatingSnapshot>, pairing: Pairing, cutoff: int) -> Tally
    decreases snapshots.len(),
{
    if snapshots.len() == 0 {
        Tally::zero()
    } else {
        plus_snapshot(
            tally_of(snapshots.drop_last(), pairing, cutoff),
            snapshots.last(),
            pairing,
            cutoff,
        )
    }
}

/// The place of a pairing in a table of `size` characters.
pub open spec fn slot(character: int, opponent: int, size: int) -> int {
    character * size + opponent
}

/// Every pairing has its own place in the table.
pub proof fn lemma_slot(character: int, opponent: int, size: int)
    requires
        0 <= character < size,
        0 <= opponent < size,
    ensures
        0 <= slot(character, opponent, size) < size * size,
        forall|c: int, o: int|
            0 <= c < size && 0 <= o < size && (c != character || o != opponent) ==> #[trigger] slot(
                c,
                o,
                size,
            ) != slot(character, opponent, size),
{
    assert(0 <= character * size + opponent < size * size) by (nonlinear_arith)
        requires
            0 <= character < size,
            0 <= opponent < size,
    ;
    assert forall|c: int, o: int|
        0 <= c < size && 0 <= o < size && (c != character || o != opponent) implies #[trigger] slot(
        c,
        o,
        size,
    ) != slot(character, opponent, size) by {
        assert(c * size + o != character * size + opponent) by (nonlinear_arith)
            requires
                0 <= c < size,
                0 <= o < size,
                0 <= character < size,
                0 <= opponent < size,
                c != character || o != opponent,
        ;
    }
}

/// The matchups of every character against every character.
#[derive(Debug)]
pub struct MatchupTable {
    pub size: usize,
    pub cells: Vec<MatchupCounts>,
}

impl MatchupTable {
    /// Whether the table has a cell for every pairing.
    pub open spec fn wf(self) -> bool {
        self.size <= MAX_CHARACTERS && self.cells@.len() == self.size * self.size
    }

    /// The cell of a pairing.
    pub open spec fn at(self, character: int, opponent: int) -> MatchupCounts {
        self.cells@[slot(character, opponent, self.size as int)]
    }

    /// Whether the table is that of a history: every cell holds the tally
    /// of its pairing among the games of players rated `min_value` or more.
    pub open spec fn tallies(self, snapshots: Seq<RatingSnapshot>, min_value: int, cutoff: int)
        -> bool {
        &&& self.wf()
        &&& forall|c: int, o: int|
            0 <= c < self.size && 0 <= o < self.size ==> (#[trigger] self.at(c, o))@ == tally_of(
                snapshots,
                Pairing { character: c, opponent: o, min_value },
                cutoff,
            )
    }

    /// Whether no cell counts more games than a history can hold, or
    /// weighs a game higher than one.
    pub open spec fn bounded(self) -> bool {
        forall|c: int, o: int|
            0 <= c < self.size && 0 <= o < self.size ==> (#[trigger] self.at(c, o))@.within(
                2 * MAX_HISTORY,
            )
    }

    /// A table of `size` characters without games.
    pub fn new(size: usize) -> (table: MatchupTable)
        requires
            size <= MAX_CHARACTERS,
        ensures
            table.wf(),
            table.size == size,
            forall|i: int| 0 <= i < table.cells@.len() ==> (#[trigger] table.cells@[i])@ == Tally::zero(),
    {
        assert(size * size <= MAX_CHARACTERS * MAX_CHARACTERS) by (nonlinear_arith)
            requires
                size <= MAX_CHARACTERS,
        ;
        let total = size * size;
        let mut cells: Vec<MatchupCounts> = Vec::new();
        while cells.len() < total
            invariant
                cells@.len() <= total,
                forall|i: int| 0 <= i < cells@.len() ==> (#[trigger] cells@[i])@ == Tally::zero(),
            decreases total - cells@.len(),
        {
            cells.push(MatchupCounts::zero());
        }
        MatchupTable { size, cells }
    }

    /// The counts of a pairing.
    pub fn get(&self, character: usize, opponent: usize) -> (res: MatchupCounts)
        requires
            self.wf(),
            character < self.size,
            opponent < self.size,
        ensures
            res == self.at(character as int, opponent as int),
    {
        proof {
            lemma_slot(character as int, opponent as int, self.size as int);
            assert(self.size * self.size <= MAX_CHARACTERS * MAX_CHARACTERS) by (nonlinear_arith)
                requires
                    self.size <= MAX_CHARACTERS,
            ;
        }
        self.cells[character * self.size + opponent]
    }

    /// Replaces the counts of a pairing.
    fn put(&mut self, character: usize, opponent: usize, counts: MatchupCounts)
        requires
            old(self).wf(),
            character < old(self).size,
            opponent < old(self).size,
        ensures
            final(self).wf(),
            final(self).size == old(self).size,
            final(self).at(character as int, opponent as int) == counts,
            forall|c: int, o: int|
                0 <= c < old(self).size && 0 <= o < old(self).size && (c != character || o
                    != opponent) ==> #[trigger] final(self).at(c, o) == old(self).at(c, o),
    {
        proof {
            lemma_slot(character as int, opponent as int, self.size as int);
            assert(self.size * self.size <= MAX_CHARACTERS * MAX_CHARACTERS) by (nonlinear_arith)
                requires
                    self.size <= MAX_CHARACTERS,
            ;
        }
        let index = character * self.size + opponent;
        self.cells.set(index, counts);
        proof {
            assert forall|c: int, o: int|
                0 <= c < old(self).size && 0 <= o < old(self).size && (c != character || o
                    != opponent) implies #[trigger] self.at(c, o) == old(self).at(c, o) by {
                lemma_slot(c, o, self.size as int);
                assert(slot(c, o, self.size as int) != slot(
                    character as int,
                    opponent as int,
                    self.size as int,
                ));
            }
        }
    }
}

/// Where every rating reaches the least value, the two cells of a pairing
/// mirror each other: what one character won against another, the other
/// lost against it, game by game and weight by weight.
pub proof fn law_matchups_mirror(
    snapshots: Seq<RatingSnapshot>,
    character: int,
    opponent: int,
    min_value: int,
    cutoff: int,
)
    requires
        character != opponent,
        forall|i: int|
            0 <= i < snapshots.len() ==> (#[trigger] snapshots[i]).rating_a.value >= min_value
                && snapshots[i].rating_b.value >= min_value,
    ensures
        tally_of(snapshots, Pairing { character, opponent, min_value }, cutoff).wins == tally_of(
            snapshots,
            Pairing { character: opponent, opponent: character, min_value },
            cutoff,
        ).losses,
        tally_of(snapshots, Pairing { character, opponent, min_value }, cutoff).wins_adjusted
            == tally_of(
            snapshots,
            Pairing { character: opponent, opponent: character, min_value },
            cutoff,
        ).losses_adjusted,
    decreases snapshots.len(),
{
    if snapshots.len() > 0 {
        let rest = snapshots.drop_last();
        assert forall|i: int| 0 <= i < rest.len() implies (#[trigger] rest[i]).rating_a.value
            >= min_value && rest[i].rating_b.value >= min_value by {
            assert(rest[i] == snapshots[i]);
        }
        law_matchups_mirror(rest, character, opponent, min_value, cutoff);
        assert(snapshots[snapshots.len() - 1] == snapshots.last());
    }
}

/// No tally counts more games than twice the snapshots, and every
/// adjusted count is at most the real one.
pub proof fn lemma_tally_within(snapshots: Seq<RatingSnapshot>, pairing: Pairing, cutoff: int)
    requires
        cutoff > 0,
        snapshots_wf(snapshots),
    ensures
        tally_of(snapshots, pairing, cutoff).within(2 * (snapshots.len() as int)),
    decreases snapshots.len(),
{
    if snapshots.len() > 0 {
        let rest = snapshots.drop_last();
        assert forall|i: int| 0 <= i < rest.len() implies (#[trigger] rest[i]).wf() by {
            assert(rest[i] == snapshots[i]);
        }
        lemma_tally_within(rest, pairing, cutoff);
        lemma_weight_bounds(snapshots.last(), cutoff);
    }
}

/// A weight lies between zero and one.
pub proof fn lemma_weight_bounds(snapshot: RatingSnapshot, cutoff: int)
    requires
        cutoff > 0,
        snapshot.rating_a.deviation >= 0,
        snapshot.rating_b.deviation >= 0,
    ensures
        0 <= weight_of(snapshot, cutoff) <= ONE,
{
    let worst = if snapshot.rating_a.deviation >= snapshot.rating_b.deviation {
        snapshot.rating_a.deviation as int
    } else {
        snapshot.rating_b.deviation as int
    };
    if worst > cutoff {
        assert(0 <= (ONE * cutoff) / worst <= ONE) by (nonlinear_arith)
            requires
                0 < cutoff < worst,
        ;
    }
}

/// Whether a character identifier names one of `size` characters.
fn in_table(char_id: i64, size: usize) -> (res: bool)
    ensures
        res == (0 <= char_id < size),
{
    0 <= char_id && (char_id as u64) < size as u64
}

/// Builds the matchup table of a history for `size` characters: for every
/// pairing the wins and losses of the first character against the second,
/// as they are and weighted by confidence, over the games in which the
/// player's rating was `min_value` or more.
pub fn tally_matchups(
    snapshots: &Vec<RatingSnapshot>,
    size: usize,
    min_value: i64,
    cutoff: i64,
) -> (table: MatchupTable)
    requires
        snapshots_wf(snapshots@),
        snapshots@.len() <= MAX_HISTORY,
        size <= MAX_CHARACTERS,
        0 < cutoff,
    ensures
        table.size == size,
        table.tallies(snapshots@, min_value as int, cutoff as int),
        table.bounded(),
{
    let mut table = MatchupTable::new(size);
    let mut i: usize = 0;
    proof {
        assert forall|c: int, o: int| 0 <= c < size && 0 <= o < size implies (#[trigger] table.at(
            c,
            o,
        ))@ == Tally::zero() by {
            lemma_slot(c, o, size as int);
        }
    }
    while i < snapshots.len()
        invariant
            snapshots_wf(snapshots@),
            snapshots@.len() <= MAX_HISTORY,
            0 < cutoff,
            i <= snapshots@.len(),
            table.size == size,
            table.tallies(snapshots@.take(i as int), min_value as int, cutoff as int),
        decreases snapshots@.len() - i,
    {
        let snapshot = snapshots[i];
        let ghost before = table;
        let ghost seen = snapshots@.take(i as int);
        proof {
            assert(snapshots@.take(i + 1).drop_last() == seen);
            assert(snapshots@.take(i + 1).last() == snapshot);
            assert(snapshot.wf());
            assert forall|k: int| 0 <= k < seen.len() implies (#[trigger] seen[k]).wf() by {
                assert(seen[k] == snapshots@[k]);
            }
        }
        if in_table(snapshot.game.char_a, size) && in_table(snapshot.game.char_b, size) {
            let a = snapshot.game.char_a as usize;
            let b = snapshot.game.char_b as usize;
            let weight = weigh(&snapshot, cutoff);
            if snapshot.rating_a.value >= min_value {
                let held = table.get(a, b);
                proof {
                    lemma_tally_within(
                        seen,
                        Pairing { character: a as int, opponent: b as int, min_value: min_value as int },
                        cutoff as int,
                    );
                }
                table.put(a, b, held.plus(matches!(snapshot.game.winner, Winner::A), weight));
            }
            if snapshot.rating_b.value >= min_value {
                let held = table.get(b, a);
                proof {
                    lemma_tally_within(
                        seen,
                        Pairing { character: b as int, opponent: a as int, min_value: min_value as int },
                        cutoff as int,
                    );
                }
                table.put(b, a, held.plus(matches!(snapshot.game.winner, Winner::B), weight));
            }
        }
        proof {
            assert forall|c: int, o: int| 0 <= c < size && 0 <= o < size implies (#[trigger] table.at(
                c,
                o,
            ))@ == tally_of(
                snapshots@.take(i + 1),
                Pairing { character: c, opponent: o, min_value: min_value as int },
                cutoff as int,
            ) by {
                assert(before.at(c, o)@ == tally_of(
                    seen,
                    Pairing { character: c, opponent: o, min_value: min_value as int },
                    cutoff as int,
                ));
            }
        }
        i = i + 1;
    }
    proof {
        assert(snapshots@.take(i as int) == snapshots@);
        assert forall|c: int, o: int| 0 <= c < size && 0 <= o < size implies (#[trigger] table.at(
            c,
            o,
        ))@.within(2 * MAX_HISTORY) by {
            lemma_tally_within(
                snapshots@,
                Pairing { character: c, opponent: o, min_value: min_value as int },
                cutoff as int,
            );
        }
    }
    table
}

/// The tally of one player and character against the opponents of one
/// character, with the games of one snapshot added.
pub open spec fn plus_player_snapshot(
    tally: Tally,
    snapshot: RatingSnapshot,
    id: int,
    char_id: int,
    opponent: int,
    cutoff: int,
) -> Tally {
    let weight = weight_of(snapshot, cutoff);
    let game = snapshot.game;
    let with_a = if game.id_a == id && game.char_a == char_id && game.char_b == opponent {
        tally.plus(game.winner == Winner::A, weight)
    } else {
        tally
    };
    if game.id_b == id && game.char_b == char_id && game.char_a == opponent {
        with_a.plus(game.winner == Winner::B, weight)
    } else {
        with_a
    }
}

/// The tally of one player and character against the opponents of one
/// character, over a history of snapshots.
pub open spec fn player_tally_of(
    snapshots: Seq<RatingSnapshot>,
    id: int,
    char_id: int,
    opponent: int,
    cutoff: int,
) -> Tally
    decreases snapshots.len(),
{
    if snapshots.len() == 0 {
        Tally::zero()
    } else {
        plus_player_snapshot(
            player_tally_of(snapshots.drop_last(), id, char_id, opponent, cutoff),
            snapshots.last(),
            id,
            char_id,
            opponent,
            cutoff,
        )
    }
}

/// No tally of a player counts more games than twice the snapshots.
pub proof fn lemma_player_tally_within(
    snapshots: Seq<RatingSnapshot>,
    id: int,
    char_id: int,
    opponent: int,
    cutoff: int,
)
    requires
        cutoff > 0,
        snapshots_wf(snapshots),
    ensures
        player_tally_of(snapshots, id, char_id, opponent, cutoff).within(
            2 * (snapshots.len() as int),
        ),
    decreases snapshots.len(),
{
    if snapshots.len() > 0 {
        let rest = snapshots.drop_last();
        assert forall|i: int| 0 <= i < rest.len() implies (#[trigger] rest[i]).wf() by {
            assert(rest[i] == snapshots[i]);
        }
        lemma_player_tally_within(rest, id, char_id, opponent, cutoff);
        lemma_weight_bounds(snapshots.last(), cutoff);
    }
}

/// The matchups of one player and character: for each of `size`
/// characters the wins and losses against opponents who played it.
pub fn tally_player(
    snapshots: &Vec<RatingSnapshot>,
    id: i64,
    char_id: i64,
    size: usize,
    cutoff: i64,
) -> (row: Vec<MatchupCounts>)
    requires
        snapshots_wf(snapshots@),
        snapshots@.len() <= MAX_HISTORY,
        0 < cutoff,
    ensures
        row@.len() == size,
        forall|o: int|
            0 <= o < size ==> (#[trigger] row@[o])@ == player_tally_of(
                snapshots@,
                id as int,
                char_id as int,
                o,
                cutoff as int,
            ),
        forall|o: int| 0 <= o < size ==> (#[trigger] row@[o])@.within(2 * MAX_HISTORY),
{
    let mut row: Vec<MatchupCounts> = Vec::new();
    while row.len() < size
        invariant
            row@.len() <= size,
            forall|o: int| 0 <= o < row@.len() ==> (#[trigger] row@[o])@ == Tally::zero(),
        decreases size - row@.len(),
    {
        row.push(MatchupCounts::zero());
    }
    let mut i: usize = 0;
    while i < snapshots.len()
        invariant
            snapshots_wf(snapshots@),
            snapshots@.len() <= MAX_HISTORY,
            0 < cutoff,
            i <= snapshots@.len(),
            row@.len() == size,
            forall|o: int|
                0 <= o < size ==> (#[trigger] row@[o])@ == player_tally_of(
                    snapshots@.take(i as int),
                    id as int,
                    char_id as int,
                    o,
                    cutoff as int,
                ),
        decreases snapshots@.len() - i,
    {
        let snapshot = snapshots[i];
        let ghost before = row@;
        let ghost seen = snapshots@.take(i as int);
        proof {
            assert(snapshots@.take(i + 1).drop_last() == seen);
            assert(snapshots@.take(i + 1).last() == snapshot);
            assert(snapshot.wf());
            assert forall|k: int| 0 <= k < seen.len() implies (#[trigger] seen[k]).wf() by {
                assert(seen[k] == snapshots@[k]);
            }
        }
        let weight = weigh(&snapshot, cutoff);
        if snapshot.game.id_a == id && snapshot.game.char_a == char_id && in_table(
            snapshot.game.char_b,
            size,
        ) {
            let o = snapshot.game.char_b as usize;
            proof {
                lemma_player_tally_within(seen, id as int, char_id as int, o as int, cutoff as int);
            }
            let held = row[o];
            row.set(o, held.plus(matches!(snapshot.game.winner, Winner::A), weight));
        }
        if snapshot.game.id_b == id && snapshot.game.char_b == char_id && in_table(
            snapshot.game.char_a,
            size,
        ) {
            let o = snapshot.game.char_a as usize;
            proof {
                lemma_player_tally_within(seen, id as int, char_id as int, o as int, cutoff as int);
            }
            let held = row[o];
            row.set(o, held.plus(matches!(snapshot.game.winner, Winner::B), weight));
        }
        proof {
            assert forall|o: int| 0 <= o < size implies (#[trigger] row@[o])@ == player_tally_of(
                snapshots@.take(i + 1),
                id as int,
                char_id as int,
                o,
                cutoff as int,
            ) by {
                assert(before[o]@ == player_tally_of(
                    seen,
                    id as int,
                    char_id as int,
                    o,
                    cutoff as int,
                ));
            }
        }
        i = i + 1;
    }
    proof {
        assert(snapshots@.take(i as int) == snapshots@);
        assert forall|o: int| 0 <= o < size implies (#[trigger] row@[o])@.within(
            2 * MAX_HISTORY,
        ) by {
            lemma_player_tally_within(snapshots@, id as int, char_id as int, o, cutoff as int);
        }
    }
    row
}

/// How two characters fare against each other across all players: the
/// games between them in which both ratings were established, the wins of
/// the first character, and the number of different pairs of players that
/// met.
#[derive(Clone, Copy, Debug, PartialEq, Eq, Structural)]
pub struct VersusCounts {
    pub wins: u64,
    pub games: u64,
    pub pairs: u64,
}

/// A game between two characters: who played the first character, who
/// played the second, and whether the first won.
pub struct Meeting {
    pub first: i64,
    pub second: i64,
    pub first_won: bool,
}

/// The meeting of the characters `a` and `b` that a snapshot records, if
/// it records one with both deviations below the cutoff.
pub open spec fn meeting_of(snapshot: RatingSnapshot, a: int, b: int, cutoff: int) -> Option<
    Meeting,
> {
    let game = snapshot.game;
    if !snapshot.confident(cutoff) {
        None
    } else if game.char_a == a && game.char_b == b {
        Some(Meeting { first: game.id_a, second: game.id_b, first_won: game.winner == Winner::A })
    } else if game.char_a == b && game.char_b == a {
        Some(Meeting { first: game.id_b, second: game.id_a, first_won: game.winner == Winner::B })
    } else {
        None
    }
}

/// The number of meetings of two characters in a history.
pub open spec fn versus_games(snapshots: Seq<RatingSnapshot>, a: int, b: int, cutoff: int) -> int
    decreases snapshots.len(),
{
    if snapshots.len() == 0 {
        0
    } else {
        versus_games(snapshots.drop_last(), a, b, cutoff) + if meeting_of(
            snapshots.last(),
            a,
            b,
            cutoff,
        ) is Some {
            1int
        } else {
            0int
        }
    }
}

/// The number of meetings of two characters that the first won.
pub open spec fn versus_wins(snapshots: Seq<RatingSnapshot>, a: int, b: int, cutoff: int) -> int
    decreases snapshots.len(),
{
    if snapshots.len() == 0 {
        0
    } else {
        versus_wins(snapshots.drop_last(), a, b, cutoff) + if meeting_of(
            snapshots.last(),
            a,
            b,
            cutoff,
        ) matches Some(meeting) && meeting.first_won {
            1int
        } else {
            0int
        }
    }
}

/// The pairs of players that met with the two characters, each pair once,
/// in the order in which they first met.
pub open spec fn versus_pairs(snapshots: Seq<RatingSnapshot>, a: int, b: int, cutoff: int) -> Seq<
    (i64, i64),
>
    decreases snapshots.len(),
{
    if snapshots.len() == 0 {
        Seq::empty()
    } else {
        let rest = versus_pairs(snapshots.drop_last(), a, b, cutoff);
        match meeting_of(snapshots.last(), a, b, cutoff) {
            Some(meeting) => if rest.contains((meeting.first, meeting.second)) {
                rest
            } else {
                rest.push((meeting.first, meeting.second))
            },
            None => rest,
        }
    }
}

/// The counts of meetings are bounded by the history, the list of pairs
/// names no pair twice, and there are no more pairs than meetings.
pub proof fn lemma_versus_bounds(snapshots: Seq<RatingSnapshot>, a: int, b: int, cutoff: int)
    ensures
        0 <= versus_wins(snapshots, a, b, cutoff) <= versus_games(snapshots, a, b, cutoff)
            <= snapshots.len(),
        versus_pairs(snapshots, a, b, cutoff).len() <= versus_games(snapshots, a, b, cutoff),
        versus_pairs(snapshots, a, b, cutoff).no_duplicates(),
    decreases snapshots.len(),
{
    if snapshots.len() > 0 {
        lemma_versus_bounds(snapshots.drop_last(), a, b, cutoff);
    }
}

/// The two characters swapped meet as often, and each meeting is won by
/// one of them: the wins of both add up to the games.
pub proof fn law_versus_symmetric(snapshots: Seq<RatingSnapshot>, a: int, b: int, cutoff: int)
    requires
        a != b,
    ensures
        versus_games(snapshots, a, b, cutoff) == versus_games(snapshots, b, a, cutoff),
        versus_wins(snapshots, a, b, cutoff) + versus_wins(snapshots, b, a, cutoff)
            == versus_games(snapshots, a, b, cutoff),
    decreases snapshots.len(),
{
    if snapshots.len() > 0 {
        law_versus_symmetric(snapshots.drop_last(), a, b, cutoff);
    }
}

/// Whether a list of pairs names the given pair.
fn names_pair(pairs: &Vec<(i64, i64)>, pair: (i64, i64)) -> (res: bool)
    ensures
        res == pairs@.contains(pair),
{
    let mut i: usize = 0;
    while i < pairs.len()
        invariant
            i <= pairs@.len(),
            forall|k: int| 0 <= k < i ==> pairs@[k] != pair,
        decreases pairs@.len() - i,
    {
        if pairs[i].0 == pair.0 && pairs[i].1 == pair.1 {
            assert(pairs@[i as int] == pair);
            return true;
        }
        i = i + 1;
    }
    false
}

/// Counts the meetings of the characters `a` and `b` in a history.
pub fn versus(snapshots: &Vec<RatingSnapshot>, a: i64, b: i64, cutoff: i64) -> (counts:
    VersusCounts)
    ensures
        counts.games == versus_games(snapshots@, a as int, b as int, cutoff as int),
        counts.wins == versus_wins(snapshots@, a as int, b as int, cutoff as int),
        counts.pairs == versus_pairs(snapshots@, a as int, b as int, cutoff as int).len(),
{
    let mut wins: u64 = 0;
    let mut games: u64 = 0;
    let mut pairs: Vec<(i64, i64)> = Vec::new();
    let mut i: usize = 0;
    while i < snapshots.len()
        invariant
            i <= snapshots@.len(),
            games == versus_games(snapshots@.take(i as int), a as int, b as int, cutoff as int),
            wins == versus_wins(snapshots@.take(i as int), a as int, b as int, cutoff as int),
            pairs@ == versus_pairs(snapshots@.take(i as int), a as int, b as int, cutoff as int),
        decreases snapshots@.len() - i,
    {
        let snapshot = snapshots[i];
        proof {
            assert(snapshots@.take(i + 1).drop_last() == snapshots@.take(i as int));
            assert(snapshots@.take(i + 1).last() == snapshot);
            lemma_versus_bounds(snapshots@.take(i as int), a as int, b as int, cutoff as int);
        }
        if snapshot.is_confident(cutoff) {
            let game = snapshot.game;
            if game.char_a == a && game.char_b == b {
                games = games + 1;
                if matches!(game.winner, Winner::A) {
                    wins = wins + 1;
                }
                if !names_pair(&pairs, (game.id_a, game.id_b)) {
                    pairs.push((game.id_a, game.id_b));
                }
            } else if game.char_a == b && game.char_b == a {
                games = games + 1;
                if matches!(game.winner, Winner::B) {
                    wins = wins + 1;
                }
                if !names_pair(&pairs, (game.id_b, game.id_a)) {
                    pairs.push((game.id_b, game.id_a));
                }
            }
        }
        i = i + 1;
    }
    proof {
        assert(snapshots@.take(i as int) == snapshots@);
    }
    VersusCounts { wins, games, pairs: pairs.len() as u64 }
}

} // verus!
