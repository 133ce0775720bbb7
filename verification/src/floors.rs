//! The population of the floors: how many games were played on each floor
//! and how many players were last seen there.

use vstd::prelude::*;
use crate::records::RatingSnapshot;

verus! {

/// The number of floors that are told apart: the top tier and the floors
/// one to ten.
pub const FLOOR_SLOTS: usize = 11;

/// The tag under which the top tier is reported.
pub const TOP_FLOOR: i64 = 99;

/// The slot of a floor tag: the floor itself for the floors one to ten,
/// zero, the top tier, for every other tag.
pub open spec fn floor_slot(floor: int) -> int {
    if 1 <= floor <= 10 {
        floor
    } else {
        0
    }
}

/// Computes [`floor_slot`].
pub fn slot_of(floor: i64) -> (slot: usize)
    ensures
        slot == floor_slot(floor as int),
        slot < FLOOR_SLOTS,
{
    if 1 <= floor && floor <= 10 {
        floor as usize
    } else {
        0
    }
}

/// The number of matches of a history that were played on a floor.
pub open spec fn floor_games(snapshots: Seq<RatingSnapshot>, slot: int) -> int
    decreases snapshots.len(),
{
    if snapshots.len() == 0 {
        0
    } else {
        floor_games(snapshots.drop_last(), slot) + if floor_slot(snapshots.last().game.floor as int)
            == slot {
            1int
        } else {
            0int
        }
    }
}

/// The floor of the last match of a history in which a player took part.
pub open spec fn latest_floor(snapshots: Seq<RatingSnapshot>, id: int) -> Option<i64>
    decreases snapshots.len(),
{
    if snapshots.len() == 0 {
        None
    } else if snapshots.last().game.id_a == id || snapshots.last().game.id_b == id {
        Some(snapshots.last().game.floor)
    } else {
        latest_floor(snapshots.drop_last(), id)
    }
}

/// A list of players with one more, unless the list names the player.
pub open spec fn with_player(players: Seq<i64>, id: i64) -> Seq<i64> {
    if players.contains(id) {
        players
    } else {
        players.push(id)
    }
}

/// The players of a history, each once, in the order in which they first
/// played.
pub open spec fn players_seen(snapshots: Seq<RatingSnapshot>) -> Seq<i64>
    decreases snapshots.len(),
{
    if snapshots.len() == 0 {
        Seq::empty()
    } else {
        with_player(
            with_player(players_seen(snapshots.drop_last()), snapshots.last().game.id_a),
            snapshots.last().game.id_b,
        )
    }
}

/// How many of the given players were last seen on a floor.
pub open spec fn count_on_floor(players: Seq<i64>, snapshots: Seq<RatingSnapshot>, slot: int)
    -> int
    decreases players.len(),
{
    if players.len() == 0 {
        0
    } else {
        count_on_floor(players.drop_last(), snapshots, slot) + if latest_floor(
            snapshots,
            players.last() as int,
        ) matches Some(floor) && floor_slot(floor as int) == slot {
            1int
        } else {
            0int
        }
    }
}

/// The number of players of a history who were last seen on a floor.
pub open spec fn floor_players(snapshots: Seq<RatingSnapshot>, slot: int) -> int {
    count_on_floor(players_seen(snapshots), snapshots, slot)
}

/// The counts of a floor are bounded by the history and the players.
pub proof fn lemma_floor_bounds(players: Seq<i64>, snapshots: Seq<RatingSnapshot>, slot: int)
    ensures
        0 <= count_on_floor(players, snapshots, slot) <= players.len(),
        0 <= floor_games(snapshots, slot) <= snapshots.len(),
    decreases players.len() + snapshots.len(),
{
    if players.len() > 0 {
        lemma_floor_bounds(players.drop_last(), snapshots, slot);
    } else if snapshots.len() > 0 {
        lemma_floor_bounds(players, snapshots.drop_last(), slot);
    }
}

/// The list of players names nobody twice, and names everybody who took
/// part in a match.
pub proof fn lemma_players_seen(snapshots: Seq<RatingSnapshot>)
    ensures
        players_seen(snapshots).no_duplicates(),
        players_seen(snapshots).len() <= 2 * snapshots.len(),
        forall|k: int|
            0 <= k < snapshots.len() ==> players_seen(snapshots).contains(
                (#[trigger] snapshots[k]).game.id_a,
            ) && players_seen(snapshots).contains(snapshots[k].game.id_b),
    decreases snapshots.len(),
{
    if snapshots.len() > 0 {
        let rest = snapshots.drop_last();
        lemma_players_seen(rest);
        let before = players_seen(rest);
        let a = snapshots.last().game.id_a;
        let b = snapshots.last().game.id_b;
        let mid = with_player(before, a);
        let all = with_player(mid, b);
        assert(mid.contains(a)) by {
            if !before.contains(a) {
                assert(mid[before.len() as int] == a);
            }
        }
        assert(all.contains(b)) by {
            if !mid.contains(b) {
                assert(all[mid.len() as int] == b);
            }
        }
        assert forall|x: i64| before.contains(x) implies all.contains(x) by {
            let i = choose|i: int| 0 <= i < before.len() && before[i] == x;
            assert(mid[i] == x);
            assert(all[i] == x);
        }
        assert(all.contains(a)) by {
            let i = choose|i: int| 0 <= i < mid.len() && mid[i] == a;
            assert(all[i] == a);
        }
        assert forall|k: int| 0 <= k < snapshots.len() implies all.contains(
            (#[trigger] snapshots[k]).game.id_a,
        ) && all.contains(snapshots[k].game.id_b) by {
            if k < rest.len() {
                assert(snapshots[k] == rest[k]);
            }
        }
    }
}

/// One line of the floor distribution: the floor's tag, the players last
/// seen there, and the games played there.
#[derive(Clone, Copy, Debug, PartialEq, Eq, Structural)]
pub struct FloorCount {
    pub floor: i64,
    pub player_count: u64,
    pub game_count: u64,
}

/// The tag of the floor on a line of the distribution: the floors one to
/// ten, then the top tier.
pub open spec fn floor_of_line(line: int) -> int {
    if line < 10 {
        line + 1
    } else {
        TOP_FLOOR as int
    }
}

/// The position of a player in a list.
fn position(players: &Vec<i64>, id: i64) -> (found: Option<usize>)
    ensures
        found is Some <==> players@.contains(id),
        found matches Some(index) ==> index < players@.len() && players@[index as int] == id,
{
    let mut i: usize = 0;
    while i < players.len()
        invariant
            i <= players@.len(),
            forall|k: int| 0 <= k < i ==> players@[k] != id,
        decreases players@.len() - i,
    {
        if players[i] == id {
            return Some(i);
        }
        i = i + 1;
    }
    None
}

/// Adds a player to a list that names nobody twice, unless the list names
/// the player already.
pub fn remember(players: &mut Vec<i64>, id: i64)
    ensures
        final(players)@ == with_player(old(players)@, id),
{
    if position(players, id).is_none() {
        players.push(id);
    }
}

/// Notes that a player was seen on a floor.
fn note(players: &mut Vec<i64>, floors: &mut Vec<i64>, id: i64, floor: i64)
    requires
        old(players)@.len() == old(floors)@.len(),
        old(players)@.no_duplicates(),
    ensures
        final(players)@ == with_player(old(players)@, id),
        final(floors)@.len() == final(players)@.len(),
        final(players)@.no_duplicates(),
        forall|k: int|
            0 <= k < final(players)@.len() && final(players)@[k] == id
                ==> #[trigger] final(floors)@[k] == floor,
        forall|k: int|
            0 <= k < final(players)@.len() && final(players)@[k] != id
                ==> #[trigger] final(floors)@[k] == old(floors)@[k],
{
    match position(players, id) {
        Some(index) => {
            floors.set(index, floor);
        },
        None => {
            players.push(id);
            floors.push(floor);
        },
    }
}

/// The distribution of games and players over the floors: one line for
/// each of the floors one to ten and a last line for the top tier.
pub fn floor_distribution(snapshots: &Vec<RatingSnapshot>) -> (lines: Vec<FloorCount>)
    requires
        snapshots@.len() <= 0x3FFF_FFFF,
    ensures
        lines@.len() == FLOOR_SLOTS,
        forall|k: int|
            0 <= k < FLOOR_SLOTS ==> (#[trigger] lines@[k]) == (FloorCount {
                floor: floor_of_line(k) as i64,
                player_count: floor_players(snapshots@, floor_slot(floor_of_line(k))) as u64,
                game_count: floor_games(snapshots@, floor_slot(floor_of_line(k))) as u64,
            }),
{
    let mut players: Vec<i64> = Vec::new();
    let mut floors: Vec<i64> = Vec::new();
    let mut games: Vec<u64> = Vec::new();
    let mut seen: Vec<u64> = Vec::new();
    while games.len() < FLOOR_SLOTS
        invariant
            games@.len() <= FLOOR_SLOTS,
            seen@.len() == games@.len(),
            forall|s: int| 0 <= s < games@.len() ==> games@[s] == 0 && seen@[s] == 0,
        decreases FLOOR_SLOTS - games@.len(),
    {
        games.push(0);
        seen.push(0);
    }
    let mut i: usize = 0;
    while i < snapshots.len()
        invariant
            i <= snapshots@.len(),
            snapshots@.len() <= 0x3FFF_FFFF,
            games@.len() == FLOOR_SLOTS,
            players@ == players_seen(snapshots@.take(i as int)),
            players@.no_duplicates(),
            floors@.len() == players@.len(),
            forall|k: int|
                0 <= k < players@.len() ==> Some(#[trigger] floors@[k]) == latest_floor(
                    snapshots@.take(i as int),
                    players@[k] as int,
                ),
            forall|s: int|
                0 <= s < FLOOR_SLOTS ==> #[trigger] games@[s] == floor_games(
                    snapshots@.take(i as int),
                    s,
                ),
        decreases snapshots@.len() - i,
    {
        let snapshot = snapshots[i];
        let ghost before = games@;
        let ghost old_players = players@;
        let ghost old_floors = floors@;
        proof {
            assert(snapshots@.take(i + 1).drop_last() == snapshots@.take(i as int));
            assert(snapshots@.take(i + 1).last() == snapshot);
        }
        let slot = slot_of(snapshot.game.floor);
        proof {
            lemma_floor_bounds(Seq::empty(), snapshots@.take(i as int), slot as int);
        }
        let held = games[slot];
        games.set(slot, held + 1);
        note(&mut players, &mut floors, snapshot.game.id_a, snapshot.game.floor);
        let ghost mid_players = players@;
        let ghost mid_floors = floors@;
        note(&mut players, &mut floors, snapshot.game.id_b, snapshot.game.floor);
        proof {
            assert forall|s: int| 0 <= s < FLOOR_SLOTS implies #[trigger] games@[s] == floor_games(
                snapshots@.take(i + 1),
                s,
            ) by {
                assert(before[s] == floor_games(snapshots@.take(i as int), s));
            }
            assert forall|k: int| 0 <= k < players@.len() implies Some(#[trigger] floors@[k])
                == latest_floor(snapshots@.take(i + 1), players@[k] as int) by {
                if k < mid_players.len() {
                    assert(players@[k] == mid_players[k]);
                    if k < old_players.len() {
                        assert(mid_players[k] == old_players[k]);
                        assert(Some(old_floors[k]) == latest_floor(
                            snapshots@.take(i as int),
                            old_players[k] as int,
                        ));
                    }
                }
            }
        }
        i = i + 1;
    }
    proof {
        assert(snapshots@.take(i as int) == snapshots@);
        lemma_players_seen(snapshots@);
    }
    let mut p: usize = 0;
    while p < players.len()
        invariant
            p <= players@.len(),
            players@.len() <= 2 * snapshots@.len(),
            snapshots@.len() <= 0x3FFF_FFFF,
            floors@.len() == players@.len(),
            seen@.len() == FLOOR_SLOTS,
            forall|k: int|
                0 <= k < players@.len() ==> Some(#[trigger] floors@[k]) == latest_floor(
                    snapshots@,
                    players@[k] as int,
                ),
            forall|s: int|
                0 <= s < FLOOR_SLOTS ==> #[trigger] seen@[s] == count_on_floor(
                    players@.take(p as int),
                    snapshots@,
                    s,
                ),
        decreases players@.len() - p,
    {
        let ghost before = seen@;
        proof {
            assert(players@.take(p + 1).drop_last() == players@.take(p as int));
            assert(players@.take(p + 1).last() == players@[p as int]);
            assert(Some(floors@[p as int]) == latest_floor(snapshots@, players@[p as int] as int));
        }
        let slot = slot_of(floors[p]);
        proof {
            lemma_floor_bounds(players@.take(p as int), snapshots@, slot as int);
        }
        let held = seen[slot];
        seen.set(slot, held + 1);
        proof {
            assert forall|s: int| 0 <= s < FLOOR_SLOTS implies #[trigger] seen@[s]
                == count_on_floor(players@.take(p + 1), snapshots@, s) by {
                assert(before[s] == count_on_floor(players@.take(p as int), snapshots@, s));
            }
        }
        p = p + 1;
    }
    proof {
        assert(players@.take(p as int) == players@);
    }
    let mut lines: Vec<FloorCount> = Vec::new();
    let mut line: usize = 0;
    while line < FLOOR_SLOTS
        invariant
            line <= FLOOR_SLOTS,
            seen@.len() == FLOOR_SLOTS,
            games@.len() == FLOOR_SLOTS,
            forall|s: int|
                0 <= s < FLOOR_SLOTS ==> #[trigger] seen@[s] == floor_players(snapshots@, s),
            forall|s: int|
                0 <= s < FLOOR_SLOTS ==> #[trigger] games@[s] == floor_games(snapshots@, s),
            lines@.len() == line,
            forall|k: int|
                0 <= k < line ==> (#[trigger] lines@[k]) == (FloorCount {
                    floor: floor_of_line(k) as i64,
                    player_count: floor_players(snapshots@, floor_slot(floor_of_line(k))) as u64,
                    game_count: floor_games(snapshots@, floor_slot(floor_of_line(k))) as u64,
                }),
        decreases FLOOR_SLOTS - line,
    {
        let floor: i64 = if line < 10 {
            line as i64 + 1
        } else {
            TOP_FLOOR
        };
        let slot = slot_of(floor);
        lines.push(FloorCount { floor, player_count: seen[slot], game_count: games[slot] });
        line = line + 1;
    }
    lines
}

} // verus!
