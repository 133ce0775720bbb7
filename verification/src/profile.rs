//! The page of one player with one character: the rating, the ranks, the
//! watermarks, the win rates and the matchups.

use vstd::prelude::*;
use vstd::string::*;
use crate::charts::{percent, percent_of};
use crate::clock::{date, timestamp_in_range, utc_text};
use crate::glicko::{deviation_points, value_points};
use crate::matchups::{MatchupCounts, Tally, MAX_CHARACTERS, MAX_HISTORY};
use crate::ordering::{descending, sort_descending};
use crate::rater::{find_row, has_row, keys_unique, row_index};
use crate::records::PlayerRating;
use crate::site::{
    copy_status, first_named, get_player_other_characters, get_player_other_names,
    lemma_first_named_in, other_names, rows_shown, texts, OtherPlayerCharacter, Roster,
};
use crate::text::{floor_text, hex_id, hex_id_text, stringify_floor};

verus! {

/// One matchup of a player's character on the player's page.
#[derive(Debug)]
pub struct PlayerMatchup {
    pub character: String,
    pub game_count: u64,
    pub win_rate_real: Option<i64>,
    pub win_rate_adjusted: Option<i64>,
}

impl PlayerMatchup {
    /// Whether this is the line for the opponents of one character.
    pub open spec fn shows(self, roster: Roster, opponent: int, tally: Tally) -> bool {
        &&& self.character == roster.names@[opponent].long
        &&& self.game_count == tally.games()
        &&& self.win_rate_real == percent_of(tally.wins, tally.games())
        &&& self.win_rate_adjusted == percent_of(
            tally.wins_adjusted,
            tally.wins_adjusted + tally.losses_adjusted,
        )
    }
}

/// The items of a list in the order that a list of indices gives.
pub open spec fn pick(items: Seq<usize>, order: Seq<usize>) -> Seq<usize> {
    Seq::new(order.len(), |i: int| items[order[i] as int])
}

/// The characters against which games were played, in the order of their
/// identifiers.
pub open spec fn played(matchups: Seq<MatchupCounts>) -> Seq<usize>
    decreases matchups.len(),
{
    if matchups.len() == 0 {
        Seq::empty()
    } else if matchups.last()@.games() > 0 {
        played(matchups.drop_last()).push((matchups.len() - 1) as usize)
    } else {
        played(matchups.drop_last())
    }
}

/// The key by which matchups are ordered last: the weighted win rate in
/// percent, zero where there is none.
pub open spec fn rate_key(tally: Tally) -> i64 {
    match percent_of(tally.wins_adjusted, tally.wins_adjusted + tally.losses_adjusted) {
        Some(rate) => rate,
        None => 0,
    }
}

/// The wins against the chosen characters.
pub open spec fn wins_keys(matchups: Seq<MatchupCounts>, chosen: Seq<usize>) -> Seq<i64> {
    Seq::new(chosen.len(), |i: int| matchups[chosen[i] as int].wins_real as i64)
}

/// The rate keys of the chosen characters.
pub open spec fn rate_keys(matchups: Seq<MatchupCounts>, chosen: Seq<usize>) -> Seq<i64> {
    Seq::new(chosen.len(), |i: int| rate_key(matchups[chosen[i] as int]@))
}

/// The order in which the matchups are shown: the characters played
/// against, by falling wins, then by falling weighted win rate, each
/// ordering keeping the earlier order among equals.
pub open spec fn shown_order(matchups: Seq<MatchupCounts>) -> Seq<usize> {
    let by_wins = pick(played(matchups), descending(wins_keys(matchups, played(matchups))));
    pick(by_wins, descending(rate_keys(matchups, by_wins)))
}

/// The sum of the weighted wins, and of the weighted losses, against all
/// characters played against.
pub open spec fn adjusted_totals(matchups: Seq<MatchupCounts>) -> (int, int)
    decreases matchups.len(),
{
    if matchups.len() == 0 {
        (0, 0)
    } else {
        let rest = adjusted_totals(matchups.drop_last());
        (rest.0 + matchups.last().wins_adjusted, rest.1 + matchups.last().losses_adjusted)
    }
}

/// Whether every tally of a row of matchups counts no more than a history
/// can hold.
pub open spec fn matchups_within(matchups: Seq<MatchupCounts>) -> bool {
    forall|i: int| 0 <= i < matchups.len() ==> (#[trigger] matchups[i])@.within(2 * MAX_HISTORY)
}

/// Arranging a list by an order that names every place exactly once
/// keeps the list's length, keeps every item, and adds none.
pub proof fn lemma_pick_permutes(items: Seq<usize>, keys: Seq<i64>)
    requires
        keys.len() == items.len(),
        keys.len() <= usize::MAX,
    ensures
        pick(items, descending(keys)).len() == items.len(),
        forall|k: int|
            0 <= k < items.len() ==> pick(items, descending(keys)).contains(#[trigger] items[k]),
        forall|i: int|
            0 <= i < items.len() ==> items.contains(#[trigger] pick(items, descending(keys))[i]),
        items.no_duplicates() ==> pick(items, descending(keys)).no_duplicates(),
{
    crate::ordering::law_descending(keys);
    let order = descending(keys);
    let picked = pick(items, order);
    assert forall|k: int| 0 <= k < items.len() implies picked.contains(#[trigger] items[k]) by {
        crate::ordering::law_descending_complete(keys, k);
        let at = choose|at: int| 0 <= at < order.len() && order[at] == k as usize;
        assert(picked[at] == items[k]);
    }
    assert forall|i: int| 0 <= i < items.len() implies items.contains(#[trigger] picked[i]) by {
        assert(order[i] < items.len());
        assert(items[order[i] as int] == picked[i]);
    }
    if items.no_duplicates() {
        assert forall|i: int, j: int| 0 <= i < picked.len() && 0 <= j < picked.len() && i
            != j implies picked[i] != picked[j] by {
            assert(order[i] < items.len() && order[j] < items.len());
            if i < j {
                assert(order[i] != order[j]);
            } else {
                assert(order[j] != order[i]);
            }
        }
    }
}

/// The matchups shown are those played, put in order: every character
/// played against has exactly one line, and no other character has one.
pub proof fn law_shown_order_permutes(matchups: Seq<MatchupCounts>)
    requires
        matchups.len() <= usize::MAX,
    ensures
        shown_order(matchups).len() == played(matchups).len(),
        shown_order(matchups).no_duplicates(),
        forall|k: int|
            0 <= k < played(matchups).len() ==> shown_order(matchups).contains(
                #[trigger] played(matchups)[k],
            ),
        forall|i: int|
            0 <= i < shown_order(matchups).len() ==> played(matchups).contains(
                #[trigger] shown_order(matchups)[i],
            ),
        forall|i: int|
            0 <= i < shown_order(matchups).len() ==> (#[trigger] shown_order(matchups)[i])
                < matchups.len() && matchups[shown_order(matchups)[i] as int]@.games() > 0,
{
    lemma_played(matchups);
    lemma_played_rising(matchups);
    let chosen = played(matchups);
    let first = wins_keys(matchups, chosen);
    lemma_pick_permutes(chosen, first);
    let by_wins = pick(chosen, descending(first));
    let second = rate_keys(matchups, by_wins);
    lemma_pick_permutes(by_wins, second);
    let shown = shown_order(matchups);
    assert forall|k: int| 0 <= k < chosen.len() implies shown.contains(#[trigger] chosen[k]) by {
        assert(by_wins.contains(chosen[k]));
        let at = choose|at: int| 0 <= at < by_wins.len() && by_wins[at] == chosen[k];
        assert(shown.contains(by_wins[at]));
    }
    assert forall|i: int| 0 <= i < shown.len() implies chosen.contains(#[trigger] shown[i])
        && shown[i] < matchups.len() && matchups[shown[i] as int]@.games() > 0 by {
        assert(by_wins.contains(shown[i]));
        let at = choose|at: int| 0 <= at < by_wins.len() && by_wins[at] == shown[i];
        assert(chosen.contains(by_wins[at]));
        let from = choose|from: int| 0 <= from < chosen.len() && chosen[from] == shown[i];
        assert(chosen[from] < matchups.len());
    }
}

/// The characters played against are listed in rising order, each once,
/// and each has games.
pub proof fn lemma_played_rising(matchups: Seq<MatchupCounts>)
    requires
        matchups.len() <= usize::MAX,
    ensures
        played(matchups).no_duplicates(),
        forall|i: int|
            0 <= i < played(matchups).len() ==> (#[trigger] played(matchups)[i]) < matchups.len()
                && matchups[played(matchups)[i] as int]@.games() > 0,
    decreases matchups.len(),
{
    if matchups.len() > 0 {
        let rest = matchups.drop_last();
        lemma_played_rising(rest);
        lemma_played(rest);
        let before = played(rest);
        let all = played(matchups);
        assert forall|i: int| 0 <= i < all.len() implies (#[trigger] all[i]) < matchups.len()
            && matchups[all[i] as int]@.games() > 0 by {
            if i < before.len() {
                assert(all[i] == before[i]);
                assert(matchups[before[i] as int] == rest[before[i] as int]);
            }
        }
        assert forall|i: int, j: int| 0 <= i < all.len() && 0 <= j < all.len() && i
            != j implies all[i] != all[j] by {
            if i < before.len() {
                assert(all[i] == before[i]);
            }
            if j < before.len() {
                assert(all[j] == before[j]);
            }
        }
    }
}

/// The characters played against are characters of the row.
pub proof fn lemma_played(matchups: Seq<MatchupCounts>)
    requires
        matchups.len() <= usize::MAX,
    ensures
        played(matchups).len() <= matchups.len(),
        forall|i: int|
            0 <= i < played(matchups).len() ==> (#[trigger] played(matchups)[i]) < matchups.len(),
    decreases matchups.len(),
{
    if matchups.len() > 0 {
        lemma_played(matchups.drop_last());
    }
}

/// The weighted totals are bounded by the number of tallies.
pub proof fn lemma_adjusted_totals(matchups: Seq<MatchupCounts>)
    requires
        matchups_within(matchups),
    ensures
        0 <= adjusted_totals(matchups).0 <= matchups.len() * 2_147_483_646_000_000,
        0 <= adjusted_totals(matchups).1 <= matchups.len() * 2_147_483_646_000_000,
    decreases matchups.len(),
{
    if matchups.len() > 0 {
        let rest = matchups.drop_last();
        assert forall|i: int| 0 <= i < rest.len() implies (#[trigger] rest[i])@.within(
            2 * MAX_HISTORY,
        ) by {
            assert(rest[i] == matchups[i]);
        }
        lemma_adjusted_totals(rest);
        let last = matchups.last()@;
        assert(last.within(2 * MAX_HISTORY));
        assert(last.wins * 1_000_000 <= 2_147_483_646_000_000 && last.losses * 1_000_000
            <= 2_147_483_646_000_000);
    }
}

/// Arranges a list of indices in the order that another list gives.
fn arrange(items: &Vec<usize>, order: &Vec<usize>) -> (res: Vec<usize>)
    requires
        forall|i: int| 0 <= i < order@.len() ==> (#[trigger] order@[i]) < items@.len(),
    ensures
        res@ == pick(items@, order@),
{
    let mut res: Vec<usize> = Vec::new();
    let mut i: usize = 0;
    while i < order.len()
        invariant
            forall|k: int| 0 <= k < order@.len() ==> (#[trigger] order@[k]) < items@.len(),
            i <= order@.len(),
            res@.len() == i,
            forall|k: int| 0 <= k < i ==> res@[k] == items@[order@[k] as int],
        decreases order@.len() - i,
    {
        res.push(items[order[i]]);
        i = i + 1;
    }
    assert(res@ =~= pick(items@, order@));
    res
}

/// Computes [`rate_key`].
fn key_of(counts: &MatchupCounts) -> (key: i64)
    requires
        counts@.within(2 * MAX_HISTORY),
    ensures
        key == rate_key(counts@),
{
    assert(counts.wins_real * 1_000_000 <= 2_147_483_646_000_000 && counts.losses_real * 1_000_000
        <= 2_147_483_646_000_000);
    let wins = counts.wins_adjusted as u64;
    let losses = counts.losses_adjusted as u64;
    match percent(wins, wins + losses) {
        Some(rate) => rate,
        None => 0,
    }
}

/// The matchups of a player's character for the player's page: one line
/// for each character played against, ordered by the weighted win rate,
/// the best matchup first.
pub fn shown_matchups(roster: &Roster, matchups: &Vec<MatchupCounts>) -> (lines: Vec<PlayerMatchup>)
    requires
        matchups_within(matchups@),
        matchups@.len() <= roster.names@.len(),
        matchups@.len() <= MAX_CHARACTERS,
    ensures
        lines@.len() == shown_order(matchups@).len(),
        forall|i: int|
            0 <= i < lines@.len() ==> shown_order(matchups@)[i] < matchups@.len() && (
            #[trigger] lines@[i]).shows(
                *roster,
                shown_order(matchups@)[i] as int,
                matchups@[shown_order(matchups@)[i] as int]@,
            ),
{
    let mut chosen: Vec<usize> = Vec::new();
    let mut keys: Vec<i64> = Vec::new();
    let mut o: usize = 0;
    assert(keys@ =~= wins_keys(matchups@, chosen@));
    while o < matchups.len()
        invariant
            matchups_within(matchups@),
            o <= matchups@.len(),
            chosen@ == played(matchups@.take(o as int)),
            keys@ == wins_keys(matchups@, chosen@),
            forall|k: int| 0 <= k < chosen@.len() ==> (#[trigger] chosen@[k]) < o,
        decreases matchups@.len() - o,
    {
        let counts = matchups[o];
        proof {
            assert(matchups@.take(o + 1).drop_last() == matchups@.take(o as int));
            assert(matchups@.take(o + 1).last() == counts);
            assert(counts@.within(2 * MAX_HISTORY));
        }
        if counts.wins_real + counts.losses_real > 0 {
            chosen.push(o);
            keys.push(counts.wins_real as i64);
            assert(keys@ =~= wins_keys(matchups@, chosen@));
        }
        o = o + 1;
    }
    proof {
        assert(matchups@.take(o as int) == matchups@);
    }
    let order = sort_descending(&keys);
    let by_wins = arrange(&chosen, &order);
    let mut rates: Vec<i64> = Vec::new();
    let mut k: usize = 0;
    while k < by_wins.len()
        invariant
            matchups_within(matchups@),
            k <= by_wins@.len(),
            forall|j: int| 0 <= j < by_wins@.len() ==> (#[trigger] by_wins@[j]) < matchups@.len(),
            rates@.len() == k,
            forall|j: int| 0 <= j < k ==> rates@[j] == rate_key(matchups@[by_wins@[j] as int]@),
        decreases by_wins@.len() - k,
    {
        let counts = matchups[by_wins[k]];
        assert(counts@.within(2 * MAX_HISTORY));
        rates.push(key_of(&counts));
        k = k + 1;
    }
    assert(rates@ =~= rate_keys(matchups@, by_wins@));
    let last_order = sort_descending(&rates);
    let shown = arrange(&by_wins, &last_order);
    assert(shown@ == shown_order(matchups@));
    let mut lines: Vec<PlayerMatchup> = Vec::new();
    let mut i: usize = 0;
    while i < shown.len()
        invariant
            matchups_within(matchups@),
            matchups@.len() <= roster.names@.len(),
            matchups@.len() <= MAX_CHARACTERS,
            i <= shown@.len(),
            forall|j: int| 0 <= j < shown@.len() ==> (#[trigger] shown@[j]) < matchups@.len(),
            lines@.len() == i,
            forall|j: int|
                0 <= j < i ==> (#[trigger] lines@[j]).shows(
                    *roster,
                    shown@[j] as int,
                    matchups@[shown@[j] as int]@,
                ),
        decreases shown@.len() - i,
    {
        let opponent = shown[i];
        let counts = matchups[opponent];
        proof {
            assert(counts@.within(2 * MAX_HISTORY));
            assert(counts.wins_real * 1_000_000 <= 2_147_483_646_000_000 && counts.losses_real
                * 1_000_000 <= 2_147_483_646_000_000);
        }
        let wins = counts.wins_adjusted as u64;
        let losses = counts.losses_adjusted as u64;
        lines.push(
            PlayerMatchup {
                character: roster.long_name(opponent as i64),
                game_count: counts.wins_real + counts.losses_real,
                win_rate_real: percent(counts.wins_real, counts.wins_real + counts.losses_real),
                win_rate_adjusted: percent(wins, wins + losses),
            },
        );
        i = i + 1;
    }
    lines
}

/// The figures of a player's character for the player's page.
#[derive(Debug)]
pub struct PlayerCharacterData {
    pub character_name: String,
    pub rating_value: i64,
    pub rating_deviation: i64,
    pub global_rank: Option<i32>,
    pub character_rank: Option<i32>,
    pub top_rating_value: Option<i64>,
    pub top_rating_deviation: Option<i64>,
    pub top_rating_timestamp: Option<String>,
    pub top_defeated_id: Option<String>,
    pub top_defeated_char_id: Option<String>,
    pub top_defeated_name: Option<String>,
    pub top_defeated_value: Option<i64>,
    pub top_defeated_deviation: Option<i64>,
    pub top_defeated_floor: Option<String>,
    pub top_defeated_timestamp: Option<String>,
    pub win_rate: Option<i64>,
    pub adjusted_win_rate: Option<i64>,
    pub game_count: u64,
    pub matchups: Vec<PlayerMatchup>,
}

/// Whether a row can be shown: it is valid, its characters are known to
/// the roster, and the times of its watermarks have dates.
pub open spec fn row_shown(roster: Roster, row: PlayerRating) -> bool {
    &&& row.wf()
    &&& roster.knows(row.char_id as int)
    &&& row.top_rating matches Some(top) ==> timestamp_in_range(top.timestamp as int)
    &&& row.top_defeated matches Some(top) ==> timestamp_in_range(top.timestamp as int)
        && roster.knows(top.opponent_char as int)
}

impl PlayerCharacterData {
    /// Whether these are the figures of a rating row with the given ranks,
    /// the given name of the best opponent beaten, and the given matchups.
    pub open spec fn shows(
        self,
        roster: Roster,
        row: PlayerRating,
        global_rank: Option<i32>,
        character_rank: Option<i32>,
        top_defeated_name: Option<String>,
        matchups: Seq<MatchupCounts>,
    ) -> bool {
        &&& self.character_name == roster.names@[row.char_id as int].long
        &&& self.rating_value == value_points(row.rating.value as int)
        &&& self.rating_deviation == deviation_points(row.rating.deviation as int)
        &&& self.global_rank == global_rank
        &&& self.character_rank == character_rank
        &&& self.top_defeated_name == top_defeated_name
        &&& self.game_count == row.games()
        &&& self.win_rate == percent_of(row.wins as int, row.games())
        &&& self.adjusted_win_rate == percent_of(
            adjusted_totals(matchups).0,
            adjusted_totals(matchups).0 + adjusted_totals(matchups).1,
        )
        &&& match row.top_rating {
            Some(top) => {
                &&& self.top_rating_value == Some(value_points(top.value as int) as i64)
                &&& self.top_rating_deviation == Some(deviation_points(top.deviation as int) as i64)
                &&& self.top_rating_timestamp matches Some(text) && text@ == utc_text(
                    top.timestamp as int,
                    "%Y-%m-%d"@,
                )
            },
            None => self.top_rating_value is None && self.top_rating_deviation is None
                && self.top_rating_timestamp is None,
        }
        &&& match row.top_defeated {
            Some(top) => {
                &&& self.top_defeated_id matches Some(text) && text@ == hex_id_text(
                    top.opponent_id as int,
                )
                &&& self.top_defeated_char_id == Some(roster.names@[top.opponent_char as int].short)
                &&& self.top_defeated_value == Some(value_points(top.opponent_rating as int) as i64)
                &&& self.top_defeated_deviation == Some(
                    deviation_points(top.opponent_deviation as int) as i64,
                )
                &&& self.top_defeated_floor matches Some(text) && text@ == floor_text(
                    top.floor as int,
                )
                &&& self.top_defeated_timestamp matches Some(text) && text@ == utc_text(
                    top.timestamp as int,
                    "%Y-%m-%d"@,
                )
            },
            None => self.top_defeated_id is None && self.top_defeated_char_id is None
                && self.top_defeated_value is None && self.top_defeated_deviation is None
                && self.top_defeated_floor is None && self.top_defeated_timestamp is None,
        }
        &&& self.matchups@.len() == shown_order(matchups).len()
        &&& forall|i: int|
            0 <= i < self.matchups@.len() ==> (#[trigger] self.matchups@[i]).shows(
                roster,
                shown_order(matchups)[i] as int,
                matchups[shown_order(matchups)[i] as int]@,
            )
    }
}

/// The figures of a player's character for the player's page, from the
/// rating row, the ranks on the two leaderboards, the name of the best
/// opponent beaten, and the tallies against each character.
pub fn get_player_character_data(
    roster: &Roster,
    row: &PlayerRating,
    global_rank: Option<i32>,
    character_rank: Option<i32>,
    top_defeated_name: Option<String>,
    matchups: &Vec<MatchupCounts>,
) -> (data: PlayerCharacterData)
    requires
        row_shown(*roster, *row),
        matchups_within(matchups@),
        matchups@.len() <= roster.names@.len(),
        matchups@.len() <= MAX_CHARACTERS,
    ensures
        data.shows(*roster, *row, global_rank, character_rank, top_defeated_name, matchups@),
{
    let mut total_wins: u64 = 0;
    let mut total_losses: u64 = 0;
    let mut i: usize = 0;
    while i < matchups.len()
        invariant
            matchups_within(matchups@),
            matchups@.len() <= MAX_CHARACTERS,
            i <= matchups@.len(),
            total_wins == adjusted_totals(matchups@.take(i as int)).0,
            total_losses == adjusted_totals(matchups@.take(i as int)).1,
            total_wins <= i * 2_147_483_646_000_000,
            total_losses <= i * 2_147_483_646_000_000,
        decreases matchups@.len() - i,
    {
        let counts = matchups[i];
        proof {
            assert(matchups@.take(i + 1).drop_last() == matchups@.take(i as int));
            assert(matchups@.take(i + 1).last() == counts);
            assert(counts@.within(2 * MAX_HISTORY));
            assert(counts.wins_real * 1_000_000 <= 2_147_483_646_000_000 && counts.losses_real
                * 1_000_000 <= 2_147_483_646_000_000);
        }
        total_wins = total_wins + counts.wins_adjusted as u64;
        total_losses = total_losses + counts.losses_adjusted as u64;
        i = i + 1;
    }
    proof {
        assert(matchups@.take(i as int) == matchups@);
    }
    let (top_rating_value, top_rating_deviation, top_rating_timestamp) = match row.top_rating {
        Some(top) => {
            let rating = top.as_rating();
            (Some(rating.rounded_value()), Some(rating.rounded_deviation()), date(top.timestamp))
        },
        None => (None, None, None),
    };
    let (
        top_defeated_id,
        top_defeated_char_id,
        top_defeated_value,
        top_defeated_deviation,
        top_defeated_floor,
        top_defeated_timestamp,
    ) = match row.top_defeated {
        Some(top) => {
            let rating = top.as_rating();
            (
                Some(hex_id(top.opponent_id)),
                Some(roster.short_name(top.opponent_char)),
                Some(rating.rounded_value()),
                Some(rating.rounded_deviation()),
                Some(stringify_floor(top.floor)),
                date(top.timestamp),
            )
        },
        None => (None, None, None, None, None, None),
    };
    PlayerCharacterData {
        character_name: roster.long_name(row.char_id),
        rating_value: row.rating.rounded_value(),
        rating_deviation: row.rating.rounded_deviation(),
        global_rank,
        character_rank,
        top_rating_value,
        top_rating_deviation,
        top_rating_timestamp,
        top_defeated_id,
        top_defeated_char_id,
        top_defeated_name,
        top_defeated_value,
        top_defeated_deviation,
        top_defeated_floor,
        top_defeated_timestamp,
        win_rate: percent(row.wins, row.game_count()),
        adjusted_win_rate: percent(total_wins, total_wins + total_losses),
        game_count: row.game_count(),
        matchups: shown_matchups(roster, matchups),
    }
}

/// The place of a player's character on a leaderboard, counted from one.
pub open spec fn place_on(board: Seq<PlayerRating>, id: int, char_id: int) -> Option<i32>
    decreases board.len(),
{
    if board.len() == 0 {
        None
    } else {
        match place_on(board.drop_last(), id, char_id) {
            Some(place) => Some(place),
            None => if board.last().is_for(id, char_id) && board.len() <= i32::MAX {
                Some(board.len() as i32)
            } else {
                None
            },
        }
    }
}

/// The place of a player's character on a leaderboard, counted from one,
/// or nothing where the board does not list it.
pub fn rank_on(board: &Vec<PlayerRating>, id: i64, char_id: i64) -> (place: Option<i32>)
    ensures
        place == place_on(board@, id as int, char_id as int),
{
    let mut i: usize = 0;
    while i < board.len()
        invariant
            i <= board@.len(),
            place_on(board@.take(i as int), id as int, char_id as int) is None,
        decreases board@.len() - i,
    {
        proof {
            assert(board@.take(i + 1).drop_last() == board@.take(i as int));
            assert(board@.take(i + 1).last() == board@[i as int]);
        }
        if board[i].id == id && board[i].char_id == char_id && i < 0x7FFF_FFFF {
            proof {
                lemma_place_kept(board@, (i + 1) as int, id as int, char_id as int);
            }
            return Some((i + 1) as i32);
        }
        i = i + 1;
    }
    proof {
        assert(board@.take(i as int) == board@);
    }
    None
}

/// A place found among the first rows of a board is the place on the
/// whole board.
pub proof fn lemma_place_kept(board: Seq<PlayerRating>, n: int, id: int, char_id: int)
    requires
        0 <= n <= board.len(),
        place_on(board.take(n), id, char_id) is Some,
    ensures
        place_on(board, id, char_id) == place_on(board.take(n), id, char_id),
    decreases board.len() - n,
{
    if n < board.len() {
        assert(board.drop_last().take(n) == board.take(n));
        lemma_place_kept(board.drop_last(), n, id, char_id);
    } else {
        assert(board.take(n) == board);
    }
}

/// The page of a player with one character.
#[derive(Debug)]
pub struct PlayerDataChar {
    pub id: String,
    pub name: String,
    pub vip_status: Option<String>,
    pub cheater_status: Option<String>,
    pub other_names: Option<Vec<String>>,
    pub other_characters: Vec<OtherPlayerCharacter>,
    pub data: PlayerCharacterData,
}

/// The page of a player with all characters.
#[derive(Debug)]
pub struct PlayerData {
    pub name: String,
    pub other_names: Option<Vec<String>>,
    pub characters: Vec<PlayerCharacterData>,
}

/// What is stored of a player beside the ratings.
#[derive(Debug)]
pub struct PlayerRecord {
    pub id: i64,
    pub name: String,
    pub vip_status: Option<String>,
    pub cheater_status: Option<String>,
    pub names: Vec<String>,
}

/// The page of a player with one character, or nothing where the player
/// has no rating with that character.
pub fn get_player_data_char(
    roster: &Roster,
    player: &PlayerRecord,
    rows: &Vec<PlayerRating>,
    char_id: i64,
    global_rank: Option<i32>,
    character_rank: Option<i32>,
    top_defeated_name: Option<String>,
    matchups: &Vec<MatchupCounts>,
) -> (page: Option<PlayerDataChar>)
    requires
        rows_shown(*roster, rows@),
        forall|i: int| 0 <= i < rows@.len() ==> row_shown(*roster, #[trigger] rows@[i]),
        matchups_within(matchups@),
        matchups@.len() <= roster.names@.len(),
        matchups@.len() <= MAX_CHARACTERS,
    ensures
        page is Some <==> has_row(rows@, player.id as int, char_id as int),
        page matches Some(shown) ==> {
            &&& shown.id@ == hex_id_text(player.id as int)
            &&& shown.name == player.name
            &&& shown.vip_status == player.vip_status
            &&& shown.cheater_status == player.cheater_status
            &&& match shown.other_names {
                Some(found) => texts(found@) == other_names(player.names@, player.name@)
                    && found@.len() > 0,
                None => other_names(player.names@, player.name@).len() == 0,
            }
            &&& shown.other_characters@.len() == rows@.len()
            &&& forall|i: int|
                0 <= i < rows@.len() ==> (#[trigger] shown.other_characters@[i]).shows(
                    *roster,
                    rows@[i],
                )
            &&& exists|k: int|
                0 <= k < rows@.len() && (#[trigger] rows@[k]).is_for(
                    player.id as int,
                    char_id as int,
                ) && shown.data.shows(
                    *roster,
                    rows@[k],
                    global_rank,
                    character_rank,
                    top_defeated_name,
                    matchups@,
                )
        },
{
    match find_row(rows, player.id, char_id) {
        None => None,
        Some(index) => {
            let data = get_player_character_data(
                roster,
                &rows[index],
                global_rank,
                character_rank,
                top_defeated_name,
                matchups,
            );
            Some(
                PlayerDataChar {
                    id: hex_id(player.id),
                    name: player.name.clone(),
                    vip_status: copy_status(&player.vip_status),
                    cheater_status: copy_status(&player.cheater_status),
                    other_names: get_player_other_names(&player.names, &player.name),
                    other_characters: get_player_other_characters(roster, rows),
                    data,
                },
            )
        },
    }
}

/// The rating that a table holds for a player with the character of the
/// given short name.
pub open spec fn rating_named(
    roster: Roster,
    table: Seq<PlayerRating>,
    id: int,
    character_short: Seq<char>,
) -> Option<crate::glicko::Rating> {
    match first_named(roster.names@, character_short) {
        Some(char_id) => if has_row(table, id, char_id) {
            Some(table[row_index(table, id, char_id)].rating)
        } else {
            None
        },
        None => None,
    }
}

/// The rating of a player with the character of the given short name, or
/// nothing where the roster has no such character or the player no rating
/// with it.
pub fn player_rating(
    roster: &Roster,
    table: &Vec<PlayerRating>,
    id: i64,
    character_short: &String,
) -> (res: Option<crate::glicko::Rating>)
    requires
        roster.names@.len() <= MAX_CHARACTERS,
        keys_unique(table@),
    ensures
        res == rating_named(*roster, table@, id as int, character_short@),
{
    proof {
        lemma_first_named_in(roster.names@, character_short@);
    }
    match roster.position(character_short) {
        None => None,
        Some(char_id) => {
            match find_row(table, id, char_id as i64) {
                Some(index) => Some(table[index].rating),
                None => None,
            }
        },
    }
}

} // verus!
