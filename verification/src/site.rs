//! Rows shaped for display: the overview, rankings, searches and lookups.

use vstd::prelude::*;
use vstd::string::*;
use crate::clock::{hour_minute, timestamp_in_range, utc_text};
use crate::glicko::{deviation_points, value_points};
use crate::anomaly::FraudEntry;
use crate::floors::{remember, with_player};
use crate::ordering::{descending, sort_descending};
use crate::records::{Match, PlayerRating};
use crate::text::{
    dec_text, hex_id, hex_id_text, push_decimal, push_two_places, signed_tenths,
    signed_tenths_text, two_place_text,
};

verus! {

/// The short and the full name of a character.
#[derive(Debug)]
pub struct CharacterName {
    pub short: String,
    pub long: String,
}

/// The characters of the game, each at the index that is its identifier.
#[derive(Debug)]
pub struct Roster {
    pub names: Vec<CharacterName>,
}

impl Roster {
    /// Whether the roster has a character with this identifier.
    pub open spec fn knows(self, char_id: int) -> bool {
        0 <= char_id < self.names@.len()
    }

    /// Computes [`Roster::knows`].
    pub fn has(&self, char_id: i64) -> (res: bool)
        ensures
            res == self.knows(char_id as int),
    {
        0 <= char_id && (char_id as u64) < self.names.len() as u64
    }

    /// The short name of a character.
    pub fn short_name(&self, char_id: i64) -> (name: String)
        requires
            self.knows(char_id as int),
        ensures
            name == self.names@[char_id as int].short,
    {
        let count = self.names.len();
        let index: usize = char_id as usize;
        self.names[index].short.clone()
    }

    /// The full name of a character.
    pub fn long_name(&self, char_id: i64) -> (name: String)
        requires
            self.knows(char_id as int),
        ensures
            name == self.names@[char_id as int].long,
    {
        let count = self.names.len();
        let index: usize = char_id as usize;
        self.names[index].long.clone()
    }

    /// The identifier of the first character with the given short name.
    pub fn position(&self, short: &String) -> (found: Option<usize>)
        ensures
            match found {
                Some(index) => first_named(self.names@, short@) == Some(index as int),
                None => first_named(self.names@, short@) is None,
            },
    {
        let mut i: usize = 0;
        while i < self.names.len()
            invariant
                i <= self.names@.len(),
                first_named(self.names@.take(i as int), short@) is None,
            decreases self.names@.len() - i,
        {
            proof {
                assert(self.names@.take(i + 1).drop_last() == self.names@.take(i as int));
                assert(self.names@.take(i + 1).last() == self.names@[i as int]);
            }
            if self.names[i].short == *short {
                proof {
                    lemma_first_named_kept(self.names@, (i + 1) as int, short@);
                }
                return Some(i);
            }
            i = i + 1;
        }
        proof {
            assert(self.names@.take(i as int) == self.names@);
        }
        None
    }
}

/// The identifier of the first character with the given short name.
pub open spec fn first_named(names: Seq<CharacterName>, short: Seq<char>) -> Option<int>
    decreases names.len(),
{
    if names.len() == 0 {
        None
    } else {
        match first_named(names.drop_last(), short) {
            Some(index) => Some(index),
            None => if names.last().short@ == short {
                Some(names.len() - 1)
            } else {
                None
            },
        }
    }
}

/// A character found among the first names of a roster is the first of
/// its name in the whole roster, and is a character of the roster.
pub proof fn lemma_first_named_kept(names: Seq<CharacterName>, n: int, short: Seq<char>)
    requires
        0 <= n <= names.len(),
        first_named(names.take(n), short) is Some,
    ensures
        first_named(names, short) == first_named(names.take(n), short),
        0 <= first_named(names, short)->0 < n,
        names[first_named(names, short)->0].short@ == short,
    decreases names.len() - n,
{
    if n < names.len() {
        assert(names.drop_last().take(n) == names.take(n));
        lemma_first_named_kept(names.drop_last(), n, short);
    } else {
        assert(names.take(n) == names);
        lemma_first_named_in(names, short);
    }
}

/// The first character of a name is a character of the roster and has
/// that name.
pub proof fn lemma_first_named_in(names: Seq<CharacterName>, short: Seq<char>)
    ensures
        first_named(names, short) matches Some(index) ==> 0 <= index < names.len()
            && names[index].short@ == short,
    decreases names.len(),
{
    if names.len() > 0 {
        lemma_first_named_in(names.drop_last(), short);
        if first_named(names.drop_last(), short) is Some {
            let index = first_named(names.drop_last(), short)->0;
            assert(names[index] == names.drop_last()[index]);
        }
    }
}

/// Division that rounds toward zero, for a positive divisor.
pub open spec fn trunc_div(a: int, b: int) -> int {
    if a >= 0 {
        a / b
    } else {
        -((-a) / b)
    }
}

/// The text of a span of seconds as whole hours and the minutes beyond
/// them, as in `1:05`; both parts carry the sign of a negative span.
pub open spec fn countdown_text(remaining: int) -> Seq<char> {
    let hours = trunc_div(remaining, 3600);
    let minutes = trunc_div(remaining, 60);
    dec_text(hours) + seq![':'] + two_place_text(minutes - hours * 60)
}

/// Computes [`countdown_text`].
pub fn countdown(remaining: i128) -> (res: String)
    requires
        -0x2_0000_0000_0000_0000 <= remaining <= 0x2_0000_0000_0000_0000,
    ensures
        res@ == countdown_text(remaining as int),
{
    let hours: i128 = if remaining >= 0 {
        remaining / 3600
    } else {
        -((-remaining) / 3600)
    };
    let minutes: i128 = if remaining >= 0 {
        remaining / 60
    } else {
        -((-remaining) / 60)
    };
    let mut res = String::new();
    push_decimal(&mut res, hours as i64);
    proof {
        reveal_strlit(":");
    }
    res.append(":");
    push_two_places(&mut res, (minutes - hours * 60) as i64);
    assert(res@ =~= countdown_text(remaining as int));
    res
}

/// The overview of the site: how much has been played, and when the
/// ratings were and will next be brought up to date.
#[derive(Debug)]
pub struct Stats {
    pub game_count: i64,
    pub player_count: i64,
    pub next_update_in: String,
    pub last_update: i64,
    pub last_update_string: String,
}

/// The overview at the time `now`, for ratings that were last updated at
/// `last_update` and are updated every `rating_period` seconds.
pub fn stats_inner(
    game_count: i64,
    player_count: i64,
    last_update: i64,
    now: i64,
    rating_period: i64,
) -> (stats: Stats)
    requires
        timestamp_in_range(last_update as int),
    ensures
        stats.game_count == game_count,
        stats.player_count == player_count,
        stats.last_update == last_update,
        stats.next_update_in@ == countdown_text(last_update + rating_period - now),
        stats.last_update_string@ == utc_text(last_update as int, "%H:%M"@) + " UTC"@,
{
    let remaining: i128 = last_update as i128 + rating_period as i128 - now as i128;
    let next_update_in = countdown(remaining);
    let mut last_update_string = match hour_minute(last_update) {
        Some(text) => text,
        None => String::new(),
    };
    last_update_string.append(" UTC");
    Stats { game_count, player_count, next_update_in, last_update, last_update_string }
}

/// A supporter of the site.
#[derive(Debug)]
pub struct VipPlayer {
    pub id: String,
    pub name: String,
    pub vip_status: Option<String>,
}

/// A supporter as stored: the identifier, the name and the status.
#[derive(Debug)]
pub struct SupporterRow {
    pub id: i64,
    pub name: String,
    pub vip_status: Option<String>,
}

impl VipPlayer {
    /// Whether this is the display form of a stored row.
    pub open spec fn shows(self, row: SupporterRow) -> bool {
        &&& self.id@ == hex_id_text(row.id as int)
        &&& self.name == row.name
        &&& self.vip_status == row.vip_status
    }
}

/// The supporters for display, the one stored last first.
pub fn get_supporters(rows: Vec<SupporterRow>) -> (res: Vec<VipPlayer>)
    ensures
        res@.len() == rows@.len(),
        forall|i: int|
            0 <= i < res@.len() ==> (#[trigger] res@[i]).shows(rows@[rows@.len() - 1 - i]),
{
    let mut rows = rows;
    let ghost all = rows@;
    let mut res: Vec<VipPlayer> = Vec::new();
    while rows.len() > 0
        invariant
            rows@.len() + res@.len() == all.len(),
            rows@ == all.take(rows@.len() as int),
            forall|i: int|
                0 <= i < res@.len() ==> (#[trigger] res@[i]).shows(all[all.len() - 1 - i]),
        decreases rows.len(),
    {
        let row = rows.pop().unwrap();
        let id = hex_id(row.id);
        res.push(VipPlayer { id, name: row.name, vip_status: row.vip_status });
    }
    res
}

/// One line of the anomaly index: a character, the number of players
/// behind the figure, and the average offset with its sign.
#[derive(Debug)]
pub struct FraudStats {
    pub character_name: String,
    pub player_count: i64,
    pub average_offset: String,
}

impl FraudStats {
    /// The line for a character whose players are, on average, rated
    /// `average_delta` millionths of a rating point above their other
    /// characters.
    pub fn new(roster: &Roster, char_id: i64, player_count: i64, average_delta: i64) -> (line:
        FraudStats)
        requires
            roster.knows(char_id as int),
        ensures
            line.character_name == roster.names@[char_id as int].long,
            line.player_count == player_count,
            line.average_offset@ == signed_tenths_text(average_delta as int),
    {
        FraudStats {
            character_name: roster.long_name(char_id),
            player_count,
            average_offset: signed_tenths(average_delta),
        }
    }
}

/// One character of a player in a lookup by name.
#[derive(Debug)]
pub struct PlayerLookupCharacter {
    pub shortname: String,
    pub rating: i64,
    pub deviation: i64,
    pub game_count: i64,
}

impl PlayerLookupCharacter {
    /// Whether this is the display form of a rating row.
    pub open spec fn shows(self, roster: Roster, row: PlayerRating) -> bool {
        &&& self.shortname == roster.names@[row.char_id as int].short
        &&& self.rating == value_points(row.rating.value as int)
        &&& self.deviation == deviation_points(row.rating.deviation as int)
        &&& self.game_count == row.games()
    }

    /// The display form of a rating row.
    pub fn new(roster: &Roster, row: &PlayerRating) -> (res: PlayerLookupCharacter)
        requires
            row.wf(),
            roster.knows(row.char_id as int),
        ensures
            res.shows(*roster, *row),
    {
        PlayerLookupCharacter {
            shortname: roster.short_name(row.char_id),
            rating: row.rating.rounded_value(),
            deviation: row.rating.rounded_deviation(),
            game_count: row.game_count() as i64,
        }
    }
}

/// A player found by name, with the characters played.
#[derive(Debug)]
pub struct PlayerLookupPlayer {
    pub id: String,
    pub name: String,
    pub characters: Vec<PlayerLookupCharacter>,
}

/// Whether every row is valid and of a character that the roster knows.
pub open spec fn rows_shown(roster: Roster, rows: Seq<PlayerRating>) -> bool {
    forall|i: int|
        0 <= i < rows.len() ==> (#[trigger] rows[i]).wf() && roster.knows(rows[i].char_id as int)
}

impl PlayerLookupPlayer {
    /// The lookup result for a player with the given rating rows.
    pub fn new(roster: &Roster, id: i64, name: String, rows: &Vec<PlayerRating>) -> (res:
        PlayerLookupPlayer)
        requires
            rows_shown(*roster, rows@),
        ensures
            res.id@ == hex_id_text(id as int),
            res.name == name,
            res.characters@.len() == rows@.len(),
            forall|i: int|
                0 <= i < rows@.len() ==> (#[trigger] res.characters@[i]).shows(*roster, rows@[i]),
    {
        let mut characters: Vec<PlayerLookupCharacter> = Vec::new();
        let mut i: usize = 0;
        while i < rows.len()
            invariant
                rows_shown(*roster, rows@),
                i <= rows@.len(),
                characters@.len() == i,
                forall|j: int|
                    0 <= j < i ==> (#[trigger] characters@[j]).shows(*roster, rows@[j]),
            decreases rows@.len() - i,
        {
            characters.push(PlayerLookupCharacter::new(roster, &rows[i]));
            i = i + 1;
        }
        PlayerLookupPlayer { id: hex_id(id), name, characters }
    }
}

/// A copy of a status.
pub fn copy_status(status: &Option<String>) -> (res: Option<String>)
    ensures
        res == *status,
{
    match status {
        Some(text) => Some(text.clone()),
        None => None,
    }
}

/// The number of lines on a page of a leaderboard.
pub const PAGE_SIZE: usize = 100;

/// The number of results that a search returns at most.
pub const SEARCH_LIMIT: usize = 1000;

/// A row of a leaderboard as stored: the rating row with the player's
/// name and status.
#[derive(Debug)]
pub struct RankedRow {
    pub name: String,
    pub vip_status: Option<String>,
    pub cheater_status: Option<String>,
    pub player: PlayerRating,
}

/// One line of a leaderboard.
#[derive(Debug)]
pub struct RankingPlayer {
    pub pos: i32,
    pub id: String,
    pub character: String,
    pub character_short: String,
    pub name: String,
    pub game_count: u64,
    pub rating_value: i64,
    pub rating_deviation: i64,
    pub vip_status: Option<String>,
    pub cheater_status: Option<String>,
}

impl RankingPlayer {
    /// Whether this is the line at position `pos` for a stored row.
    pub open spec fn shows(self, roster: Roster, pos: int, row: RankedRow) -> bool {
        &&& self.pos == pos
        &&& self.name == row.name
        &&& self.vip_status == row.vip_status
        &&& self.cheater_status == row.cheater_status
        &&& self.id@ == hex_id_text(row.player.id as int)
        &&& self.character == roster.names@[row.player.char_id as int].long
        &&& self.character_short == roster.names@[row.player.char_id as int].short
        &&& self.game_count == row.player.games()
        &&& self.rating_value == value_points(row.player.rating.value as int)
        &&& self.rating_deviation == deviation_points(row.player.rating.deviation as int)
    }

    /// The line at position `pos` for a rated player.
    pub fn from_db(
        roster: &Roster,
        pos: i32,
        name: String,
        vip_status: Option<String>,
        cheater_status: Option<String>,
        rated_player: &PlayerRating,
    ) -> (line: RankingPlayer)
        requires
            rated_player.wf(),
            roster.knows(rated_player.char_id as int),
        ensures
            line.shows(
                *roster,
                pos as int,
                RankedRow { name, vip_status, cheater_status, player: *rated_player },
            ),
    {
        RankingPlayer {
            pos,
            name,
            id: hex_id(rated_player.id),
            character: roster.long_name(rated_player.char_id),
            character_short: roster.short_name(rated_player.char_id),
            game_count: rated_player.game_count(),
            rating_value: rated_player.rating.rounded_value(),
            rating_deviation: rated_player.rating.rounded_deviation(),
            vip_status,
            cheater_status,
        }
    }
}

/// Whether every stored row is valid and of a character that the roster
/// knows.
pub open spec fn ranked_rows_shown(roster: Roster, rows: Seq<RankedRow>) -> bool {
    forall|i: int|
        0 <= i < rows.len() ==> (#[trigger] rows[i]).player.wf() && roster.knows(
            rows[i].player.char_id as int,
        )
}

/// The stored rows that a leaderboard of one character keeps: those of
/// that character, in their order.
pub open spec fn rows_of_character(rows: Seq<RankedRow>, char_id: int) -> Seq<RankedRow>
    decreases rows.len(),
{
    if rows.len() == 0 {
        Seq::empty()
    } else if rows.last().player.char_id == char_id {
        rows_of_character(rows.drop_last(), char_id).push(rows.last())
    } else {
        rows_of_character(rows.drop_last(), char_id)
    }
}

/// Whether a page shows the first stored rows, numbered from one.
pub open spec fn page_shows(page: Seq<RankingPlayer>, roster: Roster, rows: Seq<RankedRow>) -> bool {
    &&& page.len() == if rows.len() < PAGE_SIZE {
        rows.len()
    } else {
        PAGE_SIZE as nat
    }
    &&& forall|i: int| 0 <= i < page.len() ==> (#[trigger] page[i]).shows(roster, i + 1, rows[i])
}

/// The first page of the overall leaderboard: the first hundred of the
/// stored rows, numbered from one.
pub fn top_all_inner(roster: &Roster, rows: &Vec<RankedRow>) -> (page: Vec<RankingPlayer>)
    requires
        ranked_rows_shown(*roster, rows@),
    ensures
        page_shows(page@, *roster, rows@),
{
    let mut page: Vec<RankingPlayer> = Vec::new();
    let mut i: usize = 0;
    while i < rows.len() && i < PAGE_SIZE
        invariant
            ranked_rows_shown(*roster, rows@),
            i <= rows@.len(),
            i <= PAGE_SIZE,
            page@.len() == i,
            forall|k: int| 0 <= k < i ==> (#[trigger] page@[k]).shows(*roster, k + 1, rows@[k]),
        decreases rows@.len() - i,
    {
        let row = &rows[i];
        page.push(
            RankingPlayer::from_db(
                roster,
                (i + 1) as i32,
                row.name.clone(),
                copy_status(&row.vip_status),
                copy_status(&row.cheater_status),
                &row.player,
            ),
        );
        i = i + 1;
    }
    page
}

/// The first page of the leaderboard of one character: the first hundred
/// of the stored rows of that character, numbered from one.
pub fn top_char_inner(roster: &Roster, rows: &Vec<RankedRow>, char_id: i64) -> (page: Vec<
    RankingPlayer,
>)
    requires
        ranked_rows_shown(*roster, rows@),
    ensures
        page_shows(page@, *roster, rows_of_character(rows@, char_id as int)),
{
    let mut page: Vec<RankingPlayer> = Vec::new();
    let mut i: usize = 0;
    let ghost wanted = rows_of_character(rows@, char_id as int);
    while i < rows.len()
        invariant
            ranked_rows_shown(*roster, rows@),
            i <= rows@.len(),
            page@.len() <= PAGE_SIZE,
            page_shows(page@, *roster, rows_of_character(rows@.take(i as int), char_id as int)),
        decreases rows@.len() - i,
    {
        let row = &rows[i];
        let ghost kept = rows_of_character(rows@.take(i as int), char_id as int);
        proof {
            assert(rows@.take(i + 1).drop_last() == rows@.take(i as int));
            assert(rows@.take(i + 1).last() == rows@[i as int]);
        }
        if row.player.char_id == char_id && page.len() < PAGE_SIZE {
            page.push(
                RankingPlayer::from_db(
                    roster,
                    (page.len() + 1) as i32,
                    row.name.clone(),
                    copy_status(&row.vip_status),
                    copy_status(&row.cheater_status),
                    &row.player,
                ),
            );
            proof {
                assert(kept.len() == page@.len() - 1);
                let next = rows_of_character(rows@.take(i + 1), char_id as int);
                assert(next == kept.push(rows@[i as int]));
                assert forall|k: int| 0 <= k < page@.len() implies (#[trigger] page@[k]).shows(
                    *roster,
                    k + 1,
                    next[k],
                ) by {
                    if k < kept.len() {
                        assert(next[k] == kept[k]);
                    }
                }
            }
        } else {
            proof {
                let next = rows_of_character(rows@.take(i + 1), char_id as int);
                if row.player.char_id == char_id {
                    assert(next == kept.push(rows@[i as int]));
                    assert forall|k: int| 0 <= k < page@.len() implies (#[trigger] page@[k]).shows(
                        *roster,
                        k + 1,
                        next[k],
                    ) by {
                        assert(next[k] == kept[k]);
                    }
                }
            }
        }
        i = i + 1;
    }
    proof {
        assert(rows@.take(i as int) == rows@);
    }
    page
}

/// The pattern that a search for a name hands to the store: the name
/// itself for an exact search, else the name between two wildcards.
pub open spec fn search_pattern_text(search: Seq<char>, exact: bool) -> Seq<char> {
    if exact {
        search
    } else {
        seq!['%'] + search + seq!['%']
    }
}

/// Computes [`search_pattern_text`].
pub fn search_pattern(search: &str, exact: bool) -> (pattern: String)
    ensures
        pattern@ == search_pattern_text(search@, exact),
{
    if exact {
        String::from_str(search)
    } else {
        proof {
            reveal_strlit("%");
        }
        let mut pattern = String::from_str("%");
        pattern.append(search);
        pattern.append("%");
        assert(pattern@ =~= search_pattern_text(search@, exact));
        pattern
    }
}

/// One result of a search by name.
#[derive(Debug)]
pub struct SearchResultPlayer {
    pub name: String,
    pub vip_status: Option<String>,
    pub cheater_status: Option<String>,
    pub id: String,
    pub character: String,
    pub character_short: String,
    pub rating_value: i64,
    pub rating_deviation: i64,
    pub game_count: u64,
}

impl SearchResultPlayer {
    /// Whether this is the result for a stored row.
    pub open spec fn shows(self, roster: Roster, row: RankedRow) -> bool {
        &&& self.name == row.name
        &&& self.vip_status == row.vip_status
        &&& self.cheater_status == row.cheater_status
        &&& self.id@ == hex_id_text(row.player.id as int)
        &&& self.character == roster.names@[row.player.char_id as int].long
        &&& self.character_short == roster.names@[row.player.char_id as int].short
        &&& self.game_count == row.player.games()
        &&& self.rating_value == value_points(row.player.rating.value as int)
        &&& self.rating_deviation == deviation_points(row.player.rating.deviation as int)
    }
}

/// The results of a search: the first thousand of the stored rows that
/// matched, each shaped for display.
pub fn search_inner(roster: &Roster, rows: &Vec<RankedRow>) -> (results: Vec<SearchResultPlayer>)
    requires
        ranked_rows_shown(*roster, rows@),
    ensures
        results@.len() == if rows@.len() < SEARCH_LIMIT {
            rows@.len()
        } else {
            SEARCH_LIMIT as nat
        },
        forall|i: int| 0 <= i < results@.len() ==> (#[trigger] results@[i]).shows(*roster, rows@[i]),
{
    let mut results: Vec<SearchResultPlayer> = Vec::new();
    let mut i: usize = 0;
    while i < rows.len() && i < SEARCH_LIMIT
        invariant
            ranked_rows_shown(*roster, rows@),
            i <= rows@.len(),
            i <= SEARCH_LIMIT,
            results@.len() == i,
            forall|k: int| 0 <= k < i ==> (#[trigger] results@[k]).shows(*roster, rows@[k]),
        decreases rows@.len() - i,
    {
        let row = &rows[i];
        results.push(
            SearchResultPlayer {
                name: row.name.clone(),
                vip_status: copy_status(&row.vip_status),
                cheater_status: copy_status(&row.cheater_status),
                id: hex_id(row.player.id),
                character: roster.long_name(row.player.char_id),
                character_short: roster.short_name(row.player.char_id),
                rating_value: row.player.rating.rounded_value(),
                rating_deviation: row.player.rating.rounded_deviation(),
                game_count: row.player.game_count(),
            },
        );
        i = i + 1;
    }
    results
}

/// A player found by name, as stored: the identifier, the name, and the
/// player's rating rows.
#[derive(Debug)]
pub struct LookupRow {
    pub id: i64,
    pub name: String,
    pub rows: Vec<PlayerRating>,
}

/// The players found by name, each with the characters played.
pub fn player_lookup(roster: &Roster, found: &Vec<LookupRow>) -> (players: Vec<PlayerLookupPlayer>)
    requires
        forall|i: int| 0 <= i < found@.len() ==> rows_shown(*roster, (#[trigger] found@[i]).rows@),
    ensures
        players@.len() == found@.len(),
        forall|i: int|
            0 <= i < found@.len() ==> (#[trigger] players@[i]).id@ == hex_id_text(
                found@[i].id as int,
            ) && players@[i].name == found@[i].name && players@[i].characters@.len()
                == found@[i].rows@.len(),
        forall|i: int, k: int|
            0 <= i < found@.len() && 0 <= k < found@[i].rows@.len()
                ==> (#[trigger] players@[i].characters@[k]).shows(*roster, found@[i].rows@[k]),
{
    let mut players: Vec<PlayerLookupPlayer> = Vec::new();
    let mut i: usize = 0;
    while i < found.len()
        invariant
            forall|k: int|
                0 <= k < found@.len() ==> rows_shown(*roster, (#[trigger] found@[k]).rows@),
            i <= found@.len(),
            players@.len() == i,
            forall|j: int|
                0 <= j < i ==> (#[trigger] players@[j]).id@ == hex_id_text(found@[j].id as int)
                    && players@[j].name == found@[j].name && players@[j].characters@.len()
                    == found@[j].rows@.len(),
            forall|j: int, k: int|
                0 <= j < i && 0 <= k < found@[j].rows@.len()
                    ==> (#[trigger] players@[j].characters@[k]).shows(*roster, found@[j].rows@[k]),
        decreases found@.len() - i,
    {
        let row = &found[i];
        assert(rows_shown(*roster, found@[i as int].rows@));
        players.push(PlayerLookupPlayer::new(roster, row.id, row.name.clone(), &row.rows));
        i = i + 1;
    }
    players
}

/// Another character of a player, on the player's page.
#[derive(Debug)]
pub struct OtherPlayerCharacter {
    pub character_name: String,
    pub character_shortname: String,
    pub rating_value: i64,
    pub rating_deviation: i64,
    pub game_count: u64,
}

impl OtherPlayerCharacter {
    /// Whether this is the display form of a rating row.
    pub open spec fn shows(self, roster: Roster, row: PlayerRating) -> bool {
        &&& self.character_name == roster.names@[row.char_id as int].long
        &&& self.character_shortname == roster.names@[row.char_id as int].short
        &&& self.rating_value == value_points(row.rating.value as int)
        &&& self.rating_deviation == deviation_points(row.rating.deviation as int)
        &&& self.game_count == row.games()
    }
}

/// The characters of a player for the player's page.
pub fn get_player_other_characters(roster: &Roster, rows: &Vec<PlayerRating>) -> (res: Vec<
    OtherPlayerCharacter,
>)
    requires
        rows_shown(*roster, rows@),
    ensures
        res@.len() == rows@.len(),
        forall|i: int| 0 <= i < rows@.len() ==> (#[trigger] res@[i]).shows(*roster, rows@[i]),
{
    let mut res: Vec<OtherPlayerCharacter> = Vec::new();
    let mut i: usize = 0;
    while i < rows.len()
        invariant
            rows_shown(*roster, rows@),
            i <= rows@.len(),
            res@.len() == i,
            forall|k: int| 0 <= k < i ==> (#[trigger] res@[k]).shows(*roster, rows@[k]),
        decreases rows@.len() - i,
    {
        let row = &rows[i];
        res.push(
            OtherPlayerCharacter {
                character_name: roster.long_name(row.char_id),
                character_shortname: roster.short_name(row.char_id),
                rating_value: row.rating.rounded_value(),
                rating_deviation: row.rating.rounded_deviation(),
                game_count: row.game_count(),
            },
        );
        i = i + 1;
    }
    res
}

/// The names of a list, as texts.
pub open spec fn texts(names: Seq<String>) -> Seq<Seq<char>> {
    names.map_values(|name: String| name@)
}

/// The earlier names of a player: the stored names other than the current
/// one, each once, in the order in which they are stored.
pub open spec fn other_names(names: Seq<String>, current: Seq<char>) -> Seq<Seq<char>>
    decreases names.len(),
{
    if names.len() == 0 {
        Seq::empty()
    } else {
        let rest = other_names(names.drop_last(), current);
        if names.last()@ != current && !rest.contains(names.last()@) {
            rest.push(names.last()@)
        } else {
            rest
        }
    }
}

/// Whether a list of names holds the given name.
fn holds_name(names: &Vec<String>, name: &String) -> (res: bool)
    ensures
        res == texts(names@).contains(name@),
{
    let mut i: usize = 0;
    while i < names.len()
        invariant
            i <= names@.len(),
            forall|k: int| 0 <= k < i ==> names@[k]@ != name@,
        decreases names@.len() - i,
    {
        if names[i] == *name {
            assert(texts(names@)[i as int] == name@);
            return true;
        }
        i = i + 1;
    }
    proof {
        if texts(names@).contains(name@) {
            let k = choose|k: int| 0 <= k < texts(names@).len() && texts(names@)[k] == name@;
            assert(names@[k]@ == name@);
        }
    }
    false
}

/// The earlier names of a player, or nothing where there are none.
pub fn get_player_other_names(names: &Vec<String>, name: &String) -> (res: Option<Vec<String>>)
    ensures
        match res {
            Some(found) => texts(found@) == other_names(names@, name@) && found@.len() > 0,
            None => other_names(names@, name@).len() == 0,
        },
{
    let mut found: Vec<String> = Vec::new();
    let mut i: usize = 0;
    assert(texts(found@) =~= other_names(names@.take(0), name@));
    while i < names.len()
        invariant
            i <= names@.len(),
            texts(found@) == other_names(names@.take(i as int), name@),
        decreases names@.len() - i,
    {
        proof {
            assert(names@.take(i + 1).drop_last() == names@.take(i as int));
            assert(names@.take(i + 1).last() == names@[i as int]);
        }
        let ghost before = found@;
        if !(names[i] == *name) && !holds_name(&found, &names[i]) {
            found.push(names[i].clone());
            assert(texts(found@) =~= texts(before).push(names@[i as int]@));
        }
        i = i + 1;
    }
    proof {
        assert(names@.take(i as int) == names@);
    }
    if found.len() == 0 {
        None
    } else {
        Some(found)
    }
}

/// The lines of the anomaly index that have players behind them, in
/// their order.
pub open spec fn lines_with_players(lines: Seq<FraudEntry>) -> Seq<FraudEntry>
    decreases lines.len(),
{
    if lines.len() == 0 {
        Seq::empty()
    } else if lines.last().average_delta is Some {
        lines_with_players(lines.drop_last()).push(lines.last())
    } else {
        lines_with_players(lines.drop_last())
    }
}

/// The average offsets of lines that have players behind them.
pub open spec fn offsets_of(lines: Seq<FraudEntry>) -> Seq<i64> {
    lines.map_values(|line: FraudEntry| line.average_delta->0)
}

/// Whether every line is of a character that the roster knows and counts
/// no more players than a table can hold.
pub open spec fn fraud_lines_shown(roster: Roster, lines: Seq<FraudEntry>) -> bool {
    forall|i: int|
        0 <= i < lines.len() ==> roster.knows((#[trigger] lines[i]).char_id as int)
            && lines[i].player_count <= i64::MAX
}

impl FraudStats {
    /// Whether this is the display form of a line of the anomaly index.
    pub open spec fn shows(self, roster: Roster, line: FraudEntry) -> bool {
        &&& self.character_name == roster.names@[line.char_id as int].long
        &&& self.player_count == line.player_count
        &&& self.average_offset@ == signed_tenths_text(line.average_delta->0 as int)
    }
}

/// The anomaly index for display: the lines that have players behind
/// them, the highest average offset first.
pub fn get_fraud(roster: &Roster, lines: &Vec<FraudEntry>) -> (res: Vec<FraudStats>)
    requires
        fraud_lines_shown(*roster, lines@),
    ensures
        res@.len() == lines_with_players(lines@).len(),
        forall|i: int|
            0 <= i < res@.len() ==> (#[trigger] res@[i]).shows(
                *roster,
                lines_with_players(lines@)[descending(offsets_of(lines_with_players(lines@)))[i]
                    as int],
            ),
{
    let mut kept: Vec<FraudEntry> = Vec::new();
    let mut keys: Vec<i64> = Vec::new();
    let mut i: usize = 0;
    assert(keys@ =~= offsets_of(kept@));
    while i < lines.len()
        invariant
            fraud_lines_shown(*roster, lines@),
            i <= lines@.len(),
            kept@ == lines_with_players(lines@.take(i as int)),
            keys@ == offsets_of(kept@),
            forall|k: int|
                0 <= k < kept@.len() ==> roster.knows((#[trigger] kept@[k]).char_id as int)
                    && kept@[k].player_count <= i64::MAX && kept@[k].average_delta is Some,
        decreases lines@.len() - i,
    {
        let line = lines[i];
        proof {
            assert(lines@.take(i + 1).drop_last() == lines@.take(i as int));
            assert(lines@.take(i + 1).last() == line);
        }
        match line.average_delta {
            Some(delta) => {
                kept.push(line);
                keys.push(delta);
                assert(keys@ =~= offsets_of(kept@));
            },
            None => {},
        }
        i = i + 1;
    }
    proof {
        assert(lines@.take(i as int) == lines@);
    }
    let order = sort_descending(&keys);
    let mut res: Vec<FraudStats> = Vec::new();
    let mut j: usize = 0;
    while j < order.len()
        invariant
            j <= order@.len(),
            order@ == descending(keys@),
            order@.len() == kept@.len(),
            keys@ == offsets_of(kept@),
            forall|k: int| 0 <= k < order@.len() ==> (#[trigger] order@[k]) < kept@.len(),
            forall|k: int|
                0 <= k < kept@.len() ==> roster.knows((#[trigger] kept@[k]).char_id as int)
                    && kept@[k].player_count <= i64::MAX && kept@[k].average_delta is Some,
            res@.len() == j,
            forall|k: int|
                0 <= k < j ==> (#[trigger] res@[k]).shows(*roster, kept@[order@[k] as int]),
        decreases order@.len() - j,
    {
        let line = kept[order[j]];
        let delta = match line.average_delta {
            Some(delta) => delta,
            None => 0,
        };
        res.push(FraudStats::new(roster, line.char_id, line.player_count as i64, delta));
        j = j + 1;
    }
    res
}

/// The anomaly index among the higher-rated players, for display.
pub fn get_fraud_higher_rated(roster: &Roster, lines: &Vec<FraudEntry>) -> (res: Vec<FraudStats>)
    requires
        fraud_lines_shown(*roster, lines@),
    ensures
        res@.len() == lines_with_players(lines@).len(),
        forall|i: int|
            0 <= i < res@.len() ==> (#[trigger] res@[i]).shows(
                *roster,
                lines_with_players(lines@)[descending(offsets_of(lines_with_players(lines@)))[i]
                    as int],
            ),
{
    get_fraud(roster, lines)
}

/// The anomaly index among the highest-rated players, for display.
pub fn get_fraud_highest_rated(roster: &Roster, lines: &Vec<FraudEntry>) -> (res: Vec<FraudStats>)
    requires
        fraud_lines_shown(*roster, lines@),
    ensures
        res@.len() == lines_with_players(lines@).len(),
        forall|i: int|
            0 <= i < res@.len() ==> (#[trigger] res@[i]).shows(
                *roster,
                lines_with_players(lines@)[descending(offsets_of(lines_with_players(lines@)))[i]
                    as int],
            ),
{
    get_fraud(roster, lines)
}

/// The number of days that the chart of active players covers.
pub const ACTIVITY_DAYS: usize = 14;

/// The number of seconds of a day.
pub const DAY: i64 = 86_400;

/// The players who took part in a match strictly between two times, each
/// once, in the order in which they first did.
pub open spec fn players_between(matches: Seq<Match>, after: int, before: int) -> Seq<i64>
    decreases matches.len(),
{
    if matches.len() == 0 {
        Seq::empty()
    } else {
        let rest = players_between(matches.drop_last(), after, before);
        if after < matches.last().timestamp < before {
            with_player(with_player(rest, matches.last().id_a), matches.last().id_b)
        } else {
            rest
        }
    }
}

/// The number of players who were active on the `day`-th day before
/// `now`: between `day + 1` and `day` days ago, both ends left out.
pub open spec fn active_on(matches: Seq<Match>, now: int, day: int) -> nat {
    players_between(matches, now - (day + 1) * DAY, now - day * DAY).len()
}

/// The number of different players who were active on each of the last
/// fourteen days, the most recent day first.
pub fn active_players(matches: &Vec<Match>, now: i64) -> (counts: Vec<u64>)
    ensures
        counts@.len() == ACTIVITY_DAYS,
        forall|day: int|
            0 <= day < ACTIVITY_DAYS ==> #[trigger] counts@[day] == active_on(
                matches@,
                now as int,
                day,
            ),
{
    let mut counts: Vec<u64> = Vec::new();
    let mut day: usize = 0;
    while day < ACTIVITY_DAYS
        invariant
            day <= ACTIVITY_DAYS,
            counts@.len() == day,
            forall|d: int|
                0 <= d < day ==> #[trigger] counts@[d] == active_on(matches@, now as int, d),
        decreases ACTIVITY_DAYS - day,
    {
        let before: i128 = now as i128 - (day as i128) * 86_400;
        let after: i128 = now as i128 - (day as i128 + 1) * 86_400;
        let mut players: Vec<i64> = Vec::new();
        let mut i: usize = 0;
        while i < matches.len()
            invariant
                i <= matches@.len(),
                players@ == players_between(matches@.take(i as int), after as int, before as int),
            decreases matches@.len() - i,
        {
            let game = matches[i];
            proof {
                assert(matches@.take(i + 1).drop_last() == matches@.take(i as int));
                assert(matches@.take(i + 1).last() == game);
            }
            if after < game.timestamp as i128 && (game.timestamp as i128) < before {
                remember(&mut players, game.id_a);
                remember(&mut players, game.id_b);
            }
            i = i + 1;
        }
        proof {
            assert(matches@.take(i as int) == matches@);
        }
        counts.push(players.len() as u64);
        day = day + 1;
    }
    counts
}

} // verus!
