//! Distributions shaped for display: the floors, the brackets of ratings,
//! and the popularity of the characters.

use vstd::prelude::*;
use vstd::string::*;
use crate::charts::Evaluation;
use crate::distribution::{Brackets, RatingBracket};
use crate::fixed::{div_round, lemma_round_div_error, round_div, ONE};
use crate::floors::{FloorCount, TOP_FLOOR};
use crate::text::{dec_text, push_decimal};

verus! {

/// The largest count that a line of a distribution shows.
pub const MAX_SHOWN: u64 = 0xFFFF_FFFF;

/// The part of a whole in tenths of a percent, rounded to the nearest,
/// or nothing where there is no whole.
pub open spec fn per_mille_of(part: int, whole: int) -> Option<i64> {
    if whole <= 0 {
        None
    } else {
        Some(round_div(1000 * part, whole) as i64)
    }
}

/// Computes [`per_mille_of`].
pub fn per_mille(part: u64, whole: u64) -> (res: Option<i64>)
    requires
        part <= 0xFFFF_FFFF_FFFF,
    ensures
        res == per_mille_of(part as int, whole as int),
{
    if whole == 0 {
        None
    } else {
        let wide: i128 = 1000 * (part as i128);
        proof {
            lemma_round_div_error(wide as int, whole as int);
            let q = round_div(wide as int, whole as int);
            assert(0 <= q <= wide + 1) by (nonlinear_arith)
                requires
                    -whole <= 2 * (q * whole - wide) <= whole,
                    0 <= wide,
                    whole >= 1,
            ;
        }
        Some(div_round(wide, whole as i128) as i64)
    }
}

/// The name under which a floor is shown: `Celestial` for the top tier,
/// `Floor` and the number for every other.
pub open spec fn floor_name_text(floor: int) -> Seq<char> {
    if floor == TOP_FLOOR {
        "Celestial"@
    } else {
        "Floor "@ + dec_text(floor)
    }
}

/// Computes [`floor_name_text`].
pub fn floor_name(floor: i64) -> (name: String)
    ensures
        name@ == floor_name_text(floor as int),
{
    if floor == TOP_FLOOR {
        String::from_str("Celestial")
    } else {
        let mut name = String::from_str("Floor ");
        push_decimal(&mut name, floor);
        name
    }
}

/// One line of the floor distribution for display. The percentages are
/// in tenths of a percent.
#[derive(Debug)]
pub struct FloorPlayers {
    pub floor: String,
    pub player_count: u64,
    pub player_percentage: Option<i64>,
    pub game_count: u64,
    pub game_percentage: Option<i64>,
}

/// The sum of the players of some lines.
pub open spec fn players_total(lines: Seq<FloorCount>) -> int
    decreases lines.len(),
{
    if lines.len() == 0 {
        0
    } else {
        players_total(lines.drop_last()) + lines.last().player_count
    }
}

/// The sum of the games of some lines.
pub open spec fn games_sum(lines: Seq<FloorCount>) -> int
    decreases lines.len(),
{
    if lines.len() == 0 {
        0
    } else {
        games_sum(lines.drop_last()) + lines.last().game_count
    }
}

/// Whether the lines are few and their counts of a size that can be
/// shown.
pub open spec fn floor_lines_shown(lines: Seq<FloorCount>) -> bool {
    &&& lines.len() <= 1024
    &&& forall|i: int|
        0 <= i < lines.len() ==> (#[trigger] lines[i]).player_count <= MAX_SHOWN
            && lines[i].game_count <= MAX_SHOWN
}

impl FloorPlayers {
    /// Whether this is the display form of a line among all lines.
    pub open spec fn shows(self, line: FloorCount, lines: Seq<FloorCount>) -> bool {
        &&& self.floor@ == floor_name_text(line.floor as int)
        &&& self.player_count == line.player_count
        &&& self.game_count == line.game_count
        &&& self.player_percentage == per_mille_of(line.player_count as int, players_total(lines))
        &&& self.game_percentage == per_mille_of(line.game_count as int, games_sum(lines))
    }
}

/// The shares of the players on the first `count` lines, in tenths of a
/// percent, added up.
pub open spec fn player_shares_sum(lines: Seq<FloorCount>, whole: int, count: int) -> int
    decreases count,
{
    if count <= 0 {
        0
    } else {
        player_shares_sum(lines, whole, count - 1) + round_div(
            1000 * lines[count - 1].player_count,
            whole,
        )
    }
}

/// The shares of the players on the floors add up to a hundred percent
/// within rounding: the sum is off by no more than half a tenth of a
/// percent for each line.
pub proof fn law_floor_shares_add_up(lines: Seq<FloorCount>)
    requires
        players_total(lines) > 0,
    ensures
        -lines.len() <= 2 * (player_shares_sum(lines, players_total(lines), lines.len() as int)
            - 1000) <= lines.len(),
{
    let whole = players_total(lines);
    lemma_floor_shares_prefix(lines, whole, lines.len() as int);
    assert(lines.take(lines.len() as int) =~= lines);
    let sum = player_shares_sum(lines, whole, lines.len() as int);
    let n = lines.len() as int;
    assert(-n <= 2 * (sum - 1000) <= n) by (nonlinear_arith)
        requires
            -(n * whole) <= 2 * (sum * whole - 1000 * whole) <= n * whole,
            whole > 0,
    ;
}

/// The shares of the first `count` lines, times the whole, are off the
/// thousandfold of their players by no more than half the whole for each
/// line.
proof fn lemma_floor_shares_prefix(lines: Seq<FloorCount>, whole: int, count: int)
    requires
        whole > 0,
        0 <= count <= lines.len(),
    ensures
        -(count * whole) <= 2 * (player_shares_sum(lines, whole, count) * whole - 1000
            * players_total(lines.take(count))) <= count * whole,
    decreases count,
{
    if count == 0 {
        assert(lines.take(0) =~= Seq::<FloorCount>::empty());
        assert(0 * whole == 0) by (nonlinear_arith);
    } else {
        lemma_floor_shares_prefix(lines, whole, count - 1);
        assert(lines.take(count).drop_last() =~= lines.take(count - 1));
        assert(lines.take(count).last() == lines[count - 1]);
        let players = lines[count - 1].player_count as int;
        lemma_round_div_error(1000 * players, whole);
        let q = round_div(1000 * players, whole);
        let before = player_shares_sum(lines, whole, count - 1);
        let seen = players_total(lines.take(count - 1));
        assert(-(count * whole) <= 2 * ((before + q) * whole - 1000 * (seen + players)) <= count
            * whole) by (nonlinear_arith)
            requires
                -((count - 1) * whole) <= 2 * (before * whole - 1000 * seen) <= (count - 1)
                    * whole,
                -whole <= 2 * (q * whole - 1000 * players) <= whole,
        ;
    }
}

/// The floor distribution for display: each line with its share of all
/// players and of all games.
pub fn player_floors_distribution(lines: &Vec<FloorCount>) -> (res: Vec<FloorPlayers>)
    requires
        floor_lines_shown(lines@),
    ensures
        res@.len() == lines@.len(),
        forall|i: int| 0 <= i < lines@.len() ==> (#[trigger] res@[i]).shows(lines@[i], lines@),
{
    let mut total_players: u64 = 0;
    let mut total_games: u64 = 0;
    let mut i: usize = 0;
    while i < lines.len()
        invariant
            floor_lines_shown(lines@),
            i <= lines@.len(),
            total_players == players_total(lines@.take(i as int)),
            total_games == games_sum(lines@.take(i as int)),
            total_players <= i * 0xFFFF_FFFF,
            total_games <= i * 0xFFFF_FFFF,
        decreases lines@.len() - i,
    {
        proof {
            assert(lines@.take(i + 1).drop_last() == lines@.take(i as int));
            assert(lines@.take(i + 1).last() == lines@[i as int]);
        }
        total_players = total_players + lines[i].player_count;
        total_games = total_games + lines[i].game_count;
        i = i + 1;
    }
    proof {
        assert(lines@.take(i as int) == lines@);
    }
    let mut res: Vec<FloorPlayers> = Vec::new();
    let mut k: usize = 0;
    while k < lines.len()
        invariant
            floor_lines_shown(lines@),
            k <= lines@.len(),
            total_players == players_total(lines@),
            total_games == games_sum(lines@),
            res@.len() == k,
            forall|j: int| 0 <= j < k ==> (#[trigger] res@[j]).shows(lines@[j], lines@),
        decreases lines@.len() - k,
    {
        let line = lines[k];
        res.push(
            FloorPlayers {
                floor: floor_name(line.floor),
                player_count: line.player_count,
                player_percentage: per_mille(line.player_count, total_players),
                game_count: line.game_count,
                game_percentage: per_mille(line.game_count, total_games),
            },
        );
        k = k + 1;
    }
    res
}

/// One bracket of the distribution of ratings for display. The
/// percentages are in tenths of a percent.
#[derive(Clone, Copy, Debug, PartialEq, Eq)]
pub struct RatingPlayers {
    pub min_rating: i64,
    pub max_rating: i64,
    pub player_count: u64,
    pub player_percentage: Option<i64>,
    pub player_count_cum: u64,
    pub player_percentage_cum: Option<i64>,
}

/// The largest cumulative count of some brackets: the number of all
/// players.
pub open spec fn largest_cum(rows: Seq<RatingBracket>) -> int
    decreases rows.len(),
{
    if rows.len() == 0 {
        0
    } else if rows.last().player_count_cum > largest_cum(rows.drop_last()) {
        rows.last().player_count_cum as int
    } else {
        largest_cum(rows.drop_last())
    }
}

/// Whether the counts of the brackets are of a size that can be shown.
pub open spec fn brackets_shown(rows: Seq<RatingBracket>) -> bool {
    forall|i: int|
        0 <= i < rows.len() ==> (#[trigger] rows[i]).player_count <= MAX_SHOWN
            && rows[i].player_count_cum <= MAX_SHOWN
}

impl RatingPlayers {
    /// The display form of a bracket among `total` players.
    pub open spec fn of(row: RatingBracket, total: int) -> RatingPlayers {
        RatingPlayers {
            min_rating: row.min_rating,
            max_rating: row.max_rating,
            player_count: row.player_count,
            player_percentage: per_mille_of(row.player_count as int, total),
            player_count_cum: row.player_count_cum,
            player_percentage_cum: per_mille_of(row.player_count_cum as int, total),
        }
    }
}

/// The distribution of ratings for display: each bracket with its share,
/// and the share of it and all brackets below, of all players.
pub fn player_ratings_distribution(rows: &Vec<RatingBracket>) -> (res: Vec<RatingPlayers>)
    requires
        brackets_shown(rows@),
    ensures
        res@.len() == rows@.len(),
        forall|i: int|
            0 <= i < rows@.len() ==> #[trigger] res@[i] == RatingPlayers::of(
                rows@[i],
                largest_cum(rows@),
            ),
{
    let mut total: u64 = 0;
    let mut i: usize = 0;
    while i < rows.len()
        invariant
            i <= rows@.len(),
            total == largest_cum(rows@.take(i as int)),
        decreases rows@.len() - i,
    {
        proof {
            assert(rows@.take(i + 1).drop_last() == rows@.take(i as int));
            assert(rows@.take(i + 1).last() == rows@[i as int]);
        }
        if rows[i].player_count_cum > total {
            total = rows[i].player_count_cum;
        }
        i = i + 1;
    }
    proof {
        assert(rows@.take(i as int) == rows@);
    }
    let mut res: Vec<RatingPlayers> = Vec::new();
    let mut k: usize = 0;
    while k < rows.len()
        invariant
            brackets_shown(rows@),
            k <= rows@.len(),
            total == largest_cum(rows@),
            res@.len() == k,
            forall|j: int| 0 <= j < k ==> #[trigger] res@[j] == RatingPlayers::of(rows@[j], total as int),
        decreases rows@.len() - k,
    {
        let row = rows[k];
        res.push(
            RatingPlayers {
                min_rating: row.min_rating,
                max_rating: row.max_rating,
                player_count: row.player_count,
                player_percentage: per_mille(row.player_count, total),
                player_count_cum: row.player_count_cum,
                player_percentage_cum: per_mille(row.player_count_cum, total),
            },
        );
        k = k + 1;
    }
    res
}

/// The lowest rating that the popularity chart names.
pub const LOWEST_SHOWN: i64 = 0;

/// The highest rating that the popularity chart names.
pub const HIGHEST_SHOWN: i64 = 3000;

/// A share in millionths as tenths of a percent, rounded to the nearest.
pub open spec fn shown_share(part: Option<i64>) -> Option<i64> {
    match part {
        Some(share) => Some(round_div(share * 1000, ONE as int) as i64),
        None => None,
    }
}

/// Computes [`shown_share`].
pub fn show_share(part: Option<i64>) -> (res: Option<i64>)
    requires
        part matches Some(share) ==> 0 <= share <= ONE,
    ensures
        res == shown_share(part),
        res matches Some(shown) ==> 0 <= shown <= 1000,
{
    match part {
        Some(share) => {
            proof {
                lemma_round_div_error(share * 1000, ONE as int);
            }
            Some(div_round((share as i128) * 1000, ONE as i128) as i64)
        },
        None => None,
    }
}

/// How far a popularity lies above the overall popularity, in tenths of a
/// percent of the overall popularity, or nothing where either is missing
/// or the overall popularity is zero.
pub open spec fn overrepresentation(popularity: Option<i64>, overall: Option<i64>) -> Option<i64> {
    match (popularity, overall) {
        (Some(here), Some(everywhere)) => if everywhere > 0 {
            Some(round_div((here - everywhere) * 1000, everywhere as int) as i64)
        } else {
            None
        },
        _ => None,
    }
}

/// The verdict on an overrepresentation: very good above fifty percent,
/// good above fifteen, even above minus fifteen, bad above minus fifty,
/// else very bad. Where there is no overrepresentation to judge, because
/// a figure is missing or the overall popularity is zero, the verdict is
/// none.
pub open spec fn popularity_verdict(popularity: Option<i64>, overall: Option<i64>) -> Evaluation {
    match overrepresentation(popularity, overall) {
        Some(delta) => if delta > 500 {
            Evaluation::VeryGood
        } else if delta > 150 {
            Evaluation::Good
        } else if delta > -150 {
            Evaluation::Even
        } else if delta > -500 {
            Evaluation::Bad
        } else {
            Evaluation::VeryBad
        },
        None => Evaluation::Unrated,
    }
}

/// The popularity of one character in one bracket of ratings.
#[derive(Clone, Copy, Debug, PartialEq, Eq)]
pub struct RankCharacterPopularity {
    pub popularity: Option<i64>,
    pub delta: Option<i64>,
    pub evaluation: Evaluation,
}

impl RankCharacterPopularity {
    /// The line for a popularity in a bracket and the overall popularity,
    /// both in tenths of a percent.
    pub open spec fn of(popularity: Option<i64>, overall: Option<i64>) -> RankCharacterPopularity {
        RankCharacterPopularity {
            popularity,
            delta: overrepresentation(popularity, overall),
            evaluation: popularity_verdict(popularity, overall),
        }
    }

    /// Computes [`RankCharacterPopularity::of`].
    pub fn new(popularity: Option<i64>, overall: Option<i64>) -> (line: RankCharacterPopularity)
        requires
            popularity matches Some(here) ==> 0 <= here <= 1000,
            overall matches Some(everywhere) ==> 0 <= everywhere <= 1000,
        ensures
            line == RankCharacterPopularity::of(popularity, overall),
    {
        let delta = match (popularity, overall) {
            (Some(here), Some(everywhere)) => {
                if everywhere > 0 {
                    let wide: i128 = ((here - everywhere) as i128) * 1000;
                    proof {
                        lemma_round_div_error(wide as int, everywhere as int);
                        let q = round_div(wide as int, everywhere as int);
                        assert(-1_000_001 <= q <= 1_000_001) by (nonlinear_arith)
                            requires
                                -everywhere <= 2 * (q * everywhere - wide) <= everywhere,
                                -1_000_000 <= wide <= 1_000_000,
                                everywhere >= 1,
                        ;
                    }
                    Some(div_round(wide, everywhere as i128) as i64)
                } else {
                    None
                }
            },
            _ => None,
        };
        let evaluation = match delta {
            Some(delta) => {
                if delta > 500 {
                    Evaluation::VeryGood
                } else if delta > 150 {
                    Evaluation::Good
                } else if delta > -150 {
                    Evaluation::Even
                } else if delta > -500 {
                    Evaluation::Bad
                } else {
                    Evaluation::VeryBad
                }
            },
            None => Evaluation::Unrated,
        };
        RankCharacterPopularity { popularity, delta, evaluation }
    }
}

/// The popularity of every character in one bracket of ratings.
#[derive(Debug)]
pub struct RankCharacterPopularities {
    pub rating_min: i64,
    pub rating_max: i64,
    pub characters: Vec<RankCharacterPopularity>,
}

/// The lower end that the chart names for a bracket: the lowest rating
/// for the first bracket, the bracket's lower edge for every other.
pub open spec fn shown_min(brackets: Brackets, r: int) -> int {
    if r > 0 {
        brackets.lower_edge(r)
    } else {
        LOWEST_SHOWN as int
    }
}

/// The upper end that the chart names for a bracket: the highest rating
/// for the last bracket, the bracket's upper edge for every other.
pub open spec fn shown_max(brackets: Brackets, r: int) -> int {
    if r < brackets.count - 1 {
        brackets.lower_edge(r + 1)
    } else {
        HIGHEST_SHOWN as int
    }
}

/// Whether every share is a share: between zero and one.
pub open spec fn shares_wf(shares: Seq<Option<i64>>) -> bool {
    forall|c: int| 0 <= c < shares.len() ==> (#[trigger] shares[c] matches Some(part) ==> 0 <= part <= ONE)
}

/// The popularity chart.
#[derive(Debug)]
pub struct Popularity {
    /// The overall popularity of each character in tenths of a percent.
    pub overall: Vec<Option<i64>>,
    /// The popularity of each character in each bracket of ratings.
    pub by_rating: Vec<RankCharacterPopularities>,
}

/// The popularity chart: the overall popularity of each character, and
/// for each bracket of ratings the popularity of each character there,
/// set against its overall popularity.
pub fn character_popularity(
    overall: &Vec<Option<i64>>,
    by_rating: &Vec<Vec<Option<i64>>>,
    brackets: Brackets,
) -> (chart: Popularity)
    requires
        brackets.wf(),
        by_rating@.len() == brackets.count,
        shares_wf(overall@),
        forall|r: int|
            0 <= r < by_rating@.len() ==> (#[trigger] by_rating@[r])@.len() == overall@.len()
                && shares_wf(by_rating@[r]@),
    ensures
        chart.overall@.len() == overall@.len(),
        forall|c: int|
            0 <= c < overall@.len() ==> #[trigger] chart.overall@[c] == shown_share(overall@[c]),
        chart.by_rating@.len() == brackets.count,
        forall|r: int|
            0 <= r < brackets.count ==> (#[trigger] chart.by_rating@[r]).rating_min == shown_min(
                brackets,
                r,
            ) && chart.by_rating@[r].rating_max == shown_max(brackets, r)
                && chart.by_rating@[r].characters@.len() == overall@.len(),
        forall|r: int, c: int|
            0 <= r < brackets.count && 0 <= c < overall@.len()
                ==> #[trigger] chart.by_rating@[r].characters@[c] == RankCharacterPopularity::of(
                shown_share(by_rating@[r]@[c]),
                shown_share(overall@[c]),
            ),
{
    let mut shown: Vec<Option<i64>> = Vec::new();
    let mut c: usize = 0;
    while c < overall.len()
        invariant
            shares_wf(overall@),
            c <= overall@.len(),
            shown@.len() == c,
            forall|k: int| 0 <= k < c ==> #[trigger] shown@[k] == shown_share(overall@[k]),
            forall|k: int| 0 <= k < c ==> (#[trigger] shown@[k] matches Some(part) ==> 0 <= part <= 1000),
        decreases overall@.len() - c,
    {
        shown.push(show_share(overall[c]));
        c = c + 1;
    }
    let mut rows: Vec<RankCharacterPopularities> = Vec::new();
    let mut r: usize = 0;
    while r < brackets.count
        invariant
            brackets.wf(),
            by_rating@.len() == brackets.count,
            forall|k: int|
                0 <= k < by_rating@.len() ==> (#[trigger] by_rating@[k])@.len() == overall@.len()
                    && shares_wf(by_rating@[k]@),
            shown@.len() == overall@.len(),
            forall|k: int| 0 <= k < overall@.len() ==> #[trigger] shown@[k] == shown_share(overall@[k]),
            forall|k: int|
                0 <= k < overall@.len() ==> (#[trigger] shown@[k] matches Some(part) ==> 0 <= part
                    <= 1000),
            r <= brackets.count,
            rows@.len() == r,
            forall|k: int|
                0 <= k < r ==> (#[trigger] rows@[k]).rating_min == shown_min(brackets, k)
                    && rows@[k].rating_max == shown_max(brackets, k) && rows@[k].characters@.len()
                    == overall@.len(),
            forall|k: int, j: int|
                0 <= k < r && 0 <= j < overall@.len() ==> #[trigger] rows@[k].characters@[j]
                    == RankCharacterPopularity::of(
                    shown_share(by_rating@[k]@[j]),
                    shown_share(overall@[j]),
                ),
        decreases brackets.count - r,
    {
        let shares = &by_rating[r];
        assert(shares@.len() == overall@.len() && shares_wf(shares@));
        let mut characters: Vec<RankCharacterPopularity> = Vec::new();
        let mut j: usize = 0;
        while j < shares.len()
            invariant
                shares@.len() == shown@.len(),
                shares_wf(shares@),
                forall|k: int|
                    0 <= k < shown@.len() ==> (#[trigger] shown@[k] matches Some(part) ==> 0
                        <= part <= 1000),
                j <= shares@.len(),
                characters@.len() == j,
                forall|k: int|
                    0 <= k < j ==> #[trigger] characters@[k] == RankCharacterPopularity::of(
                        shown_share(shares@[k]),
                        shown@[k],
                    ),
            decreases shares@.len() - j,
        {
            let here = show_share(shares[j]);
            let everywhere = shown[j];
            characters.push(RankCharacterPopularity::new(here, everywhere));
            j = j + 1;
        }
        let rating_min = if r > 0 {
            brackets.lower(r)
        } else {
            LOWEST_SHOWN
        };
        let rating_max = if r < brackets.count - 1 {
            brackets.lower(r + 1)
        } else {
            HIGHEST_SHOWN
        };
        rows.push(RankCharacterPopularities { rating_min, rating_max, characters });
        r = r + 1;
    }
    Popularity { overall: shown, by_rating: rows }
}

} // verus!
