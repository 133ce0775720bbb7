//! Matchup charts: the tables of matchups shaped for display, with win
//! rates in percent, a flag for thin support, and a verdict.

use vstd::prelude::*;
use crate::fixed::{div_round, lemma_round_div_error, round_div};
use crate::fixed::ONE;
use crate::matchups::{lemma_slot, slot, MatchupCounts, MatchupTable, Tally, VersusCounts, MAX_HISTORY};
use crate::site::Roster;

verus! {

/// The verdict on a matchup from the first character's side.
#[derive(Clone, Copy, Debug, PartialEq, Eq, Structural)]
pub enum Evaluation {
    Unrated,
    VeryGood,
    Good,
    SlightlyGood,
    Even,
    SlightlyBad,
    Bad,
    VeryBad,
}

impl Evaluation {
    /// The word under which the verdict is shown.
    pub open spec fn label_text(self) -> Seq<char> {
        match self {
            Evaluation::Unrated => "none"@,
            Evaluation::VeryGood => "verygood"@,
            Evaluation::Good => "good"@,
            Evaluation::SlightlyGood => "slightlygood"@,
            Evaluation::Even => "ok"@,
            Evaluation::SlightlyBad => "slightlybad"@,
            Evaluation::Bad => "bad"@,
            Evaluation::VeryBad => "verybad"@,
        }
    }

    /// The word under which the verdict is shown.
    pub fn label(self) -> (word: &'static str)
        ensures
            word@ == self.label_text(),
    {
        match self {
            Evaluation::Unrated => "none",
            Evaluation::VeryGood => "verygood",
            Evaluation::Good => "good",
            Evaluation::SlightlyGood => "slightlygood",
            Evaluation::Even => "ok",
            Evaluation::SlightlyBad => "slightlybad",
            Evaluation::Bad => "bad",
            Evaluation::VeryBad => "verybad",
        }
    }
}

/// Whether the share of wins among wins and losses exceeds `percent`
/// hundredths.
pub open spec fn rate_above(wins: int, losses: int, percent: int) -> bool {
    100 * wins > percent * (wins + losses)
}

/// The verdict on a share of wins: very good above sixty in a hundred,
/// then in steps of four down to very bad at forty or below. Where there
/// are neither wins nor losses there is no share, and the verdict is none.
pub open spec fn verdict_of(wins: int, losses: int) -> Evaluation {
    if wins + losses <= 0 {
        Evaluation::Unrated
    } else if rate_above(wins, losses, 60) {
        Evaluation::VeryGood
    } else if rate_above(wins, losses, 56) {
        Evaluation::Good
    } else if rate_above(wins, losses, 52) {
        Evaluation::SlightlyGood
    } else if rate_above(wins, losses, 48) {
        Evaluation::Even
    } else if rate_above(wins, losses, 44) {
        Evaluation::SlightlyBad
    } else if rate_above(wins, losses, 40) {
        Evaluation::Bad
    } else {
        Evaluation::VeryBad
    }
}

/// The verdict on a matchup: none where fewer than `min_games` games
/// support it or where no win and no loss has been counted, else the
/// verdict on the share of wins.
pub open spec fn evaluation_of(wins: int, losses: int, game_count: int, min_games: int)
    -> Evaluation {
    if game_count < min_games {
        Evaluation::Unrated
    } else {
        verdict_of(wins, losses)
    }
}

/// A matchup without a win or a loss has no verdict, however many games
/// are said to support it: an empty denominator gives the marker of
/// insufficient data.
pub proof fn law_no_verdict_without_games(game_count: int, min_games: int)
    ensures
        evaluation_of(0, 0, game_count, min_games) == Evaluation::Unrated,
        verdict_of(0, 0) == Evaluation::Unrated,
{
}

/// Computes [`verdict_of`].
pub fn verdict(wins: u64, losses: u64) -> (res: Evaluation)
    ensures
        res == verdict_of(wins as int, losses as int),
{
    let w: u128 = 100 * (wins as u128);
    let total: u128 = wins as u128 + losses as u128;
    if total == 0 {
        Evaluation::Unrated
    } else if w > 60 * total {
        Evaluation::VeryGood
    } else if w > 56 * total {
        Evaluation::Good
    } else if w > 52 * total {
        Evaluation::SlightlyGood
    } else if w > 48 * total {
        Evaluation::Even
    } else if w > 44 * total {
        Evaluation::SlightlyBad
    } else if w > 40 * total {
        Evaluation::Bad
    } else {
        Evaluation::VeryBad
    }
}

/// The verdict on a matchup with the given weighted wins and losses and
/// the given number of games behind it.
pub fn get_evaluation(wins: u64, losses: u64, game_count: u64, min_games: u64) -> (res: Evaluation)
    ensures
        res == evaluation_of(wins as int, losses as int, game_count as int, min_games as int),
{
    if game_count < min_games {
        Evaluation::Unrated
    } else {
        verdict(wins, losses)
    }
}

/// The part of a whole in percent, rounded to the nearest whole number,
/// or nothing where there is no whole.
pub open spec fn percent_of(part: int, whole: int) -> Option<i64> {
    if whole <= 0 {
        None
    } else {
        Some(round_div(100 * part, whole) as i64)
    }
}

/// Computes [`percent_of`].
pub fn percent(part: u64, whole: u64) -> (res: Option<i64>)
    requires
        part <= whole,
    ensures
        res == percent_of(part as int, whole as int),
        res matches Some(p) ==> 0 <= p <= 100,
{
    if whole == 0 {
        None
    } else {
        let wide: i128 = 100 * (part as i128);
        proof {
            lemma_round_div_error(wide as int, whole as int);
            let q = round_div(wide as int, whole as int);
            assert(0 <= q <= 100) by (nonlinear_arith)
                requires
                    -whole <= 2 * (q * whole - wide) <= whole,
                    0 <= wide <= 100 * whole,
                    whole > 0,
            ;
        }
        Some(div_round(wide, whole as i128) as i64)
    }
}

/// One cell of a matchup chart.
#[derive(Clone, Copy, Debug, PartialEq, Eq)]
pub struct Matchup {
    pub win_rate_real: Option<i64>,
    pub win_rate_adjusted: Option<i64>,
    pub game_count: u64,
    pub suspicious: bool,
    pub evaluation: Evaluation,
}

impl Matchup {
    /// The cell that shows a tally: the win rates in percent, the games,
    /// the flag for fewer than `min_games` games, and the verdict on the
    /// weighted win rate.
    pub open spec fn of(tally: Tally, min_games: int) -> Matchup {
        Matchup {
            win_rate_real: percent_of(tally.wins, tally.games()),
            win_rate_adjusted: percent_of(
                tally.wins_adjusted,
                tally.wins_adjusted + tally.losses_adjusted,
            ),
            game_count: tally.games() as u64,
            suspicious: tally.games() < min_games,
            evaluation: evaluation_of(
                tally.wins_adjusted,
                tally.losses_adjusted,
                tally.games(),
                min_games,
            ),
        }
    }

    /// Computes [`Matchup::of`].
    pub fn new(counts: &MatchupCounts, min_games: u64) -> (cell: Matchup)
        requires
            counts@.within(2 * MAX_HISTORY),
        ensures
            cell == Matchup::of(counts@, min_games as int),
    {
        let games = counts.wins_real + counts.losses_real;
        assert(counts.wins_real * ONE <= 2 * 0x3FFF_FFFF * 1_000_000) by (nonlinear_arith)
            requires
                0 <= counts.wins_real <= 2 * 0x3FFF_FFFF,
                ONE == 1_000_000,
        ;
        assert(counts.losses_real * ONE <= 2 * 0x3FFF_FFFF * 1_000_000) by (nonlinear_arith)
            requires
                0 <= counts.losses_real <= 2 * 0x3FFF_FFFF,
                ONE == 1_000_000,
        ;
        let wins_adjusted = counts.wins_adjusted as u64;
        let losses_adjusted = counts.losses_adjusted as u64;
        Matchup {
            win_rate_real: percent(counts.wins_real, games),
            win_rate_adjusted: percent(wins_adjusted, wins_adjusted + losses_adjusted),
            game_count: games,
            suspicious: games < min_games,
            evaluation: get_evaluation(wins_adjusted, losses_adjusted, games, min_games),
        }
    }
}

/// The matchups of one character against every character.
#[derive(Debug)]
pub struct CharacterMatchups {
    pub name: String,
    pub matchups: Vec<Matchup>,
}

/// Whether a chart shows a table of matchups for the characters of a
/// roster.
pub open spec fn chart_shows(
    chart: Seq<CharacterMatchups>,
    table: MatchupTable,
    roster: Roster,
    min_games: int,
) -> bool {
    &&& chart.len() == table.size
    &&& forall|c: int|
        0 <= c < table.size ==> (#[trigger] chart[c]).name == roster.names@[c].long
            && chart[c].matchups@.len() == table.size
    &&& forall|c: int, o: int|
        0 <= c < table.size && 0 <= o < table.size ==> #[trigger] chart[c].matchups@[o]
            == Matchup::of(table.at(c, o)@, min_games)
}

/// Shapes a table of matchups for display.
fn draw_chart(table: &MatchupTable, roster: &Roster, min_games: u64) -> (chart: Vec<
    CharacterMatchups,
>)
    requires
        table.wf(),
        table.bounded(),
        roster.names@.len() == table.size,
    ensures
        chart_shows(chart@, *table, *roster, min_games as int),
{
    let mut chart: Vec<CharacterMatchups> = Vec::new();
    let mut c: usize = 0;
    while c < table.size
        invariant
            table.wf(),
            table.bounded(),
            roster.names@.len() == table.size,
            c <= table.size,
            chart@.len() == c,
            forall|k: int|
                0 <= k < c ==> (#[trigger] chart@[k]).name == roster.names@[k].long
                    && chart@[k].matchups@.len() == table.size,
            forall|k: int, o: int|
                0 <= k < c && 0 <= o < table.size ==> #[trigger] chart@[k].matchups@[o]
                    == Matchup::of(table.at(k, o)@, min_games as int),
        decreases table.size - c,
    {
        let mut row: Vec<Matchup> = Vec::new();
        let mut o: usize = 0;
        while o < table.size
            invariant
                table.wf(),
                table.bounded(),
                c < table.size,
                o <= table.size,
                row@.len() == o,
                forall|k: int|
                    0 <= k < o ==> #[trigger] row@[k] == Matchup::of(
                        table.at(c as int, k)@,
                        min_games as int,
                    ),
            decreases table.size - o,
        {
            let counts = table.get(c, o);
            proof {
                assert(table.at(c as int, o as int)@.within(2 * MAX_HISTORY));
            }
            row.push(Matchup::new(&counts, min_games));
            o = o + 1;
        }
        chart.push(CharacterMatchups { name: roster.long_name(c as i64), matchups: row });
        c = c + 1;
    }
    chart
}

/// The chart of all matchups: for each character of the roster its
/// matchups against every character.
pub fn matchups_global_inner(table: &MatchupTable, roster: &Roster, min_games: u64) -> (chart: Vec<
    CharacterMatchups,
>)
    requires
        table.wf(),
        table.bounded(),
        roster.names@.len() == table.size,
    ensures
        chart_shows(chart@, *table, *roster, min_games as int),
{
    draw_chart(table, roster, min_games)
}

/// The chart of the matchups among highly rated players.
pub fn matchups_high_rated_inner(table: &MatchupTable, roster: &Roster, min_games: u64) -> (chart:
    Vec<CharacterMatchups>)
    requires
        table.wf(),
        table.bounded(),
        roster.names@.len() == table.size,
    ensures
        chart_shows(chart@, *table, *roster, min_games as int),
{
    draw_chart(table, roster, min_games)
}

/// One cell of the chart of characters against characters across all
/// players.
#[derive(Clone, Copy, Debug, PartialEq, Eq)]
pub struct VersusMatchup {
    pub win_rate: Option<i64>,
    pub game_count: u64,
    pub pair_count: u64,
    pub suspicious: bool,
    pub evaluation: Evaluation,
}

impl VersusMatchup {
    /// The cell of a character against itself: an even matchup without
    /// games.
    pub open spec fn mirror() -> VersusMatchup {
        VersusMatchup {
            win_rate: Some(50),
            game_count: 0,
            pair_count: 0,
            suspicious: false,
            evaluation: Evaluation::Even,
        }
    }

    /// The cell that shows the meetings of two different characters: the
    /// first one's win rate in percent, the games and pairs, the flag for
    /// fewer than `min_pairs` pairs or fewer than `min_games` games, and
    /// the verdict on the win rate, none where they never met.
    pub open spec fn of(counts: VersusCounts, min_games: int, min_pairs: int) -> VersusMatchup {
        VersusMatchup {
            win_rate: percent_of(counts.wins as int, counts.games as int),
            game_count: counts.games,
            pair_count: counts.pairs,
            suspicious: counts.pairs < min_pairs || counts.games < min_games,
            evaluation: verdict_of(counts.wins as int, counts.games - counts.wins),
        }
    }

    /// Computes [`VersusMatchup::of`].
    pub fn new(counts: &VersusCounts, min_games: u64, min_pairs: u64) -> (cell: VersusMatchup)
        requires
            counts.wins <= counts.games,
        ensures
            cell == VersusMatchup::of(*counts, min_games as int, min_pairs as int),
    {
        VersusMatchup {
            win_rate: percent(counts.wins, counts.games),
            game_count: counts.games,
            pair_count: counts.pairs,
            suspicious: counts.pairs < min_pairs || counts.games < min_games,
            evaluation: verdict(counts.wins, counts.games - counts.wins),
        }
    }
}

/// The meetings of one character with every character.
#[derive(Debug)]
pub struct VersusCharacterMatchups {
    pub name: String,
    pub matchups: Vec<VersusMatchup>,
}

/// The cell of the chart for two characters.
pub open spec fn versus_cell(
    cells: Seq<VersusCounts>,
    size: int,
    a: int,
    b: int,
    min_games: int,
    min_pairs: int,
) -> VersusMatchup {
    if a == b {
        VersusMatchup::mirror()
    } else {
        VersusMatchup::of(cells[slot(a, b, size)], min_games, min_pairs)
    }
}

/// The chart of characters against characters across all players, from
/// the meetings of every pair of characters of the roster.
pub fn matchups_versus(cells: &Vec<VersusCounts>, roster: &Roster, min_games: u64, min_pairs: u64)
    -> (chart: Vec<VersusCharacterMatchups>)
    requires
        roster.names@.len() <= crate::matchups::MAX_CHARACTERS,
        cells@.len() == roster.names@.len() * roster.names@.len(),
        forall|i: int| 0 <= i < cells@.len() ==> (#[trigger] cells@[i]).wins <= cells@[i].games,
    ensures
        chart@.len() == roster.names@.len(),
        forall|a: int|
            0 <= a < roster.names@.len() ==> (#[trigger] chart@[a]).name == roster.names@[a].long
                && chart@[a].matchups@.len() == roster.names@.len(),
        forall|a: int, b: int|
            0 <= a < roster.names@.len() && 0 <= b < roster.names@.len()
                ==> #[trigger] chart@[a].matchups@[b] == versus_cell(
                cells@,
                roster.names@.len() as int,
                a,
                b,
                min_games as int,
                min_pairs as int,
            ),
{
    let size = roster.names.len();
    let mut chart: Vec<VersusCharacterMatchups> = Vec::new();
    let mut a: usize = 0;
    while a < size
        invariant
            size == roster.names@.len(),
            size <= crate::matchups::MAX_CHARACTERS,
            cells@.len() == size * size,
            forall|i: int| 0 <= i < cells@.len() ==> (#[trigger] cells@[i]).wins <= cells@[i].games,
            a <= size,
            chart@.len() == a,
            forall|k: int|
                0 <= k < a ==> (#[trigger] chart@[k]).name == roster.names@[k].long
                    && chart@[k].matchups@.len() == size,
            forall|k: int, b: int|
                0 <= k < a && 0 <= b < size ==> #[trigger] chart@[k].matchups@[b] == versus_cell(
                    cells@,
                    size as int,
                    k,
                    b,
                    min_games as int,
                    min_pairs as int,
                ),
        decreases size - a,
    {
        let mut row: Vec<VersusMatchup> = Vec::new();
        let mut b: usize = 0;
        while b < size
            invariant
                size <= crate::matchups::MAX_CHARACTERS,
                cells@.len() == size * size,
                forall|i: int|
                    0 <= i < cells@.len() ==> (#[trigger] cells@[i]).wins <= cells@[i].games,
                a < size,
                b <= size,
                row@.len() == b,
                forall|k: int|
                    0 <= k < b ==> #[trigger] row@[k] == versus_cell(
                        cells@,
                        size as int,
                        a as int,
                        k,
                        min_games as int,
                        min_pairs as int,
                    ),
            decreases size - b,
        {
            let cell = if a == b {
                VersusMatchup {
                    win_rate: Some(50),
                    game_count: 0,
                    pair_count: 0,
                    suspicious: false,
                    evaluation: Evaluation::Even,
                }
            } else {
                proof {
                    lemma_slot(a as int, b as int, size as int);
                    assert(size * size <= 1024 * 1024) by (nonlinear_arith)
                        requires
                            size <= 1024,
                    ;
                }
                let counts = cells[a * size + b];
                VersusMatchup::new(&counts, min_games, min_pairs)
            };
            row.push(cell);
            b = b + 1;
        }
        chart.push(VersusCharacterMatchups { name: roster.long_name(a as i64), matchups: row });
        a = a + 1;
    }
    chart
}

} // verus!
