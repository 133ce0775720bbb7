//! The history of one player with one character: the recent matches,
//! grouped into sets against the same opponent and shaped for display.

use vstd::prelude::*;
use vstd::string::*;
use crate::charts::{percent, percent_of};
use crate::clock::{date_hour_minute, timestamp_in_range, utc_text};
use crate::fixed::{div_round, lemma_round_div_error, round_div, ONE};
use crate::glicko::{
    deviation_points, expected_score, updated, value_points, Outcome, Rating, DISPLAY_SCALE,
    DISPLAY_UNIT, MAX_GAMES, VALUE_LIMIT,
};
use crate::site::Roster;
use crate::text::{
    dec_text, floor_text, hex_id, hex_id_text, push_decimal, push_signed_tenths,
    signed_tenths_text, stringify_floor,
};

verus! {

/// The result of a match for one of its players, from the outcome code as
/// that player's side of the log holds it: one and four stand for a win,
/// two and three for a loss.
pub open spec fn result_of_code(code: int) -> Option<bool> {
    if code == 1 || code == 4 {
        Some(true)
    } else if code == 2 || code == 3 {
        Some(false)
    } else {
        None
    }
}

/// Computes [`result_of_code`].
pub fn seen_result(code: i64) -> (res: Option<bool>)
    ensures
        res == result_of_code(code as int),
{
    if code == 1 || code == 4 {
        Some(true)
    } else if code == 2 || code == 3 {
        Some(false)
    } else {
        None
    }
}

/// A match as one of its players saw it.
#[derive(Debug)]
pub struct HistoryRow {
    pub timestamp: i64,
    pub own: Rating,
    pub floor: i64,
    pub opponent_name: String,
    pub opponent_id: i64,
    pub opponent_char: i64,
    pub opponent: Rating,
    pub won: bool,
    pub opponent_vip: bool,
    pub opponent_cheater: bool,
}

/// The matches in a row against one opponent, before they are shaped for
/// display.
#[derive(Debug)]
pub struct RawPlayerSet {
    pub timestamp: i64,
    pub own: Rating,
    pub floor: i64,
    pub opponent_name: String,
    pub opponent_vip: bool,
    pub opponent_cheater: bool,
    pub opponent_id: i64,
    pub opponent_char: i64,
    pub opponent: Rating,
    pub rating_change_sequence: Vec<i64>,
    pub result_wins: u64,
    pub result_losses: u64,
}

/// The mathematical value of a [`RawPlayerSet`].
pub struct SetModel {
    pub timestamp: i64,
    pub own: Rating,
    pub floor: i64,
    pub opponent_name: Seq<char>,
    pub opponent_vip: bool,
    pub opponent_cheater: bool,
    pub opponent_id: i64,
    pub opponent_char: i64,
    pub opponent: Rating,
    pub changes: Seq<i64>,
    pub wins: int,
    pub losses: int,
}

/// The mathematical value of a [`HistoryRow`].
pub struct RowModel {
    pub timestamp: i64,
    pub own: Rating,
    pub floor: i64,
    pub opponent_name: Seq<char>,
    pub opponent_id: i64,
    pub opponent_char: i64,
    pub opponent: Rating,
    pub won: bool,
    pub opponent_vip: bool,
    pub opponent_cheater: bool,
}

impl View for RawPlayerSet {
    type V = SetModel;

    open spec fn view(&self) -> SetModel {
        SetModel {
            timestamp: self.timestamp,
            own: self.own,
            floor: self.floor,
            opponent_name: self.opponent_name@,
            opponent_vip: self.opponent_vip,
            opponent_cheater: self.opponent_cheater,
            opponent_id: self.opponent_id,
            opponent_char: self.opponent_char,
            opponent: self.opponent,
            changes: self.rating_change_sequence@,
            wins: self.result_wins as int,
            losses: self.result_losses as int,
        }
    }
}

impl View for HistoryRow {
    type V = RowModel;

    open spec fn view(&self) -> RowModel {
        RowModel {
            timestamp: self.timestamp,
            own: self.own,
            floor: self.floor,
            opponent_name: self.opponent_name@,
            opponent_id: self.opponent_id,
            opponent_char: self.opponent_char,
            opponent: self.opponent,
            won: self.won,
            opponent_vip: self.opponent_vip,
            opponent_cheater: self.opponent_cheater,
        }
    }
}

/// The values of a list of sets.
pub open spec fn set_models(sets: Seq<RawPlayerSet>) -> Seq<SetModel> {
    sets.map_values(|set: RawPlayerSet| set@)
}

/// The values of a list of rows.
pub open spec fn row_models(rows: Seq<HistoryRow>) -> Seq<RowModel> {
    rows.map_values(|row: HistoryRow| row@)
}

impl RowModel {
    /// Whether both ratings of the row are valid.
    pub open spec fn wf(self) -> bool {
        self.own.wf() && self.opponent.wf()
    }

    /// What the match changed in the player's value, had it been the only
    /// match of its period.
    pub open spec fn change(self) -> i64 {
        (updated(
            self.own,
            seq![(self.opponent, if self.won {
                Outcome::Win
            } else {
                Outcome::Loss
            })],
        ).value - self.own.value) as i64
    }

    /// The set that the match begins.
    pub open spec fn begins(self) -> SetModel {
        SetModel {
            timestamp: self.timestamp,
            own: self.own,
            floor: self.floor,
            opponent_name: self.opponent_name,
            opponent_vip: self.opponent_vip,
            opponent_cheater: self.opponent_cheater,
            opponent_id: self.opponent_id,
            opponent_char: self.opponent_char,
            opponent: self.opponent,
            changes: seq![self.change()],
            wins: if self.won {
                1
            } else {
                0
            },
            losses: if self.won {
                0
            } else {
                1
            },
        }
    }
}

impl SetModel {
    /// Whether the set is in order: valid ratings, at least one match, and
    /// as many changes as wins and losses, each no larger than two valid
    /// values can differ.
    pub open spec fn wf(self) -> bool {
        &&& self.own.wf()
        &&& self.opponent.wf()
        &&& 0 <= self.wins
        &&& 0 <= self.losses
        &&& self.wins + self.losses >= 1
        &&& self.wins + self.losses == self.changes.len()
        &&& forall|i: int|
            0 <= i < self.changes.len() ==> -2 * VALUE_LIMIT <= #[trigger] self.changes[i] <= 2
                * VALUE_LIMIT
    }

    /// Whether the match is against the opponent of the set.
    pub open spec fn continues_with(self, row: RowModel) -> bool {
        self.opponent_id == row.opponent_id && self.opponent_char == row.opponent_char
    }

    /// The set with one more match: the time and the ratings of the match
    /// replace those of the set, its change and its result are added.
    pub open spec fn with(self, row: RowModel) -> SetModel {
        SetModel {
            timestamp: row.timestamp,
            own: row.own,
            opponent: row.opponent,
            changes: self.changes.push(row.change()),
            wins: if row.won {
                self.wins + 1
            } else {
                self.wins
            },
            losses: if row.won {
                self.losses
            } else {
                self.losses + 1
            },
            ..self
        }
    }
}

/// The sets with one more match: added to the last set where that is
/// against the same opponent with the same character, else as a new set.
pub open spec fn grouped_with(sets: Seq<SetModel>, row: RowModel) -> Seq<SetModel> {
    if sets.len() > 0 && sets.last().continues_with(row) {
        sets.drop_last().push(sets.last().with(row))
    } else {
        sets.push(row.begins())
    }
}

/// The sets of a list of matches, taken in order.
pub open spec fn grouped(rows: Seq<RowModel>) -> Seq<SetModel>
    decreases rows.len(),
{
    if rows.len() == 0 {
        Seq::empty()
    } else {
        grouped_with(grouped(rows.drop_last()), rows.last())
    }
}

/// Whether every set of a list is in order.
pub open spec fn sets_wf(sets: Seq<SetModel>) -> bool {
    forall|i: int| 0 <= i < sets.len() ==> (#[trigger] sets[i]).wf()
}

/// Adding a match to sets that are in order leaves them in order.
pub proof fn lemma_grouped_with_wf(sets: Seq<SetModel>, row: RowModel)
    requires
        sets_wf(sets),
        row.wf(),
    ensures
        sets_wf(grouped_with(sets, row)),
{
    crate::glicko::lemma_single_change_bounds(row.own, row.opponent, row.won);
    let next = grouped_with(sets, row);
    assert forall|i: int| 0 <= i < next.len() implies (#[trigger] next[i]).wf() by {
        if i < sets.len() - 1 {
            assert(next[i] == sets[i]);
        } else if sets.len() > 0 && sets.last().continues_with(row) {
            let set = sets.last();
            assert(set.wf());
            let more = set.with(row);
            assert forall|k: int| 0 <= k < more.changes.len() implies -2 * VALUE_LIMIT
                <= #[trigger] more.changes[k] <= 2 * VALUE_LIMIT by {
                if k < set.changes.len() {
                    assert(more.changes[k] == set.changes[k]);
                }
            }
        } else {
            if i < sets.len() {
                assert(next[i] == sets[i]);
            }
        }
    }
}

/// Adds a match to the sets of a history: to the last set where that is
/// against the same opponent with the same character, else as a new set.
pub fn add_to_grouped_sets(sets: &mut Vec<RawPlayerSet>, row: &HistoryRow)
    requires
        sets_wf(set_models(old(sets)@)),
        row@.wf(),
    ensures
        set_models(final(sets)@) == grouped_with(set_models(old(sets)@), row@),
        sets_wf(set_models(final(sets)@)),
{
    let outcome = if row.won {
        Outcome::Win
    } else {
        Outcome::Loss
    };
    let change = row.own.rating_change(row.opponent, outcome);
    let ghost before = set_models(sets@);
    proof {
        lemma_grouped_with_wf(before, row@);
    }
    let count = sets.len();
    if count > 0 && sets[count - 1].opponent_id == row.opponent_id && sets[count - 1].opponent_char
        == row.opponent_char {
        let mut set = sets.pop().unwrap();
        proof {
            assert(set@ == before.last());
            assert(set@.wf());
            assert(set_models(sets@) =~= before.drop_last());
        }
        set.timestamp = row.timestamp;
        set.own = row.own;
        set.opponent = row.opponent;
        set.rating_change_sequence.push(change);
        let played = set.rating_change_sequence.len();
        assert(set.result_wins + set.result_losses + 1 == played);
        if row.won {
            set.result_wins = set.result_wins + 1;
        } else {
            set.result_losses = set.result_losses + 1;
        }
        let ghost rest = sets@;
        sets.push(set);
        proof {
            assert(set_models(sets@) =~= set_models(rest).push(set@));
            assert(set@ == before.last().with(row@));
        }
    } else {
        let ghost rest = sets@;
        let mut changes: Vec<i64> = Vec::new();
        changes.push(change);
        let set = RawPlayerSet {
            timestamp: row.timestamp,
            own: row.own,
            floor: row.floor,
            opponent_name: row.opponent_name.clone(),
            opponent_vip: row.opponent_vip,
            opponent_cheater: row.opponent_cheater,
            opponent_id: row.opponent_id,
            opponent_char: row.opponent_char,
            opponent: row.opponent,
            rating_change_sequence: changes,
            result_wins: if row.won {
                1
            } else {
                0
            },
            result_losses: if row.won {
                0
            } else {
                1
            },
        };
        sets.push(set);
        proof {
            assert(set@.changes =~= seq![row@.change()]);
            assert(set@ == row@.begins());
            assert(set_models(sets@) =~= set_models(rest).push(set@));
            if before.len() > 0 {
                assert(before.last() == rest[rest.len() - 1]@);
            }
        }
    }
}

/// A square deviation of fifty rating points, twice over, in millionths of
/// millionths on the internal scale: below it an expectation is shown
/// without a mark.
pub const MARK_ONE: i64 = 165_684_302_145;

/// The same for a hundred rating points: below it one question mark.
pub const MARK_TWO: i64 = 662_737_208_578;

/// The same for a hundred and fifty rating points: below it two question
/// marks, from it on four.
pub const MARK_THREE: i64 = 1_491_158_719_301;

/// A change of value on the display scale, in millionths of a rating
/// point.
pub open spec fn display_change(change: int) -> int {
    round_div(change * DISPLAY_SCALE, DISPLAY_UNIT as int)
}

/// The step that adds one change to a running sum.
pub open spec fn change_adder() -> spec_fn(int, i64) -> int {
    |acc: int, change: i64| acc + change
}

/// The sum of a list of changes.
pub open spec fn total_change(changes: Seq<i64>) -> int {
    changes.fold_left(0int, change_adder())
}

/// The change that a set shows does not depend on the order of its
/// matches: two lists that hold the same changes, each as often as the
/// other, have the same sum.
pub proof fn law_total_change_order_independent(first: Seq<i64>, second: Seq<i64>)
    requires
        first.to_multiset() == second.to_multiset(),
    ensures
        total_change(first) == total_change(second),
        display_change(total_change(first)) == display_change(total_change(second)),
{
    assert(vstd::seq_lib::commutative_foldl(change_adder()));
    vstd::seq_lib::lemma_fold_left_permutation(first, second, change_adder(), 0int);
}

/// The changes of a set as text: the latest first, each with its sign and
/// one decimal place and followed by a blank.
pub open spec fn sequence_text(changes: Seq<i64>) -> Seq<char>
    decreases changes.len(),
{
    if changes.len() == 0 {
        Seq::empty()
    } else {
        signed_tenths_text(display_change(changes.last() as int)) + seq![' '] + sequence_text(
            changes.drop_last(),
        )
    }
}

/// The marks that warn of an uncertain expectation: none, one, two or
/// four question marks after a blank, by the mean of the two squared
/// deviations.
pub open spec fn certainty_marks(own: Rating, opponent: Rating) -> Seq<char> {
    let spread = own.deviation * own.deviation + opponent.deviation * opponent.deviation;
    if spread < MARK_ONE {
        Seq::empty()
    } else if spread < MARK_TWO {
        " ?"@
    } else if spread < MARK_THREE {
        " ??"@
    } else {
        " ????"@
    }
}

/// The expected outcome of a set as text: the player's chance in percent
/// and the marks of uncertainty.
pub open spec fn expectation_text(own: Rating, opponent: Rating) -> Seq<char> {
    dec_text(round_div(expected_score(own, opponent) * 100, ONE as int)) + seq!['%']
        + certainty_marks(own, opponent)
}

/// The style class of a set's change: a gain where the mean change per
/// match is at least two rating points, a loss where it is at most minus
/// two, neither in between. A set without matches has no mean and shows
/// as neither.
pub open spec fn change_class(total: int, matches: int) -> Seq<char> {
    if matches <= 0 {
        "has-text-warning"@
    } else if display_change(total) >= 2 * ONE * matches {
        "has-text-success"@
    } else if display_change(total) > -2 * ONE * matches {
        "has-text-warning"@
    } else {
        "has-text-danger"@
    }
}

/// A set of matches against one opponent, shaped for display.
#[derive(Debug)]
pub struct PlayerSet {
    pub timestamp: String,
    pub own_rating_value: i64,
    pub own_rating_deviation: i64,
    pub floor: String,
    pub opponent_name: String,
    pub opponent_vip: Option<&'static str>,
    pub opponent_cheater: Option<&'static str>,
    pub opponent_id: String,
    pub opponent_character: String,
    pub opponent_character_short: String,
    pub opponent_rating_value: i64,
    pub opponent_rating_deviation: i64,
    pub expected_outcome: String,
    pub rating_change: String,
    pub rating_change_class: &'static str,
    pub rating_change_sequence: String,
    pub result_wins: u64,
    pub result_losses: u64,
    pub result_percent: Option<i64>,
}

impl PlayerSet {
    /// Whether this is the display form of a set.
    pub open spec fn shows(self, roster: Roster, set: SetModel) -> bool {
        &&& self.timestamp@ == utc_text(set.timestamp as int, "%Y-%m-%d %H:%M"@)
        &&& self.own_rating_value == value_points(set.own.value as int)
        &&& self.own_rating_deviation == deviation_points(set.own.deviation as int)
        &&& self.floor@ == floor_text(set.floor as int)
        &&& self.opponent_name@ == set.opponent_name
        &&& self.opponent_vip is Some == set.opponent_vip
        &&& self.opponent_vip matches Some(word) ==> word@ == "VIP"@
        &&& self.opponent_cheater is Some == set.opponent_cheater
        &&& self.opponent_cheater matches Some(word) ==> word@ == "Cheater"@
        &&& self.opponent_id@ == hex_id_text(set.opponent_id as int)
        &&& self.opponent_character == roster.names@[set.opponent_char as int].long
        &&& self.opponent_character_short == roster.names@[set.opponent_char as int].short
        &&& self.opponent_rating_value == value_points(set.opponent.value as int)
        &&& self.opponent_rating_deviation == deviation_points(set.opponent.deviation as int)
        &&& self.expected_outcome@ == expectation_text(set.own, set.opponent)
        &&& self.rating_change@ == signed_tenths_text(display_change(total_change(set.changes)))
        &&& self.rating_change_class@ == change_class(
            total_change(set.changes),
            set.wins + set.losses,
        )
        &&& self.rating_change_sequence@ == sequence_text(set.changes)
        &&& self.result_wins == set.wins
        &&& self.result_losses == set.losses
        &&& self.result_percent == percent_of(set.wins, set.wins + set.losses)
    }
}

/// The sum of changes is bounded by their number.
pub proof fn lemma_total_change_bounds(changes: Seq<i64>)
    requires
        forall|i: int|
            0 <= i < changes.len() ==> -2 * VALUE_LIMIT <= #[trigger] changes[i] <= 2 * VALUE_LIMIT,
    ensures
        -(changes.len() * 2_000_000_000_000) <= total_change(changes) <= changes.len()
            * 2_000_000_000_000,
    decreases changes.len(),
{
    if changes.len() > 0 {
        let rest = changes.drop_last();
        assert forall|i: int| 0 <= i < rest.len() implies -2 * VALUE_LIMIT <= #[trigger] rest[i]
            <= 2 * VALUE_LIMIT by {
            assert(rest[i] == changes[i]);
        }
        lemma_total_change_bounds(rest);
    }
}

/// Computes [`display_change`].
fn shown_change(change: i128) -> (shown: i128)
    requires
        -9_000_000_000_000_000_000_000 <= change <= 9_000_000_000_000_000_000_000,
    ensures
        shown == display_change(change as int),
        -2_000_000_000_000_000_000_000_000 <= shown <= 2_000_000_000_000_000_000_000_000,
{
    let wide: i128 = change * 1_737_178;
    proof {
        lemma_round_div_error(wide as int, DISPLAY_UNIT as int);
    }
    div_round(wide, DISPLAY_UNIT as i128)
}

impl RawPlayerSet {
    /// Shapes the set for display.
    #[verifier::rlimit(50)]
    pub fn to_formated_set(self, roster: &Roster) -> (shown: PlayerSet)
        requires
            self@.wf(),
            self@.changes.len() <= MAX_GAMES,
            timestamp_in_range(self.timestamp as int),
            roster.knows(self.opponent_char as int),
        ensures
            shown.shows(*roster, self@),
    {
        let timestamp = match date_hour_minute(self.timestamp) {
            Some(text) => text,
            None => String::new(),
        };
        let chance = self.own.expected(self.opponent);
        let mut expected_outcome = String::new();
        proof {
            lemma_round_div_error(chance * 100, ONE as int);
            reveal_strlit("%");
            reveal_strlit(" ?");
            reveal_strlit(" ??");
            reveal_strlit(" ????");
            reveal_strlit(" ");
        }
        push_decimal(&mut expected_outcome, div_round((chance as i128) * 100, ONE as i128) as i64);
        expected_outcome.append("%");
        assert(self.own.deviation * self.own.deviation <= 2_014_732 * 2_014_732)
            by (nonlinear_arith)
            requires
                0 <= self.own.deviation <= 2_014_732,
        ;
        assert(self.opponent.deviation * self.opponent.deviation <= 2_014_732 * 2_014_732)
            by (nonlinear_arith)
            requires
                0 <= self.opponent.deviation <= 2_014_732,
        ;
        let spread: i64 = self.own.deviation * self.own.deviation + self.opponent.deviation
            * self.opponent.deviation;
        if spread < MARK_ONE {
        } else if spread < MARK_TWO {
            expected_outcome.append(" ?");
        } else if spread < MARK_THREE {
            expected_outcome.append(" ??");
        } else {
            expected_outcome.append(" ????");
        }
        assert(expected_outcome@ =~= expectation_text(self.own, self.opponent));
        let mut total: i128 = 0;
        let mut sequence = String::new();
        let count = self.rating_change_sequence.len();
        let mut i: usize = count;
        let ghost changes = self.rating_change_sequence@;
        assert(changes.take(count as int) =~= changes);
        while i > 0
            invariant
                i <= count,
                count == changes.len(),
                count <= MAX_GAMES,
                changes == self.rating_change_sequence@,
                forall|k: int|
                    0 <= k < changes.len() ==> -2 * VALUE_LIMIT <= #[trigger] changes[k] <= 2
                        * VALUE_LIMIT,
                total + total_change(changes.take(i as int)) == total_change(changes),
                -((count - i) * 2_000_000_000_000) <= total <= (count - i) * 2_000_000_000_000,
                sequence@ + sequence_text(changes.take(i as int)) == sequence_text(changes),
            decreases i,
        {
            let change = self.rating_change_sequence[i - 1];
            proof {
                assert(changes.take(i as int).drop_last() == changes.take(i - 1));
                assert(changes.take(i as int).last() == change);
            }
            let ghost before = sequence@;
            let ghost piece = signed_tenths_text(display_change(change as int)) + seq![' '];
            let ghost rest = sequence_text(changes.take(i - 1));
            proof {
                assert(sequence_text(changes.take(i as int)) =~= piece + rest);
            }
            push_signed_tenths(&mut sequence, shown_change(change as i128));
            sequence.append(" ");
            total = total + change as i128;
            i = i - 1;
            proof {
                reveal_strlit(" ");
                assert(sequence@ =~= before + piece);
                assert((before + piece) + rest =~= before + (piece + rest));
            }
        }
        proof {
            assert(changes.take(0) =~= Seq::<i64>::empty());
            assert(sequence@ =~= sequence_text(changes));
            assert(total == total_change(changes));
        }
        let shown_total = shown_change(total);
        let mut rating_change = String::new();
        push_signed_tenths(&mut rating_change, shown_total);
        assert(rating_change@ =~= signed_tenths_text(display_change(total_change(changes))));
        let matches: i128 = self.result_wins as i128 + self.result_losses as i128;
        let band: i128 = 2_000_000 * matches;
        let rating_change_class = if matches <= 0 {
            "has-text-warning"
        } else if shown_total >= band {
            "has-text-success"
        } else if shown_total > 0 - band {
            "has-text-warning"
        } else {
            "has-text-danger"
        };
        assert(rating_change_class@ == change_class(total_change(changes), matches as int));
        let result_percent = percent(self.result_wins, self.result_wins + self.result_losses);
        let opponent_cheater = if self.opponent_cheater {
            Some("Cheater")
        } else {
            None
        };
        let opponent_vip = if self.opponent_vip {
            Some("VIP")
        } else {
            None
        };
        let own_rating_value = self.own.rounded_value();
        let own_rating_deviation = self.own.rounded_deviation();
        let opponent_rating_value = self.opponent.rounded_value();
        let opponent_rating_deviation = self.opponent.rounded_deviation();
        let floor = stringify_floor(self.floor);
        let opponent_id = hex_id(self.opponent_id);
        let opponent_character = roster.long_name(self.opponent_char);
        let opponent_character_short = roster.short_name(self.opponent_char);
        let ghost set = self@;
        let shown = PlayerSet {
            timestamp,
            own_rating_value,
            own_rating_deviation,
            floor,
            opponent_id,
            opponent_character,
            opponent_character_short,
            opponent_rating_value,
            opponent_rating_deviation,
            expected_outcome,
            rating_change,
            rating_change_class,
            rating_change_sequence: sequence,
            result_wins: self.result_wins,
            result_losses: self.result_losses,
            result_percent,
            opponent_cheater,
            opponent_vip,
            opponent_name: self.opponent_name,
        };
        proof {
            assert(shown.timestamp@ == utc_text(set.timestamp as int, "%Y-%m-%d %H:%M"@));
            assert(shown.expected_outcome@ == expectation_text(set.own, set.opponent));
            assert(shown.rating_change@ == signed_tenths_text(
                display_change(total_change(set.changes)),
            ));
            assert(shown.rating_change_class@ == change_class(
                total_change(set.changes),
                set.wins + set.losses,
            ));
            assert(shown.rating_change_sequence@ == sequence_text(set.changes));
            assert(shown.result_percent == percent_of(set.wins, set.wins + set.losses));
            assert(shown.opponent_vip is Some == set.opponent_vip);
            assert(shown.opponent_cheater is Some == set.opponent_cheater);
        }
        shown
    }
}

/// The history of a player with one character, set by set.
#[derive(Debug)]
pub struct PlayerCharacterHistory {
    pub history: Vec<PlayerSet>,
}

/// Whether every row has valid ratings, a time that has a date, and an
/// opponent of a character that the roster knows.
pub open spec fn history_rows_shown(roster: Roster, rows: Seq<HistoryRow>) -> bool {
    forall|i: int|
        0 <= i < rows.len() ==> (#[trigger] rows[i])@.wf() && timestamp_in_range(
            rows[i].timestamp as int,
        ) && roster.knows(rows[i].opponent_char as int)
}

/// The sets that a history shows: those of the matches where they are to
/// be grouped, none where they are not.
pub open spec fn history_sets(rows: Seq<RowModel>, group_games: bool) -> Seq<SetModel> {
    if group_games {
        grouped(rows)
    } else {
        Seq::empty()
    }
}

/// The sets of a history keep the times and opponents of their matches.
pub proof fn lemma_grouped_shown(roster: Roster, rows: Seq<HistoryRow>)
    requires
        history_rows_shown(roster, rows),
    ensures
        sets_wf(grouped(row_models(rows))),
        grouped(row_models(rows)).len() <= rows.len(),
        forall|i: int|
            0 <= i < grouped(row_models(rows)).len() ==> timestamp_in_range(
                (#[trigger] grouped(row_models(rows))[i]).timestamp as int,
            ) && roster.knows(grouped(row_models(rows))[i].opponent_char as int) && grouped(
                row_models(rows),
            )[i].changes.len() <= rows.len(),
    decreases rows.len(),
{
    if rows.len() > 0 {
        let rest = rows.drop_last();
        assert(row_models(rows).drop_last() =~= row_models(rest));
        assert(row_models(rows).last() == rows.last()@);
        assert forall|i: int| 0 <= i < rest.len() implies (#[trigger] rest[i])@.wf()
            && timestamp_in_range(rest[i].timestamp as int) && roster.knows(
            rest[i].opponent_char as int,
        ) by {
            assert(rest[i] == rows[i]);
        }
        lemma_grouped_shown(roster, rest);
        assert(rows[rows.len() - 1] == rows.last());
        lemma_grouped_with_wf(grouped(row_models(rest)), rows.last()@);
        let sets = grouped(row_models(rest));
        let next = grouped(row_models(rows));
        assert forall|i: int| 0 <= i < next.len() implies timestamp_in_range(
            (#[trigger] next[i]).timestamp as int,
        ) && roster.knows(next[i].opponent_char as int) && next[i].changes.len() <= rows.len() by {
            if i < sets.len() - 1 {
                assert(next[i] == sets[i]);
            } else if sets.len() > 0 && sets.last().continues_with(rows.last()@) {
                assert(sets[sets.len() - 1] == sets.last());
            } else if i < sets.len() {
                assert(next[i] == sets[i]);
            }
        }
    }
}

/// The history of a player with one character from the player's matches,
/// given latest first. The matches are grouped into sets against the same
/// opponent; where they are not to be grouped, the history is empty.
pub fn get_player_char_history(roster: &Roster, rows: &Vec<HistoryRow>, group_games: bool) -> (res:
    PlayerCharacterHistory)
    requires
        history_rows_shown(*roster, rows@),
        rows@.len() <= MAX_GAMES,
    ensures
        res.history@.len() == history_sets(row_models(rows@), group_games).len(),
        forall|i: int|
            0 <= i < res.history@.len() ==> (#[trigger] res.history@[i]).shows(
                *roster,
                history_sets(row_models(rows@), group_games)[i],
            ),
{
    let mut sets: Vec<RawPlayerSet> = Vec::new();
    let mut i: usize = 0;
    assert(set_models(sets@) =~= history_sets(row_models(rows@.take(0)), group_games));
    while i < rows.len()
        invariant
            history_rows_shown(*roster, rows@),
            i <= rows@.len(),
            set_models(sets@) == history_sets(row_models(rows@.take(i as int)), group_games),
            sets_wf(set_models(sets@)),
        decreases rows@.len() - i,
    {
        proof {
            assert(row_models(rows@.take(i + 1)).drop_last() =~= row_models(rows@.take(i as int)));
            assert(row_models(rows@.take(i + 1)).last() == rows@[i as int]@);
        }
        if group_games {
            add_to_grouped_sets(&mut sets, &rows[i]);
        }
        i = i + 1;
    }
    proof {
        assert(rows@.take(i as int) == rows@);
        lemma_grouped_shown(*roster, rows@);
    }
    let ghost all = set_models(sets@);
    let mut history: Vec<PlayerSet> = Vec::new();
    while sets.len() > 0
        invariant
            rows@.len() <= MAX_GAMES,
            sets@.len() <= all.len(),
            set_models(sets@) == all.take(sets@.len() as int),
            sets_wf(all),
            forall|k: int|
                0 <= k < all.len() ==> timestamp_in_range((#[trigger] all[k]).timestamp as int)
                    && roster.knows(all[k].opponent_char as int) && all[k].changes.len()
                    <= rows@.len(),
            history@.len() + sets@.len() == all.len(),
            forall|k: int|
                0 <= k < history@.len() ==> (#[trigger] history@[k]).shows(
                    *roster,
                    all[all.len() - 1 - k],
                ),
        decreases sets@.len(),
    {
        let ghost before = sets@;
        let set = sets.pop().unwrap();
        proof {
            assert(set@ == set_models(before)[before.len() - 1]);
            assert(set@ == all[before.len() - 1]);
            assert(set_models(sets@) =~= all.take(sets@.len() as int));
        }
        history.push(set.to_formated_set(roster));
    }
    let mut ordered: Vec<PlayerSet> = Vec::new();
    let ghost turned = history@;
    while history.len() > 0
        invariant
            turned.len() == all.len(),
            history@ == turned.take(history@.len() as int),
            ordered@.len() + history@.len() == turned.len(),
            forall|k: int|
                0 <= k < turned.len() ==> (#[trigger] turned[k]).shows(
                    *roster,
                    all[all.len() - 1 - k],
                ),
            forall|k: int|
                0 <= k < ordered@.len() ==> (#[trigger] ordered@[k]).shows(*roster, all[k]),
        decreases history@.len(),
    {
        let ghost before = history@;
        let set = history.pop().unwrap();
        proof {
            assert(set == turned[before.len() - 1]);
            assert(history@ =~= turned.take(history@.len() as int));
        }
        ordered.push(set);
    }
    PlayerCharacterHistory { history: ordered }
}

} // verus!
