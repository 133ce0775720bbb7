//! The rows that the engine reads and writes: matches, the ratings of
//! player-characters with their watermarks, and the snapshot of each match.

use vstd::prelude::*;
use crate::glicko::Rating;

verus! {

/// The side that won a match.
#[derive(Clone, Copy, Debug, PartialEq, Eq, Structural)]
pub enum Winner {
    A,
    B,
}

impl Winner {
    /// The winner that an outcome code of the match log stands for: one
    /// for side A, two for side B, nothing for any other code.
    pub open spec fn of_code(code: int) -> Option<Winner> {
        if code == 1 {
            Some(Winner::A)
        } else if code == 2 {
            Some(Winner::B)
        } else {
            None
        }
    }

    /// Reads an outcome code of the match log.
    pub fn from_code(code: i64) -> (res: Option<Winner>)
        ensures
            res == Winner::of_code(code as int),
    {
        if code == 1 {
            Some(Winner::A)
        } else if code == 2 {
            Some(Winner::B)
        } else {
            None
        }
    }
}

/// One recorded match between side A and side B.
#[derive(Clone, Copy, Debug, PartialEq, Eq, Structural)]
pub struct Match {
    pub timestamp: i64,
    pub id_a: i64,
    pub char_a: i64,
    pub id_b: i64,
    pub char_b: i64,
    pub winner: Winner,
    pub floor: i64,
}

/// The ratings of both sides of a match as they were used for its update:
/// the ratings before the period in which it was processed.
#[derive(Clone, Copy, Debug, PartialEq, Eq, Structural)]
pub struct RatingSnapshot {
    pub game: Match,
    pub rating_a: Rating,
    pub rating_b: Rating,
}

impl RatingSnapshot {
    /// Whether both ratings are valid.
    pub open spec fn wf(self) -> bool {
        self.rating_a.wf() && self.rating_b.wf()
    }

    /// Whether both ratings were established when the match was played:
    /// both deviations below the cutoff.
    pub open spec fn confident(self, low_deviation: int) -> bool {
        self.rating_a.deviation < low_deviation && self.rating_b.deviation < low_deviation
    }

    /// Computes [`RatingSnapshot::confident`].
    pub fn is_confident(&self, low_deviation: i64) -> (res: bool)
        ensures
            res == self.confident(low_deviation as int),
    {
        self.rating_a.deviation < low_deviation && self.rating_b.deviation < low_deviation
    }
}

/// Whether every snapshot of a sequence is valid.
pub open spec fn snapshots_wf(rows: Seq<RatingSnapshot>) -> bool {
    forall|i: int| 0 <= i < rows.len() ==> (#[trigger] rows[i]).wf()
}

/// The largest count of wins or of losses that a row holds; counting stops
/// there.
pub const COUNT_LIMIT: u64 = 0x3FFF_FFFF_FFFF_FFFF;

/// The highest rating that a player-character has reached, and when.
#[derive(Clone, Copy, Debug, PartialEq, Eq)]
pub struct TopRating {
    pub value: i64,
    pub deviation: i64,
    pub timestamp: i64,
}

/// The highest-rated opponent that a player-character has beaten: who it
/// was, the opponent's rating before that match, and the match's floor and
/// time.
#[derive(Clone, Copy, Debug, PartialEq, Eq)]
pub struct TopDefeated {
    pub opponent_id: i64,
    pub opponent_char: i64,
    pub opponent_rating: i64,
    pub opponent_deviation: i64,
    pub floor: i64,
    pub timestamp: i64,
}

impl TopRating {
    /// The rating that the watermark holds.
    pub open spec fn rating(self) -> Rating {
        Rating { value: self.value, deviation: self.deviation }
    }

    /// Computes [`TopRating::rating`].
    pub fn as_rating(&self) -> (r: Rating)
        ensures
            r == self.rating(),
    {
        Rating { value: self.value, deviation: self.deviation }
    }
}

impl TopDefeated {
    /// The rating that the beaten opponent had.
    pub open spec fn rating(self) -> Rating {
        Rating { value: self.opponent_rating, deviation: self.opponent_deviation }
    }

    /// Computes [`TopDefeated::rating`].
    pub fn as_rating(&self) -> (r: Rating)
        ensures
            r == self.rating(),
    {
        Rating { value: self.opponent_rating, deviation: self.opponent_deviation }
    }
}

/// The rating of one player with one character, the unit that the engine
/// owns.
#[derive(Clone, Copy, Debug, PartialEq, Eq)]
pub struct PlayerRating {
    pub id: i64,
    pub char_id: i64,
    pub rating: Rating,
    pub wins: u64,
    pub losses: u64,
    pub last_decay_period: i64,
    pub top_rating: Option<TopRating>,
    pub top_defeated: Option<TopDefeated>,
}

impl PlayerRating {
    /// Whether the row is one that the engine produces: a valid rating and
    /// counts within their limit.
    pub open spec fn wf(self) -> bool {
        &&& self.rating.wf()
        &&& self.wins <= COUNT_LIMIT
        &&& self.losses <= COUNT_LIMIT
        &&& self.top_rating matches Some(top) ==> top.rating().wf()
        &&& self.top_defeated matches Some(top) ==> top.rating().wf()
    }

    /// Whether the row belongs to the given player and character.
    pub open spec fn is_for(self, id: int, char_id: int) -> bool {
        self.id == id && self.char_id == char_id
    }

    /// The number of games that the row counts.
    pub open spec fn games(self) -> int {
        self.wins + self.losses
    }

    /// Computes [`PlayerRating::games`].
    pub fn game_count(&self) -> (count: u64)
        requires
            self.wf(),
        ensures
            count == self.games(),
    {
        self.wins + self.losses
    }

    /// The row of a player-character that enters the table: the initial
    /// rating, no games and no watermarks.
    pub fn entrant(id: i64, char_id: i64, period: i64) -> (row: PlayerRating)
        ensures
            row == PlayerRating::entrant_spec(id, char_id, period),
            row.wf(),
    {
        PlayerRating {
            id,
            char_id,
            rating: Rating::initial(),
            wins: 0,
            losses: 0,
            last_decay_period: period,
            top_rating: None,
            top_defeated: None,
        }
    }

    /// The row of a player-character that enters the table.
    pub open spec fn entrant_spec(id: i64, char_id: i64, period: i64) -> PlayerRating {
        PlayerRating {
            id,
            char_id,
            rating: Rating { value: 0, deviation: crate::glicko::DEVIATION_CEILING },
            wins: 0,
            losses: 0,
            last_decay_period: period,
            top_rating: None,
            top_defeated: None,
        }
    }
}

} // verus!
