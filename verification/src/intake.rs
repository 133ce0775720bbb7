//! Reading the match log: which records fall into a run's window, which of
//! them are sound, and what happens to those that are not.

use vstd::prelude::*;
use crate::rater::matches_wf;
use crate::records::{Match, Winner};
use crate::scheduler::Run;

verus! {

/// One record of the match log, as the game's servers report it.
#[derive(Clone, Copy, Debug, PartialEq, Eq, Structural)]
pub struct MatchRecord {
    pub timestamp: i64,
    pub id_a: i64,
    pub char_a: i64,
    pub id_b: i64,
    pub char_b: i64,
    pub winner: i64,
    pub floor: i64,
}

/// Why a record cannot be rated.
#[derive(Clone, Copy, Debug, PartialEq, Eq, Structural)]
pub enum MatchFault {
    /// The outcome code is neither that of side A nor that of side B.
    UnknownOutcome,
    /// A side's character is not one of the game's characters, so that no
    /// rating can be created for it.
    UnknownCharacter,
    /// Both sides are the same player with the same character.
    SamePlayer,
}

/// A record that was not rated: its place in the log and the reason.
#[derive(Clone, Copy, Debug, PartialEq, Eq, Structural)]
pub struct Rejected {
    pub index: usize,
    pub fault: MatchFault,
}

/// What a run does when it meets a record that cannot be rated.
#[derive(Clone, Copy, Debug, PartialEq, Eq, Structural)]
pub enum Strictness {
    /// The run is abandoned and reports the first such record.
    FailClosed,
    /// The run leaves such records out and reports all of them.
    SkipAndReport,
}

impl MatchRecord {
    /// Whether the record falls into the window of a run: later than the
    /// run's start and not later than its end.
    pub open spec fn in_window(self, run: Run) -> bool {
        run.from < self.timestamp <= run.to
    }

    /// The reason, if any, for which the record cannot be rated, for a
    /// game with `characters` characters. The outcome code is looked at
    /// first, then the characters, then the players.
    pub open spec fn fault(self, characters: int) -> Option<MatchFault> {
        if Winner::of_code(self.winner as int) is None {
            Some(MatchFault::UnknownOutcome)
        } else if !(0 <= self.char_a < characters && 0 <= self.char_b < characters) {
            Some(MatchFault::UnknownCharacter)
        } else if self.id_a == self.id_b && self.char_a == self.char_b {
            Some(MatchFault::SamePlayer)
        } else {
            None
        }
    }

    /// The match that a sound record stands for.
    pub open spec fn accepted(self) -> Match {
        Match {
            timestamp: self.timestamp,
            id_a: self.id_a,
            char_a: self.char_a,
            id_b: self.id_b,
            char_b: self.char_b,
            winner: Winner::of_code(self.winner as int)->0,
            floor: self.floor,
        }
    }

    /// Examines the record: the match that it stands for, or the reason
    /// for which it cannot be rated.
    pub fn examine(&self, characters: i64) -> (res: Result<Match, MatchFault>)
        ensures
            match res {
                Ok(game) => self.fault(characters as int) is None && game == self.accepted(),
                Err(fault) => self.fault(characters as int) == Some(fault),
            },
    {
        match Winner::from_code(self.winner) {
            None => Err(MatchFault::UnknownOutcome),
            Some(winner) => {
                if !(0 <= self.char_a && self.char_a < characters && 0 <= self.char_b
                    && self.char_b < characters) {
                    Err(MatchFault::UnknownCharacter)
                } else if self.id_a == self.id_b && self.char_a == self.char_b {
                    Err(MatchFault::SamePlayer)
                } else {
                    Ok(
                        Match {
                            timestamp: self.timestamp,
                            id_a: self.id_a,
                            char_a: self.char_a,
                            id_b: self.id_b,
                            char_b: self.char_b,
                            winner,
                            floor: self.floor,
                        },
                    )
                }
            },
        }
    }
}

/// The matches of a run: the sound records of the log that fall into the
/// run's window, in the order of the log.
pub open spec fn window_matches(log: Seq<MatchRecord>, run: Run, characters: int) -> Seq<Match>
    decreases log.len(),
{
    if log.len() == 0 {
        Seq::empty()
    } else {
        let rest = window_matches(log.drop_last(), run, characters);
        if log.last().in_window(run) && log.last().fault(characters) is None {
            rest.push(log.last().accepted())
        } else {
            rest
        }
    }
}

/// The records of a run's window that cannot be rated, in the order of
/// the log, each with its place in the log.
pub open spec fn window_rejections(log: Seq<MatchRecord>, run: Run, characters: int) -> Seq<
    Rejected,
>
    decreases log.len(),
{
    if log.len() == 0 {
        Seq::empty()
    } else {
        let rest = window_rejections(log.drop_last(), run, characters);
        if log.last().in_window(run) && log.last().fault(characters) is Some {
            rest.push(
                Rejected {
                    index: (log.len() - 1) as usize,
                    fault: log.last().fault(characters)->0,
                },
            )
        } else {
            rest
        }
    }
}

/// The matches of a window keep their two sides apart, and are no more
/// than the records of the log.
pub proof fn lemma_window_matches_wf(log: Seq<MatchRecord>, run: Run, characters: int)
    ensures
        matches_wf(window_matches(log, run, characters)),
        window_matches(log, run, characters).len() <= log.len(),
        forall|i: int|
            0 <= i < window_matches(log, run, characters).len() ==> run.from < (
            #[trigger] window_matches(log, run, characters)[i]).timestamp <= run.to,
    decreases log.len(),
{
    if log.len() > 0 {
        lemma_window_matches_wf(log.drop_last(), run, characters);
    }
}

/// What screening the log for a run gives: under [`Strictness::FailClosed`]
/// the first record that cannot be rated, if there is one; otherwise the
/// run's matches and the records left out.
pub open spec fn screened(log: Seq<MatchRecord>, run: Run, characters: int, strictness: Strictness)
    -> Result<(Seq<Match>, Seq<Rejected>), Rejected> {
    let rejections = window_rejections(log, run, characters);
    if strictness == Strictness::FailClosed && rejections.len() > 0 {
        Err(rejections[0])
    } else {
        Ok((window_matches(log, run, characters), rejections))
    }
}

/// Screens the log for a run.
pub fn screen(log: &Vec<MatchRecord>, run: Run, characters: i64, strictness: Strictness) -> (res:
    Result<(Vec<Match>, Vec<Rejected>), Rejected>)
    ensures
        match (res, screened(log@, run, characters as int, strictness)) {
            (Ok(found), Ok(wanted)) => found.0@ == wanted.0 && found.1@ == wanted.1,
            (Err(found), Err(wanted)) => found == wanted,
            _ => false,
        },
        res matches Ok(found) ==> matches_wf(found.0@) && found.0@.len() <= log@.len(),
{
    let mut matches: Vec<Match> = Vec::new();
    let mut rejections: Vec<Rejected> = Vec::new();
    let mut i: usize = 0;
    while i < log.len()
        invariant
            i <= log@.len(),
            matches@ == window_matches(log@.take(i as int), run, characters as int),
            rejections@ == window_rejections(log@.take(i as int), run, characters as int),
            strictness == Strictness::FailClosed ==> rejections@.len() == 0,
        decreases log@.len() - i,
    {
        let record = log[i];
        proof {
            assert(log@.take(i + 1).drop_last() == log@.take(i as int));
            assert(log@.take(i + 1).last() == record);
        }
        if run.from < record.timestamp && record.timestamp <= run.to {
            match record.examine(characters) {
                Ok(game) => {
                    matches.push(game);
                },
                Err(fault) => {
                    let rejected = Rejected { index: i, fault };
                    match strictness {
                        Strictness::FailClosed => {
                            proof {
                                lemma_first_rejection(
                                    log@,
                                    run,
                                    characters as int,
                                    i as int,
                                );
                            }
                            return Err(rejected);
                        },
                        Strictness::SkipAndReport => {
                            rejections.push(rejected);
                        },
                    }
                },
            }
        }
        i = i + 1;
    }
    proof {
        assert(log@.take(i as int) == log@);
        lemma_window_matches_wf(log@, run, characters as int);
    }
    Ok((matches, rejections))
}

/// Where no record before place `i` is rejected and the record at `i` is,
/// the first rejection of the whole log is that of place `i`.
pub proof fn lemma_first_rejection(log: Seq<MatchRecord>, run: Run, characters: int, i: int)
    requires
        0 <= i < log.len(),
        window_rejections(log.take(i), run, characters).len() == 0,
        log[i].in_window(run),
        log[i].fault(characters) is Some,
    ensures
        window_rejections(log, run, characters).len() > 0,
        window_rejections(log, run, characters)[0] == (Rejected {
            index: i as usize,
            fault: log[i].fault(characters)->0,
        }),
    decreases log.len() - i,
{
    if i == log.len() - 1 {
        assert(log.drop_last() == log.take(i));
    } else {
        assert(log.drop_last().take(i) == log.take(i));
        assert(log.drop_last()[i] == log[i]);
        lemma_first_rejection(log.drop_last(), run, characters, i);
    }
}

} // verus!
