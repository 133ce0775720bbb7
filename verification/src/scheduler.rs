//! When a batch runs and which window it processes.
//!
//! The scheduler is a small state machine. Its caller reports each tick of
//! the clock and the end of each run; the scheduler says whether to start a
//! run and keeps the time of the last completed update.

use vstd::prelude::*;

verus! {

/// Whether a batch is in progress.
#[derive(Clone, Copy, Debug, PartialEq, Eq, Structural)]
pub enum Phase {
    Idle,
    Running,
}

/// The window of one batch: the matches later than `from` and not later
/// than `to`, which is `periods` whole rating periods after `from`.
#[derive(Clone, Copy, Debug, PartialEq, Eq, Structural)]
pub struct Run {
    pub from: i64,
    pub to: i64,
    pub periods: u64,
}

/// What the caller is to do after a tick.
#[derive(Clone, Copy, Debug, PartialEq, Eq, Structural)]
pub enum Action {
    Wait,
    Start(Run),
}

/// The scheduler's state: the phase, the time of the last completed
/// update, and the length of a rating period in seconds.
#[derive(Clone, Copy, Debug, PartialEq, Eq, Structural)]
pub struct Scheduler {
    pub phase: Phase,
    pub last_update: i64,
    pub rating_period: i64,
}

/// The number of whole rating periods that have passed from `last_update`
/// to `now`.
pub open spec fn whole_periods(last_update: int, now: int, rating_period: int) -> int {
    if now - last_update < rating_period {
        0
    } else {
        (now - last_update) / rating_period
    }
}

/// The time up to which a run at `now` brings the ratings: `last_update`
/// advanced by the whole periods that have passed.
pub open spec fn next_update(last_update: int, now: int, rating_period: int) -> int {
    last_update + rating_period * whole_periods(last_update, now, rating_period)
}

/// The run that a tick at `now` starts.
pub open spec fn run_at(last_update: i64, now: i64, rating_period: i64) -> Run {
    Run {
        from: last_update,
        to: next_update(last_update as int, now as int, rating_period as int) as i64,
        periods: whole_periods(last_update as int, now as int, rating_period as int) as u64,
    }
}

/// The time that a run reaches lies after the last update, not after
/// `now`, and less than one period before `now`.
pub proof fn lemma_next_update_bounds(last_update: int, now: int, rating_period: int)
    requires
        rating_period > 0,
        now - last_update >= rating_period,
    ensures
        whole_periods(last_update, now, rating_period) >= 1,
        last_update < next_update(last_update, now, rating_period) <= now,
        now - next_update(last_update, now, rating_period) < rating_period,
{
    let span = now - last_update;
    vstd::arithmetic::div_mod::lemma_fundamental_div_mod(span, rating_period);
    vstd::arithmetic::div_mod::lemma_mod_bound(span, rating_period);
    let k = span / rating_period;
    assert(k >= 1) by (nonlinear_arith)
        requires
            span == rating_period * k + span % rating_period,
            0 <= span % rating_period < rating_period,
            span >= rating_period,
            rating_period > 0,
    ;
    assert(rating_period * k >= rating_period) by (nonlinear_arith)
        requires
            k >= 1,
            rating_period > 0,
    ;
}

/// A tick that comes less than one period after the time that the last
/// run reached starts nothing: no period is whole yet.
pub proof fn law_no_run_within_a_period(last_update: int, now: int, rating_period: int)
    requires
        rating_period > 0,
        now - last_update < rating_period,
    ensures
        whole_periods(last_update, now, rating_period) == 0,
        next_update(last_update, now, rating_period) == last_update,
{
    assert(rating_period * 0 == 0) by (nonlinear_arith);
}

/// Runs advance by whole periods: a run never moves the period boundaries,
/// however late it comes.
pub proof fn law_boundaries_stay(last_update: int, now: int, rating_period: int)
    requires
        rating_period > 0,
    ensures
        (next_update(last_update, now, rating_period) - last_update) % rating_period == 0,
{
    let k = whole_periods(last_update, now, rating_period);
    vstd::arithmetic::div_mod::lemma_mod_multiples_basic(k, rating_period);
    assert(rating_period * k == k * rating_period) by (nonlinear_arith);
}

impl Scheduler {
    /// Whether the rating period is a positive number of seconds.
    pub open spec fn wf(self) -> bool {
        self.rating_period > 0
    }

    /// An idle scheduler, if the rating period is positive.
    pub fn new(last_update: i64, rating_period: i64) -> (res: Option<Scheduler>)
        ensures
            res is Some <==> rating_period > 0,
            res matches Some(s) ==> s == (Scheduler {
                phase: Phase::Idle,
                last_update,
                rating_period,
            }),
    {
        if rating_period > 0 {
            Some(Scheduler { phase: Phase::Idle, last_update, rating_period })
        } else {
            None
        }
    }

    /// Handles a tick of the clock. While a run is in progress, or before
    /// a whole period has passed since the last update, nothing changes
    /// and the caller waits. Otherwise a run starts for the whole periods
    /// that have passed; `last_update` stays until the run completes.
    pub fn tick(&mut self, now: i64) -> (action: Action)
        requires
            old(self).wf(),
        ensures
            final(self).last_update == old(self).last_update,
            final(self).rating_period == old(self).rating_period,
            action == (if old(self).phase == Phase::Idle && now - old(self).last_update >= old(
                self,
            ).rating_period {
                Action::Start(run_at(old(self).last_update, now, old(self).rating_period))
            } else {
                Action::Wait
            }),
            final(self).phase == (if action is Start {
                Phase::Running
            } else {
                old(self).phase
            }),
            action matches Action::Start(run) ==> run.periods >= 1 && run.from < run.to <= now
                && now - run.to < old(self).rating_period && run.to == run.from + run.periods
                * old(self).rating_period,
    {
        match self.phase {
            Phase::Running => Action::Wait,
            Phase::Idle => {
                let span: i128 = now as i128 - self.last_update as i128;
                let period: i128 = self.rating_period as i128;
                if span < period {
                    Action::Wait
                } else {
                    proof {
                        lemma_next_update_bounds(
                            self.last_update as int,
                            now as int,
                            self.rating_period as int,
                        );
                        vstd::arithmetic::div_mod::lemma_fundamental_div_mod(
                            span as int,
                            period as int,
                        );
                        vstd::arithmetic::div_mod::lemma_mod_bound(span as int, period as int);
                        vstd::arithmetic::div_mod::lemma_div_is_ordered_by_denominator(
                            span as int,
                            1,
                            period as int,
                        );
                        assert(period * (span / period) == (span / period) * period)
                            by (nonlinear_arith);
                    }
                    let periods: i128 = span / period;
                    let to: i128 = self.last_update as i128 + span - span % period;
                    self.phase = Phase::Running;
                    Action::Start(
                        Run { from: self.last_update, to: to as i64, periods: periods as u64 },
                    )
                }
            },
        }
    }

    /// Records that a run has committed: if it is the run that is in
    /// progress, `last_update` moves to the run's end and the scheduler is
    /// idle again. Any other report changes nothing.
    pub fn complete(&mut self, run: Run) -> (accepted: bool)
        ensures
            accepted == (old(self).phase == Phase::Running && run.from == old(self).last_update),
            accepted ==> *final(self) == (Scheduler {
                phase: Phase::Idle,
                last_update: run.to,
                rating_period: old(self).rating_period,
            }),
            !accepted ==> *final(self) == *old(self),
    {
        if self.phase == Phase::Running && run.from == self.last_update {
            self.phase = Phase::Idle;
            self.last_update = run.to;
            true
        } else {
            false
        }
    }

    /// Records that the run in progress was abandoned: the scheduler is
    /// idle again and `last_update` is as it was, so that the next tick
    /// starts the same window anew.
    pub fn fail(&mut self)
        ensures
            *final(self) == (Scheduler { phase: Phase::Idle, ..*old(self) }),
    {
        self.phase = Phase::Idle;
    }
}

} // verus!
