//! The engine: one tick of the clock decides whether a run is due,
//! screens the match log for the run's window, brings every rating
//! forward, and rebuilds the derived tables. A run takes effect as a
//! whole or not at all.

use vstd::prelude::*;
use crate::distribution::MAX_TABLE;
use crate::glicko::MAX_GAMES;
use crate::intake::{lemma_window_matches_wf, screen, screened, MatchRecord, Rejected};
use crate::matchups::MAX_HISTORY;
use crate::rater::{apply_period, snapshots_of, table_after, table_wf, with_entrants};
use crate::records::{snapshots_wf, PlayerRating, RatingSnapshot};
use crate::scheduler::{run_at, Action, Phase, Run, Scheduler};
use crate::tables::{rebuild, Aggregates, Config};

verus! {

/// Why a run was abandoned.
#[derive(Clone, Copy, Debug, PartialEq, Eq, Structural)]
pub enum RunFault {
    /// A record of the window cannot be rated, and the engine is
    /// configured to fail closed.
    Rejected(Rejected),
    /// The run would take the ratings or the history beyond the size that
    /// the engine handles.
    TooLarge,
}

/// How a tick ended.
#[derive(Debug)]
pub enum TickOutcome {
    /// No run was due.
    Waited,
    /// A run was made and took effect. Reports the records left out.
    Completed { run: Run, rejected: Vec<Rejected> },
    /// A run was due and was abandoned. Nothing has changed.
    Failed(RunFault),
}

/// What the engine holds between runs, as mathematical values.
pub struct EngineState {
    pub last_update: i64,
    pub table: Seq<PlayerRating>,
    pub snapshots: Seq<RatingSnapshot>,
}

/// How a tick ends, as a mathematical value.
pub enum TickResult {
    Waited,
    Completed { run: Run, rejected: Seq<Rejected> },
    Failed(RunFault),
}

/// Whether a run with the given matches would take the engine beyond the
/// sizes that it handles.
pub open spec fn too_large(state: EngineState, matches: Seq<crate::records::Match>, run: Run)
    -> bool {
    ||| matches.len() > MAX_GAMES
    ||| state.snapshots.len() + matches.len() > MAX_HISTORY
    ||| table_after(state.table, matches, run.periods, run.to).len() > MAX_TABLE
}

/// The state after a run with the given matches.
pub open spec fn state_after(state: EngineState, matches: Seq<crate::records::Match>, run: Run)
    -> EngineState {
    EngineState {
        last_update: run.to,
        table: table_after(state.table, matches, run.periods, run.to),
        snapshots: state.snapshots + snapshots_of(
            with_entrants(state.table, matches, run.to),
            matches,
        ),
    }
}

/// What a tick at `now` with the given match log does to a state: the
/// state after it, and how it ends.
pub open spec fn ticked(state: EngineState, config: Config, now: i64, log: Seq<MatchRecord>) -> (
    EngineState,
    TickResult,
) {
    if now - state.last_update < config.rating_period {
        (state, TickResult::Waited)
    } else {
        let run = run_at(state.last_update, now, config.rating_period);
        match screened(log, run, config.characters as int, config.strictness) {
            Err(rejected) => (state, TickResult::Failed(RunFault::Rejected(rejected))),
            Ok((matches, rejected)) => if too_large(state, matches, run) {
                (state, TickResult::Failed(RunFault::TooLarge))
            } else {
                (state_after(state, matches, run), TickResult::Completed { run, rejected })
            },
        }
    }
}

impl TickOutcome {
    /// The mathematical value of the outcome.
    pub open spec fn result(self) -> TickResult {
        match self {
            TickOutcome::Waited => TickResult::Waited,
            TickOutcome::Completed { run, rejected } => TickResult::Completed {
                run,
                rejected: rejected@,
            },
            TickOutcome::Failed(fault) => TickResult::Failed(fault),
        }
    }
}

/// The engine: its configuration, the time of the last update, the table
/// of ratings, the history of snapshots, and the derived tables.
#[derive(Debug)]
pub struct Engine {
    pub config: Config,
    pub last_update: i64,
    pub table: Vec<PlayerRating>,
    pub snapshots: Vec<RatingSnapshot>,
    pub aggregates: Aggregates,
}

impl Engine {
    /// What the engine holds, as mathematical values.
    pub open spec fn state(self) -> EngineState {
        EngineState {
            last_update: self.last_update,
            table: self.table@,
            snapshots: self.snapshots@,
        }
    }

    /// Whether the engine is in order: a valid configuration, a valid
    /// table and history of a size that the engine handles, and the
    /// derived tables of just that table and history.
    pub open spec fn wf(self) -> bool {
        &&& self.config.wf()
        &&& table_wf(self.table@)
        &&& self.table@.len() <= MAX_TABLE
        &&& snapshots_wf(self.snapshots@)
        &&& self.snapshots@.len() <= MAX_HISTORY
        &&& self.aggregates.describes(self.table@, self.snapshots@, self.config)
    }

    /// An engine without ratings whose last update was at `last_update`,
    /// if the configuration is valid.
    pub fn new(config: Config, last_update: i64) -> (res: Option<Engine>)
        ensures
            res is Some <==> config.wf(),
            res matches Some(engine) ==> engine.wf() && engine.config == config && engine.state()
                == (EngineState {
                last_update,
                table: Seq::empty(),
                snapshots: Seq::empty(),
            }),
    {
        if !config.is_valid() {
            return None;
        }
        let table: Vec<PlayerRating> = Vec::new();
        let snapshots: Vec<RatingSnapshot> = Vec::new();
        let aggregates = rebuild(&table, &snapshots, &config);
        let engine = Engine { config, last_update, table, snapshots, aggregates };
        assert(engine.table@ =~= Seq::empty());
        assert(engine.snapshots@ =~= Seq::empty());
        Some(engine)
    }

    /// Handles a tick of the clock at `now`, given the match log. Before a
    /// whole rating period has passed since the last update nothing
    /// changes. Otherwise the records of the window are screened and rated
    /// as one batch, the derived tables are rebuilt, and `last_update`
    /// advances by the whole periods that have passed. A run that is
    /// abandoned leaves the engine exactly as it was.
    pub fn tick(&mut self, now: i64, log: &Vec<MatchRecord>) -> (outcome: TickOutcome)
        requires
            old(self).wf(),
        ensures
            final(self).wf(),
            final(self).config == old(self).config,
            final(self).state() == ticked(old(self).state(), old(self).config, now, log@).0,
            outcome.result() == ticked(old(self).state(), old(self).config, now, log@).1,
            !(outcome is Completed) ==> *final(self) == *old(self),
    {
        let mut scheduler = Scheduler {
            phase: Phase::Idle,
            last_update: self.last_update,
            rating_period: self.config.rating_period,
        };
        let run = match scheduler.tick(now) {
            Action::Wait => {
                return TickOutcome::Waited;
            },
            Action::Start(run) => run,
        };
        let (matches, rejected) = match screen(
            log,
            run,
            self.config.characters as i64,
            self.config.strictness,
        ) {
            Err(rejected) => {
                return TickOutcome::Failed(RunFault::Rejected(rejected));
            },
            Ok(found) => found,
        };
        if matches.len() > MAX_GAMES || matches.len() > MAX_HISTORY - self.snapshots.len() {
            return TickOutcome::Failed(RunFault::TooLarge);
        }
        let ghost before = self.state();
        let mut table: Vec<PlayerRating> = Vec::new();
        let mut i: usize = 0;
        while i < self.table.len()
            invariant
                i <= self.table@.len(),
                table@ == self.table@.take(i as int),
            decreases self.table@.len() - i,
        {
            table.push(self.table[i]);
            i = i + 1;
        }
        assert(table@ == self.table@) by {
            assert(self.table@.take(i as int) == self.table@);
        }
        let (after, mut taken) = apply_period(table, &matches, run.periods, run.to);
        if after.len() > MAX_TABLE {
            return TickOutcome::Failed(RunFault::TooLarge);
        }
        let mut snapshots: Vec<RatingSnapshot> = Vec::new();
        let mut j: usize = 0;
        while j < self.snapshots.len()
            invariant
                j <= self.snapshots@.len(),
                snapshots@ == self.snapshots@.take(j as int),
            decreases self.snapshots@.len() - j,
        {
            snapshots.push(self.snapshots[j]);
            j = j + 1;
        }
        assert(snapshots@ == self.snapshots@) by {
            assert(self.snapshots@.take(j as int) == self.snapshots@);
        }
        snapshots.append(&mut taken);
        proof {
            assert forall|k: int| 0 <= k < snapshots@.len() implies (#[trigger] snapshots@[k]).wf() by {
                if k < before.snapshots.len() {
                    assert(snapshots@[k] == before.snapshots[k]);
                }
            }
        }
        let aggregates = rebuild(&after, &snapshots, &self.config);
        self.last_update = run.to;
        self.table = after;
        self.snapshots = snapshots;
        self.aggregates = aggregates;
        TickOutcome::Completed { run, rejected }
    }
}

/// A tick that comes less than one rating period after the last update
/// changes nothing: `last_update`, the ratings and the history stay as
/// they are, whatever the match log holds.
pub proof fn law_early_tick_changes_nothing(
    state: EngineState,
    config: Config,
    now: i64,
    log: Seq<MatchRecord>,
)
    requires
        now - state.last_update < config.rating_period,
    ensures
        ticked(state, config, now, log).0 == state,
        ticked(state, config, now, log).1 == TickResult::Waited,
{
}

/// After a tick, whether it made a run or not, every further tick that
/// comes less than one rating period after the `last_update` that it left
/// changes nothing.
pub proof fn law_no_second_run(
    state: EngineState,
    config: Config,
    now: i64,
    later: i64,
    log: Seq<MatchRecord>,
    later_log: Seq<MatchRecord>,
)
    requires
        later - ticked(state, config, now, log).0.last_update < config.rating_period,
    ensures
        ticked(ticked(state, config, now, log).0, config, later, later_log).0 == ticked(
            state,
            config,
            now,
            log,
        ).0,
        ticked(ticked(state, config, now, log).0, config, later, later_log).1
            == TickResult::Waited,
{
}

/// A run is repeatable: the state after a tick and the way the tick ends
/// are fixed by the state before it, the configuration, the time and the
/// match log. Two engines that start alike and see the same tick end
/// alike, and their derived tables hold the same entries.
pub proof fn law_tick_repeatable(
    first: Engine,
    second: Engine,
    state: EngineState,
    config: Config,
    now: i64,
    log: Seq<MatchRecord>,
)
    requires
        first.wf(),
        second.wf(),
        first.config == config,
        second.config == config,
        first.state() == ticked(state, config, now, log).0,
        second.state() == ticked(state, config, now, log).0,
    ensures
        first.state() == second.state(),
        first.aggregates.same_as(second.aggregates),
{
    crate::tables::law_rebuild_repeatable(
        first.aggregates,
        second.aggregates,
        first.table@,
        first.snapshots@,
        config,
    );
}

/// Every match of a completed run lies in the run's window: later than
/// the `last_update` before it and not later than the `last_update`
/// after it. So no match is rated by two runs.
pub proof fn law_windows_do_not_overlap(log: Seq<MatchRecord>, run: Run, next: Run, characters: int)
    requires
        run.to <= next.from,
    ensures
        forall|i: int, j: int|
            0 <= i < crate::intake::window_matches(log, run, characters).len() && 0 <= j
                < crate::intake::window_matches(log, next, characters).len()
                ==> (#[trigger] crate::intake::window_matches(log, run, characters)[i]).timestamp
                < (#[trigger] crate::intake::window_matches(log, next, characters)[j]).timestamp,
{
    lemma_window_matches_wf(log, run, characters);
    lemma_window_matches_wf(log, next, characters);
}

} // verus!
