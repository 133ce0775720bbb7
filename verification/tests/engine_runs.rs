use ratings::charts::{get_evaluation, Evaluation, Matchup, VersusMatchup};
use ratings::distribution::Brackets;
use ratings::engine::{Engine, RunFault, TickOutcome};
use ratings::glicko::{Outcome, Rating, DEVIATION_CEILING};
use ratings::intake::{MatchFault, MatchRecord, Rejected, Strictness};
use ratings::matchups::{MatchupCounts, VersusCounts};
use ratings::scheduler::{Action, Phase, Run, Scheduler};
use ratings::tables::Config;

fn config(strictness: Strictness) -> Config {
    Config {
        rating_period: 3600,
        low_deviation: 431_735,
        min_games: 250,
        min_pairs: 50,
        brackets: Brackets { base: 1000, width: 100, count: 20 },
        characters: 3,
        high_value: 1_726_939,
        highest_value: 2_878_231,
        strictness,
    }
}

fn record(timestamp: i64, id_a: i64, char_a: i64, id_b: i64, char_b: i64, winner: i64) -> MatchRecord {
    MatchRecord { timestamp, id_a, char_a, id_b, char_b, winner, floor: 7 }
}

#[test]
fn scheduler_waits_within_a_period() {
    let mut s = Scheduler::new(1000, 3600).unwrap();
    assert_eq!(s.tick(1000 + 3599), Action::Wait);
    assert_eq!(s.phase, Phase::Idle);
    assert_eq!(s.last_update, 1000);
}

#[test]
fn scheduler_advances_by_whole_periods() {
    let mut s = Scheduler::new(1000, 3600).unwrap();
    let action = s.tick(1000 + 3 * 3600 + 17);
    let run = Run { from: 1000, to: 1000 + 3 * 3600, periods: 3 };
    assert_eq!(action, Action::Start(run));
    assert_eq!(s.phase, Phase::Running);
    assert_eq!(s.last_update, 1000);
    assert_eq!(s.tick(1000 + 9 * 3600), Action::Wait);
    assert!(s.complete(run));
    assert_eq!(s.phase, Phase::Idle);
    assert_eq!(s.last_update, 1000 + 3 * 3600);
    assert!(!s.complete(run));
}

#[test]
fn scheduler_keeps_last_update_on_failure() {
    let mut s = Scheduler::new(0, 10).unwrap();
    let first = s.tick(25);
    s.fail();
    assert_eq!(s.phase, Phase::Idle);
    assert_eq!(s.last_update, 0);
    assert_eq!(s.tick(25), first);
    assert!(Scheduler::new(0, 0).is_none());
}

#[test]
fn second_tick_within_a_period_changes_nothing() {
    let mut engine = Engine::new(config(Strictness::FailClosed), 0).unwrap();
    let log = vec![record(100, 1, 0, 2, 1, 1), record(200, 2, 1, 1, 0, 2)];
    match engine.tick(3600, &log) {
        TickOutcome::Completed { run, rejected } => {
            assert_eq!(run, Run { from: 0, to: 3600, periods: 1 });
            assert!(rejected.is_empty());
        }
        other => panic!("{:?}", other),
    }
    let last_update = engine.last_update;
    let table = engine.table.clone();
    let snapshots = engine.snapshots.clone();
    let board = engine.aggregates.ranking_global.clone();
    let floors = engine.aggregates.floor_distribution.clone();
    assert!(matches!(engine.tick(3600 + 1800, &log), TickOutcome::Waited));
    assert_eq!(engine.last_update, last_update);
    assert_eq!(engine.table, table);
    assert_eq!(engine.snapshots, snapshots);
    assert_eq!(engine.aggregates.ranking_global, board);
    assert_eq!(engine.aggregates.floor_distribution, floors);
}

#[test]
fn a_run_rates_the_window_as_one_batch() {
    let mut engine = Engine::new(config(Strictness::FailClosed), 0).unwrap();
    let log = vec![
        record(100, 1, 0, 2, 1, 1),
        record(200, 2, 1, 1, 0, 2),
        record(300, 1, 0, 3, 2, 1),
        record(5000, 1, 0, 2, 1, 2),
    ];
    assert!(matches!(engine.tick(3700, &log), TickOutcome::Completed { .. }));
    assert_eq!(engine.last_update, 3600);
    assert_eq!(engine.snapshots.len(), 3);
    let initial = Rating::initial();
    for snapshot in &engine.snapshots {
        assert_eq!(snapshot.rating_a, initial);
        assert_eq!(snapshot.rating_b, initial);
    }
    assert_eq!(engine.table.len(), 3);
    let one = engine.table[0];
    assert_eq!((one.id, one.char_id, one.wins, one.losses), (1, 0, 3, 0));
    let games = vec![(initial, Outcome::Win), (initial, Outcome::Win), (initial, Outcome::Win)];
    assert_eq!(one.rating, initial.update(&games));
    assert_eq!(one.last_decay_period, 3600);
    let top = one.top_rating.unwrap();
    assert_eq!((top.value, top.deviation, top.timestamp), (one.rating.value, one.rating.deviation, 100));
    let beaten = one.top_defeated.unwrap();
    assert_eq!((beaten.opponent_id, beaten.opponent_char, beaten.timestamp), (2, 1, 100));
    assert_eq!(beaten.opponent_deviation, DEVIATION_CEILING);
    let two = engine.table[1];
    assert_eq!((two.id, two.char_id, two.wins, two.losses), (2, 1, 0, 2));
    assert!(two.top_defeated.is_none());
    assert!(two.rating.value < 0);
    // the later match is rated by the next run, and only once
    assert!(matches!(engine.tick(7200, &log), TickOutcome::Completed { .. }));
    assert_eq!(engine.snapshots.len(), 4);
    assert_eq!(engine.snapshots[3].rating_a, one.rating);
    assert_eq!(engine.table[2].rating, engine.table[2].rating);
    let idle = engine.table[2];
    assert_eq!((idle.id, idle.wins, idle.losses), (3, 0, 1));
}

#[test]
fn an_idle_rating_decays_once_per_period() {
    let mut engine = Engine::new(config(Strictness::FailClosed), 0).unwrap();
    let log = vec![record(100, 1, 0, 2, 1, 1), record(3700, 1, 0, 2, 1, 1)];
    assert!(matches!(engine.tick(3600, &log), TickOutcome::Completed { .. }));
    let before = engine.table.clone();
    let more = vec![log[0], log[1], record(20000, 3, 2, 4, 2, 2)];
    match engine.tick(3600 + 5 * 3600 + 1, &more) {
        TickOutcome::Completed { run, .. } => assert_eq!(run.periods, 5),
        other => panic!("{:?}", other),
    }
    assert_eq!(engine.last_update, 6 * 3600);
    // players 1 and 2 played once in the window
    assert_eq!(engine.table[0].wins, 2);
    // players 3 and 4 entered
    assert_eq!(engine.table.len(), 4);
    assert_eq!(engine.table[2].rating.deviation < DEVIATION_CEILING, true);
    let _ = before;
    // a run without any match decays every rating by its periods
    let table = engine.table.clone();
    assert!(matches!(engine.tick(8 * 3600, &more), TickOutcome::Completed { .. }));
    for (old, new) in table.iter().zip(engine.table.iter()) {
        assert_eq!(new.rating, old.rating.decay(2));
        assert_eq!(new.rating.value, old.rating.value);
        assert!(new.rating.deviation >= old.rating.deviation);
        assert_eq!(new.top_rating, old.top_rating);
        assert_eq!(new.top_defeated, old.top_defeated);
        assert_eq!((new.wins, new.losses), (old.wins, old.losses));
    }
}

#[test]
fn failing_closed_leaves_the_engine_untouched() {
    let mut engine = Engine::new(config(Strictness::FailClosed), 0).unwrap();
    let log = vec![record(100, 1, 0, 2, 1, 1), record(200, 1, 0, 2, 1, 3), record(300, 1, 0, 2, 9, 1)];
    match engine.tick(3600, &log) {
        TickOutcome::Failed(RunFault::Rejected(rejected)) => {
            assert_eq!(rejected, Rejected { index: 1, fault: MatchFault::UnknownOutcome });
        }
        other => panic!("{:?}", other),
    }
    assert_eq!(engine.last_update, 0);
    assert!(engine.table.is_empty());
    assert!(engine.snapshots.is_empty());
}

#[test]
fn skipping_reports_every_unrated_record() {
    let mut engine = Engine::new(config(Strictness::SkipAndReport), 0).unwrap();
    let log = vec![
        record(100, 1, 0, 2, 1, 1),
        record(200, 1, 0, 2, 1, 0),
        record(300, 1, 0, 2, 3, 1),
        record(400, 5, 1, 5, 1, 2),
        record(500, 1, 0, 2, -1, 2),
        record(3601, 1, 0, 2, 1, 7),
    ];
    match engine.tick(3600, &log) {
        TickOutcome::Completed { rejected, .. } => {
            assert_eq!(
                rejected,
                vec![
                    Rejected { index: 1, fault: MatchFault::UnknownOutcome },
                    Rejected { index: 2, fault: MatchFault::UnknownCharacter },
                    Rejected { index: 3, fault: MatchFault::SamePlayer },
                    Rejected { index: 4, fault: MatchFault::UnknownCharacter },
                ]
            );
        }
        other => panic!("{:?}", other),
    }
    assert_eq!(engine.snapshots.len(), 1);
    assert_eq!(engine.last_update, 3600);
}

#[test]
fn rerunning_gives_the_same_tables() {
    let log = vec![
        record(100, 1, 0, 2, 1, 1),
        record(200, 2, 1, 3, 2, 2),
        record(300, 3, 2, 1, 0, 1),
        record(400, 1, 1, 2, 0, 1),
    ];
    let mut first = Engine::new(config(Strictness::FailClosed), 0).unwrap();
    let mut second = Engine::new(config(Strictness::FailClosed), 0).unwrap();
    assert!(matches!(first.tick(4000, &log), TickOutcome::Completed { .. }));
    assert!(matches!(second.tick(4000, &log), TickOutcome::Completed { .. }));
    assert_eq!(first.table, second.table);
    assert_eq!(first.snapshots, second.snapshots);
    assert_eq!(format!("{:?}", first.aggregates), format!("{:?}", second.aggregates));
}

#[test]
fn a_thin_matchup_is_flagged() {
    let thin = MatchupCounts { wins_real: 6, losses_real: 4, wins_adjusted: 6_000_000, losses_adjusted: 4_000_000 };
    let cell = Matchup::new(&thin, 250);
    assert!(cell.suspicious);
    assert_eq!(cell.game_count, 10);
    assert_eq!(cell.win_rate_real, Some(60));
    assert_eq!(cell.evaluation, Evaluation::Unrated);
    let full = MatchupCounts { wins_real: 150, losses_real: 100, wins_adjusted: 150_000_000, losses_adjusted: 100_000_000 };
    let cell = Matchup::new(&full, 250);
    assert!(!cell.suspicious);
    assert_eq!(cell.game_count, 250);
    assert_eq!(cell.win_rate_real, Some(60));
    assert_eq!(cell.win_rate_adjusted, Some(60));
    assert_eq!(cell.evaluation, Evaluation::Good);
    let empty = Matchup::new(&MatchupCounts::zero(), 250);
    assert_eq!(empty.win_rate_real, None);
    assert_eq!(empty.win_rate_adjusted, None);
    assert!(empty.suspicious);
    assert_eq!(empty.evaluation, Evaluation::Unrated);
}

#[test]
fn verdicts_follow_the_win_rate() {
    assert_eq!(get_evaluation(61, 39, 100, 100), Evaluation::VeryGood);
    assert_eq!(get_evaluation(60, 40, 100, 100), Evaluation::Good);
    assert_eq!(get_evaluation(56, 44, 100, 100), Evaluation::SlightlyGood);
    assert_eq!(get_evaluation(52, 48, 100, 100), Evaluation::Even);
    assert_eq!(get_evaluation(48, 52, 100, 100), Evaluation::SlightlyBad);
    assert_eq!(get_evaluation(44, 56, 100, 100), Evaluation::Bad);
    assert_eq!(get_evaluation(40, 60, 100, 100), Evaluation::VeryBad);
    assert_eq!(get_evaluation(0, 0, 100, 100), Evaluation::Unrated);
    assert_eq!(get_evaluation(0, 0, 250, 250), Evaluation::Unrated);
    assert_eq!(get_evaluation(0, 1, 250, 250), Evaluation::VeryBad);
    assert_eq!(get_evaluation(61, 39, 99, 100), Evaluation::Unrated);
    assert_eq!(Evaluation::Even.label(), "ok");
    assert_eq!(Evaluation::Unrated.label(), "none");
    assert_eq!(Evaluation::SlightlyBad.label(), "slightlybad");
}

#[test]
fn versus_cells_need_pairs_and_games() {
    let cell = VersusMatchup::new(&VersusCounts { wins: 200, games: 300, pairs: 49 }, 250, 50);
    assert!(cell.suspicious);
    assert_eq!(cell.win_rate, Some(67));
    assert_eq!(cell.evaluation, Evaluation::VeryGood);
    let cell = VersusMatchup::new(&VersusCounts { wins: 100, games: 249, pairs: 80 }, 250, 50);
    assert!(cell.suspicious);
    let cell = VersusMatchup::new(&VersusCounts { wins: 125, games: 250, pairs: 50 }, 250, 50);
    assert!(!cell.suspicious);
    assert_eq!(cell.evaluation, Evaluation::Even);
    let cell = VersusMatchup::new(&VersusCounts { wins: 0, games: 0, pairs: 0 }, 250, 50);
    assert_eq!(cell.win_rate, None);
    assert_eq!(cell.evaluation, Evaluation::Unrated);
}
