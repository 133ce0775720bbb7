use ratings::distribution::Brackets;
use ratings::engine::Engine;
use ratings::glicko::{Outcome, Rating, DEVIATION_CEILING};
use ratings::intake::{screen, MatchFault, MatchRecord, Rejected, Strictness};
use ratings::rater::{
    add_count, apply_period, bring_forward, enter, enter_sides, find_row, raise_defeated,
    raise_top, take_snapshots,
};
use ratings::records::{
    Match, PlayerRating, RatingSnapshot, TopDefeated, TopRating, Winner, COUNT_LIMIT,
};
use ratings::scheduler::Run;
use ratings::tables::{rebuild, Config};

fn game(timestamp: i64, id_a: i64, char_a: i64, id_b: i64, char_b: i64, winner: Winner) -> Match {
    Match { timestamp, id_a, char_a, id_b, char_b, winner, floor: 4 }
}

fn record(timestamp: i64, id_a: i64, char_a: i64, id_b: i64, char_b: i64, winner: i64) -> MatchRecord {
    MatchRecord { timestamp, id_a, char_a, id_b, char_b, winner, floor: 4 }
}

fn row(id: i64, char_id: i64, value: i64, deviation: i64) -> PlayerRating {
    PlayerRating {
        id,
        char_id,
        rating: Rating::new(value, deviation).unwrap(),
        wins: 0,
        losses: 0,
        last_decay_period: 0,
        top_rating: None,
        top_defeated: None,
    }
}

#[test]
fn outcome_codes_name_the_winner() {
    assert_eq!(Winner::from_code(1), Some(Winner::A));
    assert_eq!(Winner::from_code(2), Some(Winner::B));
    assert_eq!(Winner::from_code(0), None);
    assert_eq!(Winner::from_code(3), None);
    assert_eq!(Winner::from_code(-1), None);
}

#[test]
fn records_are_examined_in_a_fixed_order() {
    assert_eq!(record(5, 1, 0, 2, 1, 2).examine(2), Ok(game(5, 1, 0, 2, 1, Winner::B)));
    assert_eq!(record(5, 1, 0, 1, 1, 1).examine(2), Ok(game(5, 1, 0, 1, 1, Winner::A)));
    assert_eq!(record(5, 1, 0, 2, 0, 1).examine(1), Ok(game(5, 1, 0, 2, 0, Winner::A)));
    assert_eq!(record(5, 1, 0, 2, 1, 3).examine(2), Err(MatchFault::UnknownOutcome));
    assert_eq!(record(5, 1, 9, 1, 9, 3).examine(2), Err(MatchFault::UnknownOutcome));
    assert_eq!(record(5, 1, 0, 2, 2, 1).examine(2), Err(MatchFault::UnknownCharacter));
    assert_eq!(record(5, 1, -1, 2, 0, 1).examine(2), Err(MatchFault::UnknownCharacter));
    assert_eq!(record(5, 1, 9, 1, 9, 1).examine(2), Err(MatchFault::UnknownCharacter));
    assert_eq!(record(5, 1, 0, 2, 0, 1).examine(0), Err(MatchFault::UnknownCharacter));
    assert_eq!(record(5, 1, 1, 1, 1, 2).examine(2), Err(MatchFault::SamePlayer));
}

#[test]
fn only_the_window_is_screened() {
    let run = Run { from: 100, to: 200, periods: 1 };
    let log = vec![
        record(100, 1, 0, 2, 0, 9),
        record(101, 1, 0, 2, 0, 1),
        record(150, 3, 0, 3, 0, 1),
        record(200, 1, 0, 2, 0, 2),
        record(201, 1, 0, 2, 0, 9),
        record(50, 1, 7, 2, 0, 1),
        record(120, 1, 7, 2, 0, 1),
    ];
    let (matches, rejected) = screen(&log, run, 1, Strictness::SkipAndReport).unwrap();
    assert_eq!(matches, vec![game(101, 1, 0, 2, 0, Winner::A), game(200, 1, 0, 2, 0, Winner::B)]);
    assert_eq!(
        rejected,
        vec![
            Rejected { index: 2, fault: MatchFault::SamePlayer },
            Rejected { index: 6, fault: MatchFault::UnknownCharacter },
        ]
    );
    assert_eq!(
        screen(&log, run, 1, Strictness::FailClosed),
        Err(Rejected { index: 2, fault: MatchFault::SamePlayer })
    );
    let clean = vec![log[0], log[1], log[3], log[4]];
    let (matches, rejected) = screen(&clean, run, 1, Strictness::FailClosed).unwrap();
    assert_eq!(matches.len(), 2);
    assert!(rejected.is_empty());
    let (matches, rejected) = screen(&Vec::new(), run, 1, Strictness::FailClosed).unwrap();
    assert!(matches.is_empty() && rejected.is_empty());
    let nothing = Run { from: 300, to: 400, periods: 1 };
    let (matches, rejected) = screen(&log, nothing, 1, Strictness::FailClosed).unwrap();
    assert!(matches.is_empty() && rejected.is_empty());
}

#[test]
fn rows_are_found_and_entered_once() {
    let mut table = vec![row(1, 0, 5, 300_000), row(1, 1, 6, 300_000), row(2, 0, 7, 300_000)];
    assert_eq!(find_row(&table, 1, 0), Some(0));
    assert_eq!(find_row(&table, 1, 1), Some(1));
    assert_eq!(find_row(&table, 2, 0), Some(2));
    assert_eq!(find_row(&table, 2, 1), None);
    assert_eq!(find_row(&Vec::new(), 1, 0), None);
    enter(&mut table, 1, 1, 77);
    assert_eq!(table.len(), 3);
    enter(&mut table, 2, 1, 77);
    assert_eq!(table.len(), 4);
    assert_eq!(table[3], PlayerRating::entrant(2, 1, 77));
    assert_eq!(table[3].rating, Rating::initial());
    assert_eq!(table[3].last_decay_period, 77);
    let matches = vec![game(1, 9, 0, 1, 0, Winner::A), game(2, 9, 0, 8, 3, Winner::B)];
    enter_sides(&mut table, &matches, 78);
    let keys: Vec<(i64, i64)> = table.iter().map(|r| (r.id, r.char_id)).collect();
    assert_eq!(keys, vec![(1, 0), (1, 1), (2, 0), (2, 1), (9, 0), (8, 3)]);
    let snapshots = take_snapshots(&table, &matches);
    assert_eq!(snapshots.len(), 2);
    assert_eq!(snapshots[0].game, matches[0]);
    assert_eq!(snapshots[0].rating_a, Rating::initial());
    assert_eq!(snapshots[0].rating_b, Rating::new(5, 300_000).unwrap());
    assert_eq!(snapshots[1].rating_b, Rating::initial());
}

#[test]
fn counts_stop_at_their_limit() {
    assert_eq!(add_count(3, 4), 7);
    assert_eq!(add_count(COUNT_LIMIT - 1, 1), COUNT_LIMIT);
    assert_eq!(add_count(COUNT_LIMIT, 1), COUNT_LIMIT);
    assert_eq!(add_count(COUNT_LIMIT - 5, u64::MAX), COUNT_LIMIT);
    assert_eq!(add_count(0, 0), 0);
}

#[test]
fn watermarks_rise_only_on_strict_improvement() {
    let after = Rating::new(100, 300_000).unwrap();
    let first = raise_top(None, after, 5);
    assert_eq!(first, Some(TopRating { value: 100, deviation: 300_000, timestamp: 5 }));
    assert_eq!(raise_top(first, after, 9), first);
    assert_eq!(raise_top(first, Rating::new(99, 150_000).unwrap(), 9), first);
    assert_eq!(
        raise_top(first, Rating::new(101, 150_000).unwrap(), 9),
        Some(TopRating { value: 101, deviation: 150_000, timestamp: 9 })
    );
    let beaten = |opponent_rating: i64, timestamp: i64| TopDefeated {
        opponent_id: timestamp,
        opponent_char: 1,
        opponent_rating,
        opponent_deviation: 300_000,
        floor: 2,
        timestamp,
    };
    let held = raise_defeated(None, beaten(-50, 1));
    assert_eq!(held, Some(beaten(-50, 1)));
    assert_eq!(raise_defeated(held, beaten(-50, 2)), held);
    assert_eq!(raise_defeated(held, beaten(-51, 2)), held);
    assert_eq!(raise_defeated(held, beaten(-49, 2)), Some(beaten(-49, 2)));
}

fn snapshot(timestamp: i64, a: (i64, i64, i64), b: (i64, i64, i64), winner: Winner) -> RatingSnapshot {
    RatingSnapshot {
        game: game(timestamp, a.0, a.1, b.0, b.1, winner),
        rating_a: Rating::new(a.2, 300_000).unwrap(),
        rating_b: Rating::new(b.2, 300_000).unwrap(),
    }
}

#[test]
fn a_row_is_brought_forward_by_its_games() {
    let mut own = row(1, 0, 0, 300_000);
    own.wins = 10;
    own.losses = 20;
    own.top_rating = Some(TopRating { value: 44_853, deviation: 310_000, timestamp: 1 });
    own.top_defeated = Some(TopDefeated {
        opponent_id: 5,
        opponent_char: 5,
        opponent_rating: 400_000,
        opponent_deviation: 200_000,
        floor: 1,
        timestamp: 1,
    });
    let snapshots = vec![
        snapshot(100, (1, 0, 0), (2, 1, 500_000), Winner::B),
        snapshot(110, (3, 1, 900_000), (1, 0, 0), Winner::B),
        snapshot(120, (1, 0, 0), (2, 1, 900_000), Winner::A),
        snapshot(130, (1, 1, 0), (2, 1, 2_000_000), Winner::A),
        snapshot(140, (4, 0, 0), (1, 0, 0), Winner::A),
    ];
    let after = bring_forward(&own, &snapshots, 3, 999);
    let opponent = |value: i64| Rating::new(value, 300_000).unwrap();
    let games = vec![
        (opponent(500_000), Outcome::Loss),
        (opponent(900_000), Outcome::Win),
        (opponent(900_000), Outcome::Win),
        (opponent(0), Outcome::Loss),
    ];
    assert_eq!(after.rating, own.rating.update(&games));
    assert_eq!((after.id, after.char_id), (1, 0));
    assert_eq!((after.wins, after.losses), (12, 22));
    assert_eq!(after.last_decay_period, 999);
    assert_eq!(after.rating, Rating { value: 44_854, deviation: 294_399 });
    assert_eq!(
        after.top_rating,
        Some(TopRating { value: after.rating.value, deviation: after.rating.deviation, timestamp: 100 })
    );
    assert_eq!(
        after.top_defeated,
        Some(TopDefeated {
            opponent_id: 3,
            opponent_char: 1,
            opponent_rating: 900_000,
            opponent_deviation: 300_000,
            floor: 4,
            timestamp: 110,
        })
    );
    let mut tied = own;
    tied.top_rating = Some(TopRating { value: 44_854, deviation: 310_000, timestamp: 1 });
    assert_eq!(bring_forward(&tied, &snapshots, 3, 999).top_rating, tied.top_rating);
    let idle = bring_forward(&own, &snapshots[3..4].to_vec(), 3, 999);
    assert_eq!(idle.rating, own.rating.decay(3));
    assert_eq!((idle.wins, idle.losses), (10, 20));
    assert_eq!(idle.top_rating, own.top_rating);
    assert_eq!(idle.top_defeated, own.top_defeated);
    assert_eq!(idle.last_decay_period, 999);
    let lost = bring_forward(&own, &snapshots[0..1].to_vec(), 1, 5);
    assert!(lost.rating.value < 0);
    assert_eq!(lost.top_rating, own.top_rating);
    assert_eq!(lost.top_defeated, own.top_defeated);
}

#[test]
fn a_run_is_applied_as_one_batch() {
    let table = vec![row(1, 0, 0, 300_000), row(7, 0, 1_000_000, 300_000)];
    let matches = vec![
        game(10, 1, 0, 2, 0, Winner::A),
        game(20, 2, 0, 1, 0, Winner::A),
        game(30, 1, 0, 2, 0, Winner::A),
    ];
    let (after, snapshots) = apply_period(table.clone(), &matches, 2, 50);
    assert_eq!(after.len(), 3);
    assert_eq!(snapshots.len(), 3);
    for snapshot in &snapshots {
        let (one, two) = if snapshot.game.id_a == 1 {
            (snapshot.rating_a, snapshot.rating_b)
        } else {
            (snapshot.rating_b, snapshot.rating_a)
        };
        assert_eq!(one, table[0].rating);
        assert_eq!(two, Rating::initial());
    }
    let games = vec![
        (Rating::initial(), Outcome::Win),
        (Rating::initial(), Outcome::Loss),
        (Rating::initial(), Outcome::Win),
    ];
    assert_eq!(after[0].rating, table[0].rating.update(&games));
    assert_eq!((after[0].wins, after[0].losses), (2, 1));
    assert_eq!(after[1].rating, table[1].rating.decay(2));
    assert_eq!((after[1].id, after[1].wins, after[1].losses), (7, 0, 0));
    assert_eq!(after[1].last_decay_period, 50);
    assert_eq!(after[1].top_rating, None);
    assert_eq!((after[2].id, after[2].char_id, after[2].wins, after[2].losses), (2, 0, 1, 2));
    assert_eq!(after[2].top_rating.unwrap().timestamp, 10);
    assert_eq!(after[2].top_defeated.unwrap().timestamp, 20);
    assert_eq!(after[2].top_defeated.unwrap().opponent_rating, 0);
    assert_eq!(after[2].top_defeated.unwrap().opponent_id, 1);
    let mut turned = matches.clone();
    turned.reverse();
    let (again, _) = apply_period(table.clone(), &turned, 2, 50);
    assert_eq!(again[0].rating, after[0].rating);
    assert_eq!(again[2].rating, after[2].rating);
    let (unchanged, none) = apply_period(Vec::new(), &Vec::new(), 1, 0);
    assert!(unchanged.is_empty() && none.is_empty());
}

fn config() -> Config {
    Config {
        rating_period: 3600,
        low_deviation: 2_000_000,
        min_games: 250,
        min_pairs: 50,
        brackets: Brackets { base: 1000, width: 100, count: 20 },
        characters: 2,
        high_value: 0,
        highest_value: 1_000_000,
        strictness: Strictness::FailClosed,
    }
}

#[test]
fn watermarks_never_fall_over_many_runs() {
    let mut engine = Engine::new(config(), 0).unwrap();
    let mut log = Vec::new();
    let mut peaks: Vec<(i64, i64)> = Vec::new();
    let mut best: Vec<i64> = Vec::new();
    for run in 0..12i64 {
        for k in 0..5i64 {
            let timestamp = run * 3600 + 1 + k;
            let winner = if (run + k) % 3 == 0 { 2 } else { 1 };
            log.push(record(timestamp, 1, 0, 2 + (k % 2), 1, winner));
        }
        let now = (run + 1) * 3600;
        engine.tick(now, &log);
        assert_eq!(engine.last_update, now);
        for (index, row) in engine.table.iter().enumerate() {
            let top = row.top_rating.unwrap();
            if index >= peaks.len() {
                peaks.push((top.value, top.timestamp));
            } else {
                let (value, timestamp) = peaks[index];
                assert!(top.value >= value);
                if top.value == value {
                    assert_eq!(top.timestamp, timestamp);
                } else {
                    assert_eq!(top.value, row.rating.value);
                    assert_eq!(top.deviation, row.rating.deviation);
                    assert!(top.timestamp > run * 3600 && top.timestamp <= now);
                }
                peaks[index] = (top.value, top.timestamp);
            }
            assert!(top.value >= row.rating.value);
            let beaten = row.top_defeated.map(|b| b.opponent_rating).unwrap_or(i64::MIN);
            if index >= best.len() {
                best.push(beaten);
            } else {
                assert!(beaten >= best[index]);
                best[index] = beaten;
            }
            assert!(row.rating.deviation >= 150_000 && row.rating.deviation <= DEVIATION_CEILING);
        }
    }
    assert_eq!(engine.snapshots.len(), 60);
    assert_eq!(engine.table.len(), 3);
    assert_eq!(engine.table[0].wins + engine.table[0].losses, 60);
}

#[test]
fn configurations_are_checked() {
    assert!(config().is_valid());
    assert!(!Config { rating_period: 0, ..config() }.is_valid());
    assert!(!Config { low_deviation: 0, ..config() }.is_valid());
    assert!(!Config { characters: 1025, ..config() }.is_valid());
    assert!(Config { characters: 1024, ..config() }.is_valid());
    assert!(!Config { brackets: Brackets { base: 0, width: 0, count: 1 }, ..config() }.is_valid());
    assert!(!Config { brackets: Brackets { base: 0, width: 1, count: 0 }, ..config() }.is_valid());
    assert!(!Config { brackets: Brackets { base: 1_000_001, width: 1, count: 1 }, ..config() }.is_valid());
    assert!(Engine::new(Config { rating_period: -5, ..config() }, 0).is_none());
    let engine = Engine::new(config(), 42).unwrap();
    assert_eq!(engine.last_update, 42);
    assert!(engine.table.is_empty());
    assert_eq!(engine.aggregates.floor_distribution.len(), 11);
}

#[test]
fn every_table_is_rebuilt() {
    let table = vec![
        PlayerRating { wins: 3, losses: 1, ..row(1, 0, 1_000_000, 300_000) },
        PlayerRating { wins: 1, losses: 3, ..row(2, 1, -1_000_000, 300_000) },
        PlayerRating { wins: 0, losses: 0, ..row(1, 1, 0, 300_000) },
    ];
    let snapshots = vec![
        snapshot(1, (1, 0, 0), (2, 1, 0), Winner::A),
        snapshot(2, (2, 1, 0), (1, 0, 0), Winner::B),
        snapshot(3, (1, 0, 0), (2, 1, 0), Winner::A),
        snapshot(4, (1, 0, 0), (2, 1, 0), Winner::B),
    ];
    let tables = rebuild(&table, &snapshots, &config());
    assert_eq!(tables.ranking_global, vec![table[0], table[2], table[1]]);
    assert_eq!(tables.ranking_character, vec![vec![table[0]], vec![table[2], table[1]]]);
    assert_eq!(tables.matchups_player.len(), 3);
    assert_eq!(tables.matchups_player[0].len(), 2);
    assert_eq!((tables.matchups_player[0][1].wins_real, tables.matchups_player[0][1].losses_real), (3, 1));
    assert_eq!((tables.matchups_player[1][0].wins_real, tables.matchups_player[1][0].losses_real), (1, 3));
    assert_eq!(tables.matchups_player[2][0].wins_real + tables.matchups_player[2][1].wins_real, 0);
    assert_eq!(tables.matchups_global.get(0, 1).wins_real, 3);
    assert_eq!(tables.matchups_global.get(1, 0).wins_real, 1);
    assert_eq!(tables.matchups_high_rated.get(0, 1).losses_real, 1);
    assert_eq!(tables.versus.len(), 4);
    assert_eq!((tables.versus[1].wins, tables.versus[1].games, tables.versus[1].pairs), (3, 4, 1));
    assert_eq!((tables.versus[2].wins, tables.versus[2].games, tables.versus[2].pairs), (1, 4, 1));
    assert_eq!(tables.versus[0].games, 0);
    assert_eq!(tables.rating_distribution.len(), 20);
    assert_eq!(tables.rating_distribution[6].player_count, 1);
    assert_eq!(tables.rating_distribution[19].player_count_cum, 3);
    assert_eq!(tables.floor_distribution[3].game_count, 4);
    assert_eq!(tables.floor_distribution[3].player_count, 2);
    assert_eq!(tables.popularity_global, vec![Some(500_000), Some(500_000)]);
    assert_eq!(tables.popularity_rating.len(), 20);
    assert_eq!(tables.popularity_rating[6], vec![Some(1_000_000), Some(0)]);
    assert_eq!(tables.popularity_rating[0], vec![None, None]);
    assert_eq!(tables.fraud_index[0].player_count, 1);
    assert_eq!(tables.fraud_index[0].average_delta, Some(173_717_800));
    assert_eq!(tables.fraud_index[1].player_count, 1);
    assert_eq!(tables.fraud_index[1].average_delta, Some(-173_717_800));
    assert_eq!(tables.fraud_index_higher_rated[1].player_count, 1);
    assert_eq!(tables.fraud_index_highest_rated[0].player_count, 1);
    assert_eq!(tables.fraud_index_highest_rated[1].player_count, 0);
}
