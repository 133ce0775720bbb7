use ratings::anomaly::{fraud_entry, fraud_index, offset, FraudEntry};
use ratings::distribution::{character_shares, rating_distribution, Brackets, RatingBracket};
use ratings::floors::{floor_distribution, slot_of, FloorCount};
use ratings::glicko::Rating;
use ratings::matchups::{
    tally_matchups, tally_player, versus, weigh, MatchupCounts, MatchupTable, VersusCounts,
};
use ratings::ordering::sort_descending;
use ratings::ranking::{get_player_highest_rated_character, place, rank, stands_above};
use ratings::records::{Match, PlayerRating, RatingSnapshot, Winner};

const CUTOFF: i64 = 431_735;

fn row(id: i64, char_id: i64, value: i64, deviation: i64) -> PlayerRating {
    PlayerRating {
        id,
        char_id,
        rating: Rating::new(value, deviation).unwrap(),
        wins: 0,
        losses: 0,
        last_decay_period: 0,
        top_rating: None,
        top_defeated: None,
    }
}

fn played(id: i64, char_id: i64, value: i64, wins: u64, losses: u64) -> PlayerRating {
    PlayerRating { wins, losses, ..row(id, char_id, value, 300_000) }
}

fn snap(
    a: (i64, i64, i64, i64),
    b: (i64, i64, i64, i64),
    winner: Winner,
    floor: i64,
) -> RatingSnapshot {
    RatingSnapshot {
        game: Match { timestamp: 0, id_a: a.0, char_a: a.1, id_b: b.0, char_b: b.1, winner, floor },
        rating_a: Rating::new(a.2, a.3).unwrap(),
        rating_b: Rating::new(b.2, b.3).unwrap(),
    }
}

fn counts(wins_real: u64, losses_real: u64, wins_adjusted: i64, losses_adjusted: i64) -> MatchupCounts {
    MatchupCounts { wins_real, losses_real, wins_adjusted, losses_adjusted }
}

#[test]
fn boards_are_ordered_by_value_then_player() {
    let a = row(1, 0, 2_000_000, 300_000);
    let b = row(2, 0, 2_000_000, 300_000);
    let c = row(3, 1, 3_000_000, 500_000);
    let d = row(4, 1, -1_000_000, CUTOFF);
    let e = row(1, 1, 2_000_000, 200_000);
    let table = vec![d, c, b, e, a];
    assert_eq!(rank(&table, CUTOFF, None), vec![a, e, b, d]);
    assert_eq!(rank(&table, CUTOFF, Some(1)), vec![e, d]);
    assert_eq!(rank(&table, CUTOFF, Some(0)), vec![a, b]);
    assert_eq!(rank(&table, CUTOFF, Some(2)), Vec::new());
    assert_eq!(rank(&table, CUTOFF - 1, Some(1)), vec![e]);
    assert_eq!(rank(&table, 2_014_732, None), vec![c, a, e, b, d]);
    assert_eq!(rank(&Vec::new(), CUTOFF, None), Vec::new());
    assert!(stands_above(&a, &b) && !stands_above(&b, &a));
    assert!(stands_above(&a, &e) && !stands_above(&e, &a));
    assert!(stands_above(&c, &a) && !stands_above(&a, &a));
    let mut board = vec![c, b, d];
    place(&mut board, a);
    assert_eq!(board, vec![c, a, b, d]);
    let mut turned = table.clone();
    turned.reverse();
    assert_eq!(rank(&turned, CUTOFF, None), vec![a, e, b, d]);
}

#[test]
fn the_primary_character_is_the_surest() {
    let table = vec![
        row(1, 0, 2_000_000, 300_000),
        row(3, 1, 3_000_000, 500_000),
        row(1, 1, 2_000_000, 200_000),
        row(1, 2, 3_000_000, 2_000_000),
        row(5, 4, 0, 300_000),
        row(5, 2, 0, 300_000),
    ];
    assert_eq!(get_player_highest_rated_character(&table, 1), Some(1));
    assert_eq!(get_player_highest_rated_character(&table, 3), Some(1));
    assert_eq!(get_player_highest_rated_character(&table, 5), Some(4));
    assert_eq!(get_player_highest_rated_character(&table, 9), None);
    assert_eq!(get_player_highest_rated_character(&Vec::new(), 1), None);
}

#[test]
fn lines_are_sorted_highest_first_and_stably() {
    assert_eq!(sort_descending(&vec![3, 9, 3, 1, 9, -4]), vec![1, 4, 0, 2, 3, 5]);
    assert_eq!(sort_descending(&vec![5]), vec![0]);
    assert_eq!(sort_descending(&Vec::new()), Vec::<usize>::new());
    assert_eq!(sort_descending(&vec![1, 2, 3, 4]), vec![3, 2, 1, 0]);
    assert_eq!(sort_descending(&vec![7, 7, 7]), vec![0, 1, 2]);
    assert_eq!(sort_descending(&vec![i64::MIN, i64::MAX, 0]), vec![1, 2, 0]);
}

fn history() -> Vec<RatingSnapshot> {
    vec![
        snap((1, 0, 0, 300_000), (2, 1, 0, 300_000), Winner::A, 3),
        snap((2, 1, 1_000_000, 800_000), (1, 0, 0, 300_000), Winner::A, 3),
        snap((3, 2, 600_000, 300_000), (4, 2, 600_000, 300_000), Winner::B, 10),
        snap((5, 5, 0, 300_000), (1, 0, 0, 300_000), Winner::A, 99),
        snap((2, 1, 0, 300_000), (1, 0, 0, 300_000), Winner::A, 11),
        snap((7, 0, 0, 300_000), (2, 1, 0, 300_000), Winner::B, 1),
    ]
}

#[test]
fn matches_weigh_less_when_a_rating_was_unsure() {
    let history = history();
    assert_eq!(weigh(&history[0], 400_000), 1_000_000);
    assert_eq!(weigh(&history[1], 400_000), 500_000);
    assert_eq!(weigh(&history[1], 800_000), 1_000_000);
    assert_eq!(weigh(&history[1], 799_999), 999_998);
    assert_eq!(weigh(&history[1], 1), 1);
    let unsure = snap((1, 0, 0, 2_014_732), (2, 1, 0, 150_000), Winner::A, 1);
    assert_eq!(weigh(&unsure, 1), 0);
    assert_eq!(weigh(&unsure, 1_007_366), 500_000);
}

#[test]
fn matchups_are_counted_from_both_sides() {
    let history = history();
    let table: MatchupTable = tally_matchups(&history, 3, i64::MIN, 400_000);
    assert_eq!(table.size, 3);
    assert_eq!(table.cells.len(), 9);
    assert_eq!(table.get(0, 1), counts(1, 3, 1_000_000, 2_500_000));
    assert_eq!(table.get(1, 0), counts(3, 1, 2_500_000, 1_000_000));
    assert_eq!(table.get(2, 2), counts(1, 1, 1_000_000, 1_000_000));
    assert_eq!(table.get(0, 0), MatchupCounts::zero());
    assert_eq!(table.get(0, 2), MatchupCounts::zero());
    assert_eq!(table.get(2, 1), MatchupCounts::zero());
    let high = tally_matchups(&history, 3, 500_000, 400_000);
    assert_eq!(high.get(1, 0), counts(1, 0, 500_000, 0));
    assert_eq!(high.get(0, 1), MatchupCounts::zero());
    assert_eq!(high.get(2, 2), counts(1, 1, 1_000_000, 1_000_000));
    let none = tally_matchups(&Vec::new(), 2, i64::MIN, 400_000);
    assert_eq!(none.cells, vec![MatchupCounts::zero(); 4]);
    assert_eq!(tally_matchups(&history, 0, i64::MIN, 400_000).cells.len(), 0);
    let full = tally_matchups(&history, 6, i64::MIN, 400_000);
    assert_eq!(full.get(5, 0), counts(1, 0, 1_000_000, 0));
    assert_eq!(full.get(0, 5), counts(0, 1, 0, 1_000_000));
    assert_eq!(MatchupCounts::zero().plus(true, 250_000).plus(false, 1_000_000), counts(1, 1, 250_000, 1_000_000));
}

#[test]
fn a_players_matchups_are_counted_per_opponent() {
    let history = history();
    let own = tally_player(&history, 1, 0, 3, 400_000);
    assert_eq!(own, vec![MatchupCounts::zero(), counts(1, 2, 1_000_000, 1_500_000), MatchupCounts::zero()]);
    let other = tally_player(&history, 2, 1, 3, 400_000);
    assert_eq!(other[0], counts(3, 1, 2_500_000, 1_000_000));
    let wide = tally_player(&history, 1, 0, 6, 400_000);
    assert_eq!(wide[5], counts(0, 1, 0, 1_000_000));
    assert_eq!(tally_player(&history, 1, 1, 3, 400_000), vec![MatchupCounts::zero(); 3]);
    let mirror = vec![snap((9, 0, 0, 300_000), (9, 0, 0, 300_000), Winner::A, 1)];
    assert_eq!(tally_player(&mirror, 9, 0, 1, 400_000), vec![counts(1, 1, 1_000_000, 1_000_000)]);
}

#[test]
fn characters_meet_across_all_players() {
    let history = history();
    assert_eq!(versus(&history, 0, 1, 400_000), VersusCounts { wins: 1, games: 3, pairs: 2 });
    assert_eq!(versus(&history, 1, 0, 400_000), VersusCounts { wins: 2, games: 3, pairs: 2 });
    assert_eq!(versus(&history, 0, 1, 900_000), VersusCounts { wins: 1, games: 4, pairs: 2 });
    assert_eq!(versus(&history, 0, 2, 400_000), VersusCounts { wins: 0, games: 0, pairs: 0 });
    assert_eq!(versus(&history, 0, 1, 300_000), VersusCounts { wins: 0, games: 0, pairs: 0 });
    assert_eq!(versus(&history, 5, 0, 400_000), VersusCounts { wins: 1, games: 1, pairs: 1 });
}

#[test]
fn ratings_fall_into_brackets() {
    let brackets = Brackets { base: 1000, width: 100, count: 20 };
    assert_eq!(brackets.bracket(&row(1, 0, 1_234_567, 300_000)), 7);
    assert_eq!(brackets.bracket(&row(1, 0, 0, 300_000)), 5);
    assert_eq!(brackets.bracket(&row(1, 0, -2_000_000, 300_000)), 1);
    assert_eq!(brackets.bracket(&row(1, 0, -5_000_000, 300_000)), 0);
    assert_eq!(brackets.bracket(&row(1, 0, 10_000_000, 300_000)), 19);
    assert_eq!(brackets.bracket(&row(1, 0, -2_878_231, 300_000)), 0);
    assert_eq!(brackets.bracket(&row(1, 0, -2_878_232, 300_000)), 0);
    assert_eq!(brackets.lower(0), 1000);
    assert_eq!(brackets.lower(7), 1700);
    assert_eq!(brackets.lower(20), 3000);
    let single = Brackets { base: -5, width: 1, count: 1 };
    assert_eq!(single.bracket(&row(1, 0, 0, 300_000)), 0);
}

#[test]
fn established_ratings_are_counted_per_bracket() {
    let brackets = Brackets { base: 1000, width: 100, count: 8 };
    let table = vec![
        row(1, 0, 1_234_567, 300_000),
        row(2, 0, 0, 300_000),
        row(3, 0, 0, 431_734),
        row(4, 0, 0, CUTOFF),
        row(5, 0, -5_000_000, 300_000),
        row(6, 0, 10_000_000, 300_000),
        row(7, 0, 1_300_000, 200_000),
    ];
    let rows = rating_distribution(&table, brackets, CUTOFF);
    let shape: Vec<(i64, i64, u64, u64)> =
        rows.iter().map(|r| (r.min_rating, r.max_rating, r.player_count, r.player_count_cum)).collect();
    assert_eq!(
        shape,
        vec![
            (1000, 1100, 1, 1),
            (1100, 1200, 0, 1),
            (1200, 1300, 0, 1),
            (1300, 1400, 0, 1),
            (1400, 1500, 0, 1),
            (1500, 1600, 2, 3),
            (1600, 1700, 0, 3),
            (1700, 1800, 3, 6),
        ]
    );
    let empty = rating_distribution(&Vec::new(), brackets, CUTOFF);
    assert_eq!(empty.len(), 8);
    assert_eq!(empty[7], RatingBracket { min_rating: 1700, max_rating: 1800, player_count: 0, player_count_cum: 0 });
}

#[test]
fn popularity_is_the_share_of_games() {
    let brackets = Brackets { base: 1000, width: 100, count: 8 };
    let table = vec![
        played(1, 0, 0, 30, 20),
        played(2, 1, 0, 10, 15),
        played(3, 0, 1_234_567, 5, 5),
        played(4, 2, 1_234_567, 0, 15),
        played(5, 7, 0, 100, 100),
        played(6, 1, -5_000_000, 0, 0),
    ];
    assert_eq!(
        character_shares(&table, brackets, 3, None),
        vec![Some(200_000), Some(83_333), Some(50_000)]
    );
    assert_eq!(
        character_shares(&table, brackets, 3, Some(5)),
        vec![Some(181_818), Some(90_909), Some(0)]
    );
    assert_eq!(
        character_shares(&table, brackets, 3, Some(7)),
        vec![Some(400_000), Some(0), Some(600_000)]
    );
    assert_eq!(character_shares(&table, brackets, 3, Some(0)), vec![None, None, None]);
    assert_eq!(character_shares(&table, brackets, 3, Some(3)), vec![None, None, None]);
    assert_eq!(character_shares(&Vec::new(), brackets, 2, None), vec![None, None]);
    assert_eq!(character_shares(&table, brackets, 0, None), Vec::new());
}

#[test]
fn floors_count_games_and_latest_players() {
    assert_eq!(slot_of(1), 1);
    assert_eq!(slot_of(10), 10);
    assert_eq!(slot_of(99), 0);
    assert_eq!(slot_of(0), 0);
    assert_eq!(slot_of(11), 0);
    assert_eq!(slot_of(-1), 0);
    let lines = floor_distribution(&history());
    assert_eq!(lines.len(), 11);
    let floors: Vec<i64> = lines.iter().map(|l| l.floor).collect();
    assert_eq!(floors, vec![1, 2, 3, 4, 5, 6, 7, 8, 9, 10, 99]);
    assert_eq!(lines[0], FloorCount { floor: 1, player_count: 2, game_count: 1 });
    assert_eq!(lines[2], FloorCount { floor: 3, player_count: 0, game_count: 2 });
    assert_eq!(lines[9], FloorCount { floor: 10, player_count: 2, game_count: 1 });
    assert_eq!(lines[10], FloorCount { floor: 99, player_count: 2, game_count: 2 });
    assert_eq!(lines[5], FloorCount { floor: 6, player_count: 0, game_count: 0 });
    let none = floor_distribution(&Vec::new());
    assert_eq!(none[10], FloorCount { floor: 99, player_count: 0, game_count: 0 });
}

fn fraud_table() -> Vec<PlayerRating> {
    vec![
        row(1, 0, 2_000_000, 300_000),
        row(1, 1, 1_000_000, 300_000),
        row(1, 2, 500_000, 900_000),
        row(2, 0, 0, 200_000),
        row(2, 1, -1_000_000, 200_000),
        row(2, 2, 3_000_000, 200_000),
        row(3, 0, 5_000_000, 200_000),
        row(4, 0, 1_000_001, 430_000),
        row(4, 2, 1_000_000, 431_734),
    ]
}

#[test]
fn offsets_compare_a_rating_with_the_players_others() {
    let table = fraud_table();
    let wanted = [
        Some(1_000_000),
        Some(-1_000_000),
        Some(-1_000_000),
        Some(-1_000_000),
        Some(-2_500_000),
        Some(3_500_000),
        None,
        Some(1),
        Some(-1),
    ];
    for (row, offset_wanted) in table.iter().zip(wanted.iter()) {
        assert_eq!(offset(&table, row, CUTOFF), *offset_wanted);
    }
    assert_eq!(offset(&table, &table[7], 431_734), None);
}

#[test]
fn the_anomaly_index_averages_the_offsets() {
    let table = fraud_table();
    let all = fraud_index(&table, 4, i64::MIN, CUTOFF);
    assert_eq!(
        all,
        vec![
            FraudEntry { char_id: 0, player_count: 3, average_delta: Some(0) },
            FraudEntry { char_id: 1, player_count: 2, average_delta: Some(-304_006_150) },
            FraudEntry { char_id: 2, player_count: 2, average_delta: Some(304_006_150) },
            FraudEntry { char_id: 3, player_count: 0, average_delta: None },
        ]
    );
    let higher = fraud_index(&table, 3, 1_000_001, CUTOFF);
    assert_eq!(
        higher,
        vec![
            FraudEntry { char_id: 0, player_count: 2, average_delta: Some(86_859_074) },
            FraudEntry { char_id: 1, player_count: 0, average_delta: None },
            FraudEntry { char_id: 2, player_count: 1, average_delta: Some(608_012_300) },
        ]
    );
    assert_eq!(
        fraud_entry(&table, 0, 2_000_001, CUTOFF),
        FraudEntry { char_id: 0, player_count: 0, average_delta: None }
    );
    assert_eq!(fraud_index(&Vec::new(), 1, i64::MIN, CUTOFF)[0].average_delta, None);
}
