use ratings::charts::{
    matchups_global_inner, matchups_high_rated_inner, matchups_versus, percent, verdict,
    Evaluation, Matchup, VersusMatchup,
};
use ratings::curves::{floor_rating_distribution, FloorRated};
use ratings::distribution::{Brackets, RatingBracket};
use ratings::experience::{rating_experience, rating_experience_player, share_of, RatingDiffStats};
use ratings::floors::FloorCount;
use ratings::glicko::Rating;
use ratings::graphs::{bucket_of_chance, outcomes, player_rating_accuracy, win_shares, Sample};
use ratings::matchups::{tally_matchups, MatchupCounts, VersusCounts};
use ratings::records::{Match, RatingSnapshot, Winner};
use ratings::site::{CharacterName, Roster};
use ratings::spread::{
    character_popularity, floor_name, per_mille, player_floors_distribution,
    player_ratings_distribution, show_share, RankCharacterPopularity, RatingPlayers,
};

const CUTOFF: i64 = 431_735;

fn roster() -> Roster {
    let names = [("SO", "Sol"), ("KY", "Ky"), ("MA", "May")];
    Roster {
        names: names
            .iter()
            .map(|(short, long)| CharacterName { short: short.to_string(), long: long.to_string() })
            .collect(),
    }
}

fn snap(a: (i64, i64, i64, i64), b: (i64, i64, i64, i64), winner: Winner) -> RatingSnapshot {
    RatingSnapshot {
        game: Match { timestamp: 0, id_a: a.0, char_a: a.1, id_b: b.0, char_b: b.1, winner, floor: 1 },
        rating_a: Rating::new(a.2, a.3).unwrap(),
        rating_b: Rating::new(b.2, b.3).unwrap(),
    }
}

fn met() -> Vec<RatingSnapshot> {
    vec![
        snap((1, 0, 0, 300_000), (2, 0, 1_000_000, 300_000), Winner::A),
        snap((1, 0, 0, 300_000), (3, 0, -3_000_000, 300_000), Winner::B),
        snap((2, 0, 1_000_000, 300_000), (1, 0, 0, 300_000), Winner::A),
        snap((4, 0, 2_500_000, 300_000), (1, 0, 0, 300_000), Winner::A),
        snap((1, 0, 0, 300_000), (5, 0, 0, 900_000), Winner::A),
        snap((1, 0, 72_000, 300_000), (1, 0, 0, 300_000), Winner::A),
    ]
}

fn bucket_shares(stats: &RatingDiffStats) -> Vec<(i64, i64)> {
    stats
        .difference_amounts
        .iter()
        .zip(stats.difference_counts.iter())
        .filter_map(|(amount, share)| match share {
            Some(part) if *part != 0 => Some((*amount, *part)),
            _ => None,
        })
        .collect()
}

#[test]
fn shares_are_rounded_parts() {
    assert_eq!(share_of(1, 3, 1), Some(333_333));
    assert_eq!(share_of(2, 3, 1), Some(666_666));
    assert_eq!(share_of(1, 6, 100), Some(16_666_666));
    assert_eq!(share_of(0, 5, 1), Some(0));
    assert_eq!(share_of(5, 5, 1000), Some(1_000_000_000));
    assert_eq!(share_of(0, 0, 1), None);
    assert_eq!(share_of(u64::MAX, u64::MAX, 1), Some(1_000_000));
    assert_eq!(share_of(2, 4_000_000, 1), Some(0));
    assert_eq!(share_of(3_999_998, 4_000_000, 1), Some(999_999));
    assert_eq!(share_of(1, 512, 100), Some(195_312));
    assert_eq!(share_of(511, 512, 100), Some(99_804_687));
}

#[test]
fn shares_never_add_up_to_more_than_the_whole() {
    let mut rows = Vec::new();
    for k in 0..512i64 {
        let opponent = if k == 0 { 1_000_000 } else { -1_000_000 };
        rows.push(snap((1, 0, 0, 300_000), (2, 0, opponent, 300_000), Winner::A));
    }
    let stats = rating_experience_player(&rows, 1, CUTOFF);
    let sum: i64 = stats.difference_counts.iter().map(|share| share.unwrap()).sum();
    assert_eq!(sum, 99_999_999);
    assert_eq!(stats.over_100, Some(1_953));
    assert_eq!(stats.below_100, Some(998_046));
    assert!(stats.over_100.unwrap() + stats.below_100.unwrap() <= 1_000_000);
    let stats = rating_experience_player(&met(), 1, CUTOFF);
    let sum: i64 = stats.difference_counts.iter().map(|share| share.unwrap()).sum();
    assert!(sum <= 100_000_000);
    assert_eq!(sum, 99_999_997);
}

#[test]
fn a_players_opponents_are_compared_by_rating() {
    let stats = rating_experience_player(&met(), 1, CUTOFF);
    assert_eq!(stats.over_100, Some(500_000));
    assert_eq!(stats.over_200, Some(166_666));
    assert_eq!(stats.over_300, Some(166_666));
    assert_eq!(stats.over_400, Some(166_666));
    assert_eq!(stats.below_100, Some(166_666));
    assert_eq!(stats.below_200, Some(166_666));
    assert_eq!(stats.below_300, Some(166_666));
    assert_eq!(stats.below_400, Some(166_666));
    assert_eq!(stats.difference_amounts.len(), 61);
    assert_eq!(stats.difference_counts.len(), 61);
    assert_eq!(stats.difference_amounts[0], -750);
    assert_eq!(stats.difference_amounts[30], 0);
    assert_eq!(stats.difference_amounts[60], 750);
    assert_eq!(
        bucket_shares(&stats),
        vec![(-525, 16_666_666), (-25, 16_666_666), (25, 16_666_666), (175, 33_333_333), (425, 16_666_666)]
    );
    assert_eq!(stats.difference_counts[30], Some(0));
    let other = rating_experience_player(&met(), 2, CUTOFF);
    assert_eq!(other.below_100, Some(1_000_000));
    assert_eq!(other.below_200, Some(0));
    assert_eq!(other.over_100, Some(0));
    assert_eq!(bucket_shares(&other), vec![(-175, 100_000_000)]);
}

#[test]
fn without_games_every_share_is_missing() {
    let stats = rating_experience_player(&met(), 9, CUTOFF);
    assert_eq!(stats.over_100, None);
    assert_eq!(stats.over_400, None);
    assert_eq!(stats.below_100, None);
    assert_eq!(stats.below_400, None);
    assert_eq!(stats.difference_counts, vec![None; 61]);
    assert_eq!(stats.difference_amounts.len(), 61);
    let unsure = rating_experience_player(&met(), 5, CUTOFF);
    assert_eq!(unsure.over_100, None);
    let empty = rating_experience(&Vec::new(), 0, 5000, CUTOFF);
    assert_eq!(empty.below_300, None);
    let tight = rating_experience(&met(), 1500, 1500, CUTOFF);
    assert_eq!(tight.over_100, None);
}

#[test]
fn a_band_of_ratings_is_compared_with_its_opponents() {
    let stats = rating_experience(&met(), 1400, 1600, CUTOFF);
    assert_eq!(stats.over_100, Some(500_000));
    assert_eq!(stats.below_400, Some(166_666));
    assert_eq!(
        bucket_shares(&stats),
        vec![(-525, 16_666_666), (-25, 16_666_666), (25, 16_666_666), (175, 33_333_333), (425, 16_666_666)]
    );
    let edge = rating_experience(&met(), 1500, 1600, CUTOFF);
    assert_eq!(edge.over_100, Some(0));
    assert_eq!(edge.below_100, Some(0));
    assert_eq!(bucket_shares(&edge), vec![(-25, 100_000_000)]);
    let all = rating_experience(&met(), 0, 5000, CUTOFF);
    assert_eq!(all.over_100, Some(400_000));
    assert_eq!(all.over_200, Some(200_000));
    assert_eq!(all.below_100, Some(400_000));
    assert_eq!(all.below_400, Some(200_000));
    assert_eq!(
        bucket_shares(&all),
        vec![
            (-525, 10_000_000),
            (-425, 10_000_000),
            (-175, 20_000_000),
            (-25, 10_000_000),
            (25, 10_000_000),
            (175, 20_000_000),
            (425, 10_000_000),
            (525, 10_000_000),
        ]
    );
    let extreme = rating_experience(&met(), i64::MIN, i64::MAX, CUTOFF);
    assert_eq!(extreme.over_100, Some(400_000));
}

#[test]
fn differences_beyond_the_chart_count_only_in_the_totals() {
    let far = vec![snap((1, 0, 0, 300_000), (2, 0, 9_000_000, 300_000), Winner::A)];
    let stats = rating_experience_player(&far, 1, CUTOFF);
    assert_eq!(stats.over_400, Some(1_000_000));
    assert_eq!(bucket_shares(&stats), Vec::new());
    assert_eq!(stats.difference_counts[60], Some(0));
}

fn rated(floor: i64, value: i64, deviation: i64) -> FloorRated {
    FloorRated { floor, rating: Rating::new(value, deviation).unwrap() }
}

#[test]
fn floors_have_curves_of_ratings() {
    let rows = vec![
        rated(3, 0, 300_000),
        rated(3, 1_234_567, 300_000),
        rated(3, 1_300_000, 300_000),
        rated(99, 0, 300_000),
        rated(10, -2_000_000, 300_000),
        rated(0, 0, 300_000),
        rated(5, 0, 900_000),
    ];
    let (chart, low, high) = floor_rating_distribution(&rows, CUTOFF).unwrap();
    assert_eq!((low, high), (23, 35));
    assert_eq!(chart.ratings, (23..=35).map(|b| b * 50).collect::<Vec<i64>>());
    assert_eq!(chart.overall, vec![1, 0, 0, 0, 0, 0, 0, 3, 0, 0, 0, 1, 1]);
    assert_eq!(chart.floors.len(), 3);
    assert_eq!(chart.floors[0].floor, 3);
    assert_eq!(chart.floors[0].counts, vec![0, 0, 0, 0, 0, 0, 0, 1, 0, 0, 0, 1, 1]);
    assert_eq!(chart.floors[1].floor, 10);
    assert_eq!(chart.floors[1].counts, vec![1, 0, 0, 0, 0, 0, 0, 0, 0, 0, 0, 0, 0]);
    assert_eq!(chart.floors[2].floor, 99);
    assert_eq!(chart.floors[2].counts, vec![0, 0, 0, 0, 0, 0, 0, 2, 0, 0, 0, 0, 0]);
    assert_eq!(chart.overall.iter().sum::<i64>(), 6);
    for bucket in 0..chart.overall.len() {
        let on_floors: i64 = chart.floors.iter().map(|floor| floor.counts[bucket]).sum();
        assert_eq!(on_floors, chart.overall[bucket]);
    }
}

#[test]
fn without_established_players_there_is_no_curve() {
    assert!(floor_rating_distribution(&Vec::new(), CUTOFF).is_none());
    assert!(floor_rating_distribution(&vec![rated(5, 0, 900_000)], CUTOFF).is_none());
    let (chart, low, high) = floor_rating_distribution(&vec![rated(5, 0, 300_000)], CUTOFF).unwrap();
    assert_eq!((low, high), (30, 30));
    assert_eq!(chart.ratings, vec![1500]);
    assert_eq!(chart.overall, vec![1]);
    assert_eq!(chart.floors.len(), 1);
    assert_eq!(chart.floors[0].floor, 5);
    assert_eq!(chart.floors[0].counts, vec![1]);
    let same = vec![rated(2, 10, 300_000), rated(2, 20, 300_000), rated(7, 30, 300_000)];
    let (chart, low, high) = floor_rating_distribution(&same, CUTOFF).unwrap();
    assert_eq!((low, high), (30, 30));
    assert_eq!(chart.overall, vec![3]);
    assert_eq!(chart.floors[0].counts, vec![2]);
    assert_eq!(chart.floors[1].counts, vec![1]);
}

#[test]
fn chances_fall_into_steps() {
    let a = Rating::new(1_234_567, 400_000).unwrap();
    let b = Rating::new(800_000, 500_000).unwrap();
    assert_eq!(bucket_of_chance(a, b, 100), 60);
    assert_eq!(bucket_of_chance(b, a, 100), 40);
    assert_eq!(bucket_of_chance(a, b, 10), 6);
    assert_eq!(bucket_of_chance(b, a, 10), 4);
    assert_eq!(bucket_of_chance(a, a, 10), 5);
    assert_eq!(bucket_of_chance(a, a, 1), 1);
    assert_eq!(bucket_of_chance(a, b, 0), 0);
    assert_eq!(bucket_of_chance(a, b, 1000), 601);
    let samples = vec![
        Sample { bucket: 2, won: true },
        Sample { bucket: 2, won: false },
        Sample { bucket: 2, won: false },
        Sample { bucket: 0, won: true },
    ];
    assert_eq!(win_shares(&samples, 3), vec![Some(1_000_000), None, Some(333_333), None]);
    assert_eq!(win_shares(&Vec::new(), 0), vec![None]);
}

#[test]
fn outcomes_are_set_against_predictions() {
    let history = vec![
        snap((1, 0, 1_234_567, 400_000), (2, 0, 800_000, 500_000), Winner::A),
        snap((1, 0, 1_234_567, 400_000), (2, 0, 800_000, 500_000), Winner::B),
        snap((1, 0, 1_234_567, 400_000), (2, 0, 800_000, 500_000), Winner::A),
        snap((2, 0, 800_000, 500_000), (1, 0, 1_234_567, 400_000), Winner::B),
        snap((3, 0, 0, 300_000), (4, 0, 0, 2_000_000), Winner::A),
    ];
    let chart = outcomes(&history);
    assert_eq!(chart.predicted, (0..=100).collect::<Vec<i64>>());
    assert_eq!(chart.ideal, (0..=100).map(|i| i * 10_000).collect::<Vec<i64>>());
    assert_eq!(chart.observed.len(), 101);
    assert_eq!(chart.observed[60], Some(666_666));
    assert_eq!(chart.observed[40], Some(0));
    assert_eq!(chart.observed[50], Some(1_000_000));
    assert_eq!(chart.observed.iter().filter(|share| share.is_some()).count(), 3);
    let none = outcomes(&Vec::new());
    assert_eq!(none.observed, vec![None; 101]);
}

#[test]
fn a_players_accuracy_counts_both_sides_alike() {
    let history = vec![
        snap((1, 0, 1_234_567, 400_000), (2, 0, 800_000, 400_000), Winner::A),
        snap((1, 0, 1_234_567, 400_000), (2, 0, 800_000, 400_000), Winner::B),
        snap((2, 0, 800_000, 400_000), (1, 0, 1_234_567, 400_000), Winner::B),
        snap((2, 0, 800_000, 400_000), (1, 1, 1_234_567, 400_000), Winner::B),
        snap((1, 0, 1_234_567, 400_000), (2, 0, 800_000, 500_000), Winner::A),
        snap((2, 0, 800_000, 500_000), (1, 0, 1_234_567, 400_000), Winner::A),
        snap((1, 0, 0, 400_000), (3, 0, 0, 400_000), Winner::B),
    ];
    let shares = player_rating_accuracy(&history, 1, 0, CUTOFF);
    assert_eq!(shares.len(), 11);
    assert_eq!(shares[6], Some(666_666));
    assert_eq!(shares[5], Some(0));
    assert_eq!(shares.iter().filter(|share| share.is_some()).count(), 2);
    let other = player_rating_accuracy(&history, 2, 0, CUTOFF);
    assert_eq!(other[4], Some(250_000));
    assert_eq!(player_rating_accuracy(&history, 9, 0, CUTOFF), vec![None; 11]);
    let wide = player_rating_accuracy(&history, 1, 0, 500_001);
    assert_eq!(wide[6], Some(600_000));
}

#[test]
fn percentages_round_to_whole_numbers() {
    assert_eq!(percent(1, 3), Some(33));
    assert_eq!(percent(2, 3), Some(67));
    assert_eq!(percent(1, 200), Some(1));
    assert_eq!(percent(1, 201), Some(0));
    assert_eq!(percent(0, 0), None);
    assert_eq!(percent(u64::MAX, u64::MAX), Some(100));
    assert_eq!(per_mille(1, 3), Some(333));
    assert_eq!(per_mille(2, 3), Some(667));
    assert_eq!(per_mille(7, 0), None);
    assert_eq!(per_mille(5, 2), Some(2500));
    assert_eq!(verdict(3, 2), Evaluation::Good);
    assert_eq!(verdict(0, 0), Evaluation::Unrated);
}

#[test]
fn charts_show_every_pairing() {
    let history = vec![
        snap((1, 0, 0, 300_000), (2, 1, 0, 300_000), Winner::A),
        snap((1, 0, 0, 300_000), (2, 1, 0, 300_000), Winner::A),
        snap((1, 0, 0, 300_000), (2, 1, 0, 300_000), Winner::B),
        snap((3, 2, 0, 300_000), (4, 2, 0, 300_000), Winner::B),
    ];
    let table = tally_matchups(&history, 3, i64::MIN, CUTOFF);
    let chart = matchups_global_inner(&table, &roster(), 3);
    assert_eq!(chart.len(), 3);
    assert_eq!(chart[0].name, "Sol");
    assert_eq!(chart[2].name, "May");
    assert_eq!(chart[0].matchups.len(), 3);
    assert_eq!(
        chart[0].matchups[1],
        Matchup {
            win_rate_real: Some(67),
            win_rate_adjusted: Some(67),
            game_count: 3,
            suspicious: false,
            evaluation: Evaluation::VeryGood,
        }
    );
    assert_eq!(chart[1].matchups[0].win_rate_real, Some(33));
    assert_eq!(chart[1].matchups[0].evaluation, Evaluation::VeryBad);
    assert_eq!(
        chart[2].matchups[2],
        Matchup {
            win_rate_real: Some(50),
            win_rate_adjusted: Some(50),
            game_count: 2,
            suspicious: true,
            evaluation: Evaluation::Unrated,
        }
    );
    assert_eq!(chart[0].matchups[0], Matchup::new(&MatchupCounts::zero(), 3));
    let strict = matchups_high_rated_inner(&table, &roster(), 4);
    assert!(strict[0].matchups[1].suspicious);
    assert_eq!(strict[0].matchups[1].evaluation, Evaluation::Unrated);
    assert_eq!(strict[0].matchups[1].win_rate_real, Some(67));
}

#[test]
fn the_versus_chart_is_even_on_its_diagonal() {
    let cell = |wins, games, pairs| VersusCounts { wins, games, pairs };
    let cells = vec![
        cell(9, 9, 9),
        cell(200, 300, 60),
        cell(0, 0, 0),
        cell(100, 300, 60),
        cell(1, 1, 1),
        cell(5, 10, 2),
        cell(0, 0, 0),
        cell(5, 10, 2),
        cell(0, 0, 0),
    ];
    let chart = matchups_versus(&cells, &roster(), 250, 50);
    assert_eq!(chart.len(), 3);
    assert_eq!(chart[1].name, "Ky");
    for c in 0..3 {
        assert_eq!(
            chart[c].matchups[c],
            VersusMatchup {
                win_rate: Some(50),
                game_count: 0,
                pair_count: 0,
                suspicious: false,
                evaluation: Evaluation::Even,
            }
        );
    }
    assert_eq!(
        chart[0].matchups[1],
        VersusMatchup {
            win_rate: Some(67),
            game_count: 300,
            pair_count: 60,
            suspicious: false,
            evaluation: Evaluation::VeryGood,
        }
    );
    assert_eq!(chart[1].matchups[0].win_rate, Some(33));
    assert_eq!(chart[1].matchups[0].evaluation, Evaluation::VeryBad);
    assert_eq!(chart[0].matchups[2].win_rate, None);
    assert!(chart[0].matchups[2].suspicious);
    assert_eq!(chart[0].matchups[2].evaluation, Evaluation::Unrated);
    assert!(chart[1].matchups[2].suspicious);
    assert_eq!(chart[1].matchups[2].evaluation, Evaluation::Even);
}

#[test]
fn floors_are_shown_with_their_shares() {
    assert_eq!(floor_name(99), "Celestial");
    assert_eq!(floor_name(1), "Floor 1");
    assert_eq!(floor_name(10), "Floor 10");
    assert_eq!(floor_name(0), "Floor 0");
    assert_eq!(floor_name(-3), "Floor -3");
    let lines = vec![
        FloorCount { floor: 1, player_count: 1, game_count: 0 },
        FloorCount { floor: 2, player_count: 2, game_count: 0 },
        FloorCount { floor: 99, player_count: 3, game_count: 0 },
    ];
    let shown = player_floors_distribution(&lines);
    assert_eq!(shown.len(), 3);
    assert_eq!(shown[0].floor, "Floor 1");
    assert_eq!(shown[2].floor, "Celestial");
    assert_eq!(
        shown.iter().map(|l| (l.player_count, l.player_percentage)).collect::<Vec<_>>(),
        vec![(1, Some(167)), (2, Some(333)), (3, Some(500))]
    );
    assert_eq!(shown.iter().map(|l| l.game_percentage).collect::<Vec<_>>(), vec![None, None, None]);
    assert!(player_floors_distribution(&Vec::new()).is_empty());
}

#[test]
fn brackets_are_shown_with_their_shares() {
    let bracket = |min_rating, player_count, player_count_cum| RatingBracket {
        min_rating,
        max_rating: min_rating + 100,
        player_count,
        player_count_cum,
    };
    let rows = vec![bracket(1000, 1, 1), bracket(1100, 0, 1), bracket(1200, 5, 6)];
    let shown = player_ratings_distribution(&rows);
    assert_eq!(
        shown,
        vec![
            RatingPlayers {
                min_rating: 1000,
                max_rating: 1100,
                player_count: 1,
                player_percentage: Some(167),
                player_count_cum: 1,
                player_percentage_cum: Some(167),
            },
            RatingPlayers {
                min_rating: 1100,
                max_rating: 1200,
                player_count: 0,
                player_percentage: Some(0),
                player_count_cum: 1,
                player_percentage_cum: Some(167),
            },
            RatingPlayers {
                min_rating: 1200,
                max_rating: 1300,
                player_count: 5,
                player_percentage: Some(833),
                player_count_cum: 6,
                player_percentage_cum: Some(1000),
            },
        ]
    );
    let none = player_ratings_distribution(&vec![bracket(1000, 0, 0)]);
    assert_eq!(none[0].player_percentage, None);
    assert_eq!(none[0].player_percentage_cum, None);
}

#[test]
fn popularity_is_set_against_the_overall_figure() {
    assert_eq!(show_share(Some(123_456)), Some(123));
    assert_eq!(show_share(Some(123_500)), Some(124));
    assert_eq!(show_share(Some(1_000_000)), Some(1000));
    assert_eq!(show_share(None), None);
    let line = |popularity, delta, evaluation| RankCharacterPopularity { popularity, delta, evaluation };
    assert_eq!(RankCharacterPopularity::new(Some(300), Some(200)), line(Some(300), Some(500), Evaluation::Good));
    assert_eq!(RankCharacterPopularity::new(Some(301), Some(200)), line(Some(301), Some(505), Evaluation::VeryGood));
    assert_eq!(RankCharacterPopularity::new(Some(230), Some(200)), line(Some(230), Some(150), Evaluation::Even));
    assert_eq!(RankCharacterPopularity::new(Some(231), Some(200)), line(Some(231), Some(155), Evaluation::Good));
    assert_eq!(RankCharacterPopularity::new(Some(170), Some(200)), line(Some(170), Some(-150), Evaluation::Bad));
    assert_eq!(RankCharacterPopularity::new(Some(171), Some(200)), line(Some(171), Some(-145), Evaluation::Even));
    assert_eq!(RankCharacterPopularity::new(Some(100), Some(200)), line(Some(100), Some(-500), Evaluation::VeryBad));
    assert_eq!(RankCharacterPopularity::new(Some(101), Some(200)), line(Some(101), Some(-495), Evaluation::Bad));
    assert_eq!(RankCharacterPopularity::new(Some(0), Some(200)), line(Some(0), Some(-1000), Evaluation::VeryBad));
    assert_eq!(RankCharacterPopularity::new(Some(5), Some(0)), line(Some(5), None, Evaluation::Unrated));
    assert_eq!(RankCharacterPopularity::new(Some(0), Some(0)), line(Some(0), None, Evaluation::Unrated));
    assert_eq!(RankCharacterPopularity::new(None, Some(200)), line(None, None, Evaluation::Unrated));
    assert_eq!(RankCharacterPopularity::new(Some(5), None), line(Some(5), None, Evaluation::Unrated));
    assert_eq!(RankCharacterPopularity::new(None, None), line(None, None, Evaluation::Unrated));
}

#[test]
fn the_popularity_chart_names_its_brackets() {
    let brackets = Brackets { base: 1000, width: 100, count: 3 };
    let overall = vec![Some(600_000), Some(400_000)];
    let by_rating = vec![
        vec![Some(600_400), Some(399_600)],
        vec![None, None],
        vec![Some(1_000_000), Some(0)],
    ];
    let chart = character_popularity(&overall, &by_rating, brackets);
    assert_eq!(chart.overall, vec![Some(600), Some(400)]);
    assert_eq!(chart.by_rating.len(), 3);
    let ends: Vec<(i64, i64)> = chart.by_rating.iter().map(|r| (r.rating_min, r.rating_max)).collect();
    assert_eq!(ends, vec![(0, 1100), (1100, 1200), (1200, 3000)]);
    assert_eq!(
        chart.by_rating[0].characters,
        vec![
            RankCharacterPopularity { popularity: Some(600), delta: Some(0), evaluation: Evaluation::Even },
            RankCharacterPopularity { popularity: Some(400), delta: Some(0), evaluation: Evaluation::Even },
        ]
    );
    assert_eq!(chart.by_rating[1].characters[0], RankCharacterPopularity::new(None, Some(600)));
    assert_eq!(
        chart.by_rating[2].characters,
        vec![
            RankCharacterPopularity { popularity: Some(1000), delta: Some(667), evaluation: Evaluation::VeryGood },
            RankCharacterPopularity { popularity: Some(0), delta: Some(-1000), evaluation: Evaluation::VeryBad },
        ]
    );
    let single = character_popularity(&Vec::new(), &vec![Vec::new()], Brackets { base: 0, width: 50, count: 1 });
    assert_eq!((single.by_rating[0].rating_min, single.by_rating[0].rating_max), (0, 3000));
}
