use ratings::glicko::{Outcome, Rating};
use ratings::history::{
    add_to_grouped_sets, get_player_char_history, seen_result, HistoryRow, PlayerSet, RawPlayerSet,
};
use ratings::matchups::MatchupCounts;
use ratings::profile::{
    get_player_character_data, get_player_data_char, player_rating, rank_on, shown_matchups,
    PlayerRecord,
};
use ratings::records::{PlayerRating, TopDefeated, TopRating};
use ratings::site::{CharacterName, Roster};

fn roster() -> Roster {
    let names = [("SO", "Sol"), ("KY", "Ky"), ("MA", "May"), ("AX", "Axl")];
    Roster {
        names: names
            .iter()
            .map(|(short, long)| CharacterName { short: short.to_string(), long: long.to_string() })
            .collect(),
    }
}

fn rating(value: i64, deviation: i64) -> Rating {
    Rating::new(value, deviation).unwrap()
}

fn game(timestamp: i64, opponent_id: i64, opponent_char: i64, opponent: Rating, won: bool) -> HistoryRow {
    HistoryRow {
        timestamp,
        own: rating(1_234_567, 400_000),
        floor: 7,
        opponent_name: format!("opp{}", opponent_id),
        opponent_id,
        opponent_char,
        opponent,
        won,
        opponent_vip: opponent_id == 255,
        opponent_cheater: opponent_id == 7,
    }
}

#[test]
fn outcome_codes_are_read_from_the_players_side() {
    assert_eq!(seen_result(1), Some(true));
    assert_eq!(seen_result(4), Some(true));
    assert_eq!(seen_result(2), Some(false));
    assert_eq!(seen_result(3), Some(false));
    assert_eq!(seen_result(0), None);
    assert_eq!(seen_result(5), None);
    assert_eq!(seen_result(-1), None);
}

#[test]
fn matches_against_one_opponent_form_a_set() {
    let opp = rating(800_000, 500_000);
    let mut sets: Vec<RawPlayerSet> = Vec::new();
    add_to_grouped_sets(&mut sets, &game(300, 255, 1, opp, true));
    assert_eq!(sets.len(), 1);
    assert_eq!(sets[0].rating_change_sequence, vec![59_473]);
    assert_eq!((sets[0].result_wins, sets[0].result_losses), (1, 0));
    let mut second = game(200, 255, 1, rating(900_000, 450_000), false);
    second.own = rating(1_000_000, 410_000);
    second.floor = 8;
    second.opponent_name = "renamed".into();
    second.opponent_vip = false;
    add_to_grouped_sets(&mut sets, &second);
    assert_eq!(sets.len(), 1);
    let set = &sets[0];
    assert_eq!(set.timestamp, 200);
    assert_eq!(set.own, rating(1_000_000, 410_000));
    assert_eq!(set.opponent, rating(900_000, 450_000));
    assert_eq!(set.floor, 7);
    assert_eq!(set.opponent_name, "opp255");
    assert!(set.opponent_vip);
    assert_eq!((set.result_wins, set.result_losses), (1, 1));
    assert_eq!(set.rating_change_sequence.len(), 2);
    assert_eq!(
        set.rating_change_sequence[1],
        rating(1_000_000, 410_000).rating_change(rating(900_000, 450_000), Outcome::Loss)
    );
    add_to_grouped_sets(&mut sets, &game(100, 255, 2, opp, true));
    add_to_grouped_sets(&mut sets, &game(90, 7, 2, opp, false));
    add_to_grouped_sets(&mut sets, &game(80, 255, 1, opp, false));
    assert_eq!(sets.len(), 4);
    assert_eq!(sets[1].opponent_char, 2);
    assert_eq!(sets[2].opponent_id, 7);
    assert_eq!((sets[2].result_wins, sets[2].result_losses), (0, 1));
    assert_eq!(sets[3].rating_change_sequence, vec![-89_596]);
}

#[test]
fn a_set_is_shaped_for_display() {
    let opp = rating(800_000, 500_000);
    let mut sets: Vec<RawPlayerSet> = Vec::new();
    add_to_grouped_sets(&mut sets, &game(1_700_000_500, 255, 1, opp, true));
    add_to_grouped_sets(&mut sets, &game(1_700_000_200, 255, 1, opp, false));
    add_to_grouped_sets(&mut sets, &game(1_700_000_000, 255, 1, opp, false));
    let shown: PlayerSet = sets.pop().unwrap().to_formated_set(&roster());
    assert_eq!(shown.timestamp, "2023-11-14 22:13");
    assert_eq!(shown.own_rating_value, 1714);
    assert_eq!(shown.own_rating_deviation, 139);
    assert_eq!(shown.floor, "F7");
    assert_eq!(shown.opponent_name, "opp255");
    assert_eq!(shown.opponent_vip, Some("VIP"));
    assert_eq!(shown.opponent_cheater, None);
    assert_eq!(shown.opponent_id, "FF");
    assert_eq!(shown.opponent_character, "Ky");
    assert_eq!(shown.opponent_character_short, "KY");
    assert_eq!(shown.opponent_rating_value, 1639);
    assert_eq!(shown.opponent_rating_deviation, 174);
    assert_eq!(shown.expected_outcome, "60% ?");
    assert_eq!(shown.rating_change, "-20.8");
    assert_eq!(shown.rating_change_class, "has-text-danger");
    assert_eq!(shown.rating_change_sequence, "-15.6 -15.6 +10.3 ");
    assert_eq!((shown.result_wins, shown.result_losses), (1, 2));
    assert_eq!(shown.result_percent, Some(33));
}

fn single(own: Rating, opponent: Rating, won: bool, opponent_id: i64) -> PlayerSet {
    let mut row = game(0, opponent_id, 3, opponent, won);
    row.own = own;
    row.floor = 99;
    let mut sets = Vec::new();
    add_to_grouped_sets(&mut sets, &row);
    sets.pop().unwrap().to_formated_set(&roster())
}

#[test]
fn uncertain_expectations_carry_marks() {
    let own = rating(1_234_567, 400_000);
    assert_eq!(single(own, rating(800_000, 500_000), true, 1).expected_outcome, "60% ?");
    assert_eq!(single(own, rating(2_000_000, 900_000), true, 1).expected_outcome, "34% ??");
    assert_eq!(single(own, rating(0, 2_014_732), true, 1).expected_outcome, "69% ????");
    let sure = rating(0, 150_000);
    assert_eq!(single(sure, sure, true, 1).expected_outcome, "50%");
    assert_eq!(single(sure, rating(0, 378_397), true, 1).expected_outcome, "50%");
    assert_eq!(single(sure, rating(0, 378_398), true, 1).expected_outcome, "50% ?");
    let far = rating(1_000_000_000, 150_000);
    assert_eq!(single(far, sure, true, 1).expected_outcome, "100%");
    assert_eq!(single(sure, far, true, 1).expected_outcome, "0%");
}

#[test]
fn changes_are_classed_by_their_mean() {
    let own = rating(1_234_567, 400_000);
    let won = single(own, rating(800_000, 500_000), true, 7);
    assert_eq!(won.rating_change, "+10.3");
    assert_eq!(won.rating_change_class, "has-text-success");
    assert_eq!(won.rating_change_sequence, "+10.3 ");
    assert_eq!(won.result_percent, Some(100));
    assert_eq!(won.floor, "C");
    assert_eq!(won.opponent_cheater, Some("Cheater"));
    assert_eq!(won.opponent_vip, None);
    assert_eq!(won.opponent_character, "Axl");
    assert_eq!(won.timestamp, "1970-01-01 00:00");
    let lost = single(own, rating(800_000, 500_000), false, 1);
    assert_eq!(lost.rating_change, "-15.6");
    assert_eq!(lost.rating_change_class, "has-text-danger");
    assert_eq!(lost.result_percent, Some(0));
    let sure = rating(0, 150_000);
    let strong = rating(3_000_000, 150_000);
    let small_loss = single(sure, strong, false, 1);
    assert_eq!(small_loss.rating_change, "-0.2");
    assert_eq!(small_loss.rating_change_class, "has-text-warning");
    let small_win = single(strong, sure, true, 1);
    assert_eq!(small_win.rating_change, "+0.2");
    assert_eq!(small_win.rating_change_class, "has-text-warning");
    let upset = single(sure, strong, true, 1);
    assert_eq!(upset.rating_change, "+4.3");
    assert_eq!(upset.rating_change_class, "has-text-success");
}

#[test]
fn a_history_is_grouped_or_empty() {
    let opp = rating(800_000, 500_000);
    let rows = vec![
        game(1_700_000_500, 255, 1, opp, true),
        game(1_700_000_200, 255, 1, opp, false),
        game(1_700_000_000, 7, 1, opp, false),
        game(1_600_000_000, 255, 1, opp, true),
    ];
    let grouped = get_player_char_history(&roster(), &rows, true);
    assert_eq!(grouped.history.len(), 3);
    assert_eq!(grouped.history[0].opponent_id, "FF");
    assert_eq!((grouped.history[0].result_wins, grouped.history[0].result_losses), (1, 1));
    assert_eq!(grouped.history[0].rating_change_sequence, "-15.6 +10.3 ");
    assert_eq!(grouped.history[0].rating_change, "-5.2");
    assert_eq!(grouped.history[0].rating_change_class, "has-text-danger");
    assert_eq!(grouped.history[0].result_percent, Some(50));
    assert_eq!(grouped.history[1].opponent_id, "7");
    assert_eq!(grouped.history[1].opponent_cheater, Some("Cheater"));
    assert_eq!(grouped.history[2].opponent_id, "FF");
    assert_eq!(grouped.history[2].timestamp, "2020-09-13 12:26");
    assert!(get_player_char_history(&roster(), &rows, false).history.is_empty());
    assert!(get_player_char_history(&roster(), &Vec::new(), true).history.is_empty());
}

fn counts(wins_real: u64, losses_real: u64, wins_adjusted: i64, losses_adjusted: i64) -> MatchupCounts {
    MatchupCounts { wins_real, losses_real, wins_adjusted, losses_adjusted }
}

#[test]
fn matchups_are_shown_best_first() {
    let matchups = vec![
        counts(5, 5, 5_000_000, 5_000_000),
        counts(0, 0, 0, 0),
        counts(9, 1, 4_500_000, 500_000),
        counts(6, 4, 5_000_000, 5_000_000),
    ];
    let lines = shown_matchups(&roster(), &matchups);
    let shape: Vec<(&str, u64, Option<i64>, Option<i64>)> = lines
        .iter()
        .map(|l| (l.character.as_str(), l.game_count, l.win_rate_real, l.win_rate_adjusted))
        .collect();
    assert_eq!(
        shape,
        vec![
            ("May", 10, Some(90), Some(90)),
            ("Axl", 10, Some(60), Some(50)),
            ("Sol", 10, Some(50), Some(50)),
        ]
    );
    assert!(shown_matchups(&roster(), &Vec::new()).is_empty());
    let weightless = vec![counts(1, 0, 0, 0), counts(0, 3, 0, 1)];
    let lines = shown_matchups(&roster(), &weightless);
    assert_eq!(lines[0].character, "Sol");
    assert_eq!(lines[0].win_rate_adjusted, None);
    assert_eq!(lines[1].character, "Ky");
    assert_eq!(lines[1].win_rate_adjusted, Some(0));
}

fn row(id: i64, char_id: i64, value: i64, deviation: i64) -> PlayerRating {
    PlayerRating {
        id,
        char_id,
        rating: rating(value, deviation),
        wins: 2,
        losses: 1,
        last_decay_period: 0,
        top_rating: None,
        top_defeated: None,
    }
}

#[test]
fn a_characters_page_shows_rating_and_watermarks() {
    let mut own = row(4096, 2, 1_234_567, 400_000);
    own.top_rating = Some(TopRating { value: 1_741_945, deviation: 1_470_553, timestamp: 951_782_400 });
    own.top_defeated = Some(TopDefeated {
        opponent_id: 255,
        opponent_char: 1,
        opponent_rating: -843_736,
        opponent_deviation: 1_772_667,
        floor: 10,
        timestamp: 1_700_000_000,
    });
    let matchups = vec![counts(1, 0, 1_000_000, 0), counts(1, 1, 500_000, 250_000)];
    let data = get_player_character_data(&roster(), &own, Some(12), None, Some("beaten".into()), &matchups);
    assert_eq!(data.character_name, "May");
    assert_eq!((data.rating_value, data.rating_deviation), (1714, 139));
    assert_eq!((data.global_rank, data.character_rank), (Some(12), None));
    assert_eq!(data.top_rating_value, Some(1803));
    assert_eq!(data.top_rating_deviation, Some(511));
    assert_eq!(data.top_rating_timestamp.as_deref(), Some("2000-02-29"));
    assert_eq!(data.top_defeated_id.as_deref(), Some("FF"));
    assert_eq!(data.top_defeated_char_id.as_deref(), Some("KY"));
    assert_eq!(data.top_defeated_name.as_deref(), Some("beaten"));
    assert_eq!(data.top_defeated_value, Some(1353));
    assert_eq!(data.top_defeated_deviation, Some(616));
    assert_eq!(data.top_defeated_floor.as_deref(), Some("F10"));
    assert_eq!(data.top_defeated_timestamp.as_deref(), Some("2023-11-14"));
    assert_eq!(data.win_rate, Some(67));
    assert_eq!(data.adjusted_win_rate, Some(86));
    assert_eq!(data.game_count, 3);
    assert_eq!(data.matchups.len(), 2);
    assert_eq!(data.matchups[0].character, "Sol");
    assert_eq!(data.matchups[1].win_rate_adjusted, Some(67));
    let mut fresh = row(1, 0, 0, 2_014_732);
    fresh.wins = 0;
    fresh.losses = 0;
    let data = get_player_character_data(&roster(), &fresh, None, None, None, &Vec::new());
    assert_eq!(data.win_rate, None);
    assert_eq!(data.adjusted_win_rate, None);
    assert_eq!(data.top_rating_value, None);
    assert_eq!(data.top_rating_timestamp, None);
    assert_eq!(data.top_defeated_id, None);
    assert_eq!(data.top_defeated_floor, None);
    assert!(data.matchups.is_empty());
}

#[test]
fn a_players_page_needs_a_rating() {
    let player = PlayerRecord {
        id: 4096,
        name: "now".into(),
        vip_status: Some("gold".into()),
        cheater_status: None,
        names: vec!["old".into(), "now".into(), "old".into()],
    };
    let rows = vec![row(4096, 0, 0, 300_000), row(4096, 2, 1_234_567, 400_000)];
    let page = get_player_data_char(&roster(), &player, &rows, 2, Some(1), Some(1), None, &Vec::new()).unwrap();
    assert_eq!(page.id, "1000");
    assert_eq!(page.name, "now");
    assert_eq!(page.vip_status.as_deref(), Some("gold"));
    assert_eq!(page.cheater_status, None);
    assert_eq!(page.other_names, Some(vec!["old".to_string()]));
    assert_eq!(page.other_characters.len(), 2);
    assert_eq!(page.other_characters[0].character_name, "Sol");
    assert_eq!(page.data.character_name, "May");
    assert_eq!(page.data.rating_value, 1714);
    assert_eq!(page.data.global_rank, Some(1));
    assert!(get_player_data_char(&roster(), &player, &rows, 1, None, None, None, &Vec::new()).is_none());
    assert!(get_player_data_char(&roster(), &player, &Vec::new(), 2, None, None, None, &Vec::new()).is_none());
}

#[test]
fn ranks_and_ratings_are_looked_up() {
    let board = vec![row(1, 0, 3, 300_000), row(2, 0, 2, 300_000), row(1, 1, 1, 300_000)];
    assert_eq!(rank_on(&board, 1, 0), Some(1));
    assert_eq!(rank_on(&board, 2, 0), Some(2));
    assert_eq!(rank_on(&board, 1, 1), Some(3));
    assert_eq!(rank_on(&board, 2, 1), None);
    assert_eq!(rank_on(&Vec::new(), 1, 0), None);
    assert_eq!(player_rating(&roster(), &board, 1, &"KY".to_string()), Some(rating(1, 300_000)));
    assert_eq!(player_rating(&roster(), &board, 2, &"SO".to_string()), Some(rating(2, 300_000)));
    assert_eq!(player_rating(&roster(), &board, 2, &"KY".to_string()), None);
    assert_eq!(player_rating(&roster(), &board, 1, &"XX".to_string()), None);
}
