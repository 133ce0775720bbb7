use ratings::anomaly::FraudEntry;
use ratings::clock::{date, date_hour_minute, has_date, hour_minute, MAX_TIMESTAMP, MIN_TIMESTAMP};
use ratings::glicko::Rating;
use ratings::records::{Match, PlayerRating, Winner};
use ratings::site::{
    active_players, countdown, get_fraud, get_fraud_higher_rated, get_fraud_highest_rated,
    get_player_other_characters, get_player_other_names, get_supporters, player_lookup,
    search_inner, search_pattern, stats_inner, top_all_inner, top_char_inner, CharacterName,
    FraudStats, LookupRow, PlayerLookupCharacter, PlayerLookupPlayer, RankedRow, RankingPlayer,
    Roster, Stats, SupporterRow, VipPlayer,
};
use ratings::text::{hex_id, push_decimal, push_two_places, signed_tenths};

fn roster() -> Roster {
    let names = [("SO", "Sol"), ("KY", "Ky"), ("MA", "May")];
    Roster {
        names: names
            .iter()
            .map(|(short, long)| CharacterName { short: short.to_string(), long: long.to_string() })
            .collect(),
    }
}

fn row(id: i64, char_id: i64, value: i64, deviation: i64, wins: u64, losses: u64) -> PlayerRating {
    PlayerRating {
        id,
        char_id,
        rating: Rating::new(value, deviation).unwrap(),
        wins,
        losses,
        last_decay_period: 0,
        top_rating: None,
        top_defeated: None,
    }
}

fn ranked(name: &str, player: PlayerRating) -> RankedRow {
    RankedRow { name: name.to_string(), vip_status: None, cheater_status: None, player }
}

#[test]
fn identifiers_are_hexadecimal() {
    assert_eq!(hex_id(0), "0");
    assert_eq!(hex_id(255), "FF");
    assert_eq!(hex_id(0x1F2E3D4C5B6A7988), "1F2E3D4C5B6A7988");
    assert_eq!(hex_id(-1), "FFFFFFFFFFFFFFFF");
    assert_eq!(hex_id(-1234567890123), "FFFFFEE08E04FB35");
    assert_eq!(hex_id(i64::MAX), "7FFFFFFFFFFFFFFF");
    assert_eq!(hex_id(i64::MIN), "8000000000000000");
}

#[test]
fn numbers_are_written_out() {
    let mut text = String::from("n=");
    push_decimal(&mut text, 0);
    push_decimal(&mut text, -45);
    push_decimal(&mut text, 1203);
    assert_eq!(text, "n=0-451203");
    let mut text = String::new();
    push_decimal(&mut text, i64::MIN);
    assert_eq!(text, "-9223372036854775808");
    let mut text = String::new();
    push_two_places(&mut text, 5);
    push_two_places(&mut text, 0);
    push_two_places(&mut text, 59);
    push_two_places(&mut text, -5);
    push_two_places(&mut text, -59);
    push_two_places(&mut text, 123);
    assert_eq!(text, "050059-5-59123");
}

#[test]
fn offsets_carry_their_sign() {
    assert_eq!(signed_tenths(1_234_567), "+1.2");
    assert_eq!(signed_tenths(-49_999), "+0.0");
    assert_eq!(signed_tenths(-50_000), "-0.1");
    assert_eq!(signed_tenths(0), "+0.0");
    assert_eq!(signed_tenths(950_000), "+1.0");
    assert_eq!(signed_tenths(-12_345_678), "-12.3");
    assert_eq!(signed_tenths(i64::MAX), "+9223372036854.8");
    assert_eq!(signed_tenths(i64::MIN), "-9223372036854.8");
}

#[test]
fn timestamps_become_calendar_text() {
    assert_eq!(hour_minute(0).unwrap(), "00:00");
    assert_eq!(hour_minute(1_630_834_599).unwrap(), "09:36");
    assert_eq!(hour_minute(-1).unwrap(), "23:59");
    assert_eq!(date(0).unwrap(), "1970-01-01");
    assert_eq!(date(951_782_400).unwrap(), "2000-02-29");
    assert_eq!(date(-1).unwrap(), "1969-12-31");
    assert_eq!(date_hour_minute(1_700_000_000).unwrap(), "2023-11-14 22:13");
    assert_eq!(date_hour_minute(86_399).unwrap(), "1970-01-01 23:59");
}

#[test]
fn timestamps_without_a_date_give_nothing() {
    assert!(has_date(MIN_TIMESTAMP) && has_date(MAX_TIMESTAMP));
    assert!(!has_date(MIN_TIMESTAMP - 1) && !has_date(MAX_TIMESTAMP + 1));
    assert!(date(MIN_TIMESTAMP).is_some());
    assert!(date(MAX_TIMESTAMP).is_some());
    assert!(hour_minute(MAX_TIMESTAMP).is_some());
    assert!(date_hour_minute(MIN_TIMESTAMP).is_some());
    assert!(date(MIN_TIMESTAMP - 1).is_none());
    assert!(date(MAX_TIMESTAMP + 1).is_none());
    assert!(hour_minute(i64::MAX).is_none());
    assert!(date_hour_minute(i64::MIN).is_none());
}

#[test]
fn the_countdown_shows_hours_and_minutes() {
    assert_eq!(countdown(3900), "1:05");
    assert_eq!(countdown(0), "0:00");
    assert_eq!(countdown(59), "0:00");
    assert_eq!(countdown(3599), "0:59");
    assert_eq!(countdown(36_000 + 600), "10:10");
    assert_eq!(countdown(-300), "0:-5");
    assert_eq!(countdown(-3900), "-1:-5");
    assert_eq!(countdown(-7200 - 45 * 60), "-2:-45");
}

#[test]
fn the_overview_counts_down_to_the_next_update() {
    let stats: Stats = stats_inner(1234, 56, 1_630_834_560, 1_630_834_560 + 1800, 3600);
    assert_eq!(stats.game_count, 1234);
    assert_eq!(stats.player_count, 56);
    assert_eq!(stats.last_update, 1_630_834_560);
    assert_eq!(stats.next_update_in, "0:30");
    assert_eq!(stats.last_update_string, "09:36 UTC");
    let late = stats_inner(0, 0, 0, 4 * 3600 + 120, 3600);
    assert_eq!(late.next_update_in, "-3:-2");
    assert_eq!(late.last_update_string, "00:00 UTC");
    let extreme = stats_inner(0, 0, MAX_TIMESTAMP, i64::MIN, i64::MAX);
    assert_eq!(extreme.next_update_in, "5124097856660119:00");
}

#[test]
fn the_roster_names_characters() {
    let roster = roster();
    assert!(roster.has(0) && roster.has(2));
    assert!(!roster.has(3) && !roster.has(-1));
    assert_eq!(roster.short_name(1), "KY");
    assert_eq!(roster.long_name(2), "May");
    assert_eq!(roster.position(&"MA".to_string()), Some(2));
    assert_eq!(roster.position(&"SO".to_string()), Some(0));
    assert_eq!(roster.position(&"XX".to_string()), None);
    let doubled = Roster {
        names: vec![
            CharacterName { short: "A".into(), long: "one".into() },
            CharacterName { short: "A".into(), long: "two".into() },
        ],
    };
    assert_eq!(doubled.position(&"A".to_string()), Some(0));
}

#[test]
fn leaderboard_lines_are_numbered_from_one() {
    let roster = roster();
    let mut rows = vec![
        ranked("first", row(255, 0, 1_234_567, 400_000, 10, 5)),
        ranked("second", row(-1, 2, 0, 2_014_732, 0, 0)),
    ];
    rows[1].vip_status = Some("gold".into());
    rows[1].cheater_status = Some("flagged".into());
    let page: Vec<RankingPlayer> = top_all_inner(&roster, &rows);
    assert_eq!(page.len(), 2);
    assert_eq!(page[0].pos, 1);
    assert_eq!(page[0].id, "FF");
    assert_eq!(page[0].name, "first");
    assert_eq!(page[0].character, "Sol");
    assert_eq!(page[0].character_short, "SO");
    assert_eq!(page[0].game_count, 15);
    assert_eq!(page[0].rating_value, 1714);
    assert_eq!(page[0].rating_deviation, 139);
    assert_eq!(page[0].vip_status, None);
    assert_eq!(page[1].pos, 2);
    assert_eq!(page[1].id, "FFFFFFFFFFFFFFFF");
    assert_eq!(page[1].character, "May");
    assert_eq!(page[1].rating_value, 1500);
    assert_eq!(page[1].rating_deviation, 700);
    assert_eq!(page[1].vip_status.as_deref(), Some("gold"));
    assert_eq!(page[1].cheater_status.as_deref(), Some("flagged"));
    let line = RankingPlayer::from_db(&roster, 7, "x".into(), None, None, &rows[0].player);
    assert_eq!((line.pos, line.rating_value, line.game_count), (7, 1714, 15));
}

#[test]
fn a_page_holds_a_hundred_lines() {
    let roster = roster();
    let rows: Vec<RankedRow> = (0..250)
        .map(|i| ranked(&format!("p{}", i), row(i, i % 3, 1000 * i, 300_000, 1, 1)))
        .collect();
    let page = top_all_inner(&roster, &rows);
    assert_eq!(page.len(), 100);
    assert_eq!(page[99].pos, 100);
    assert_eq!(page[99].name, "p99");
    let page = top_char_inner(&roster, &rows, 1);
    assert_eq!(page.len(), 83);
    assert_eq!(page[0].name, "p1");
    assert_eq!(page[0].pos, 1);
    assert_eq!(page[1].name, "p4");
    assert_eq!(page[82].name, "p247");
    assert_eq!(page[82].pos, 83);
    let many: Vec<RankedRow> = (0..450)
        .map(|i| ranked(&format!("q{}", i), row(i, i % 3, 0, 300_000, 1, 1)))
        .collect();
    let page = top_char_inner(&roster, &many, 2);
    assert_eq!(page.len(), 100);
    assert_eq!(page[99].name, "q299");
    assert_eq!(page[99].pos, 100);
    assert!(top_char_inner(&roster, &many, 7).is_empty());
}

#[test]
fn searches_use_wildcards_unless_exact() {
    assert_eq!(search_pattern("abc", false), "%abc%");
    assert_eq!(search_pattern("abc", true), "abc");
    assert_eq!(search_pattern("", false), "%%");
    assert_eq!(search_pattern("", true), "");
    let roster = roster();
    let rows: Vec<RankedRow> = (0..1200)
        .map(|i| ranked(&format!("s{}", i), row(i, 1, -2_000_000, 300_000, 2, 3)))
        .collect();
    let results = search_inner(&roster, &rows);
    assert_eq!(results.len(), 1000);
    assert_eq!(results[999].name, "s999");
    assert_eq!(results[10].id, "A");
    assert_eq!(results[10].character, "Ky");
    assert_eq!(results[10].character_short, "KY");
    assert_eq!(results[10].rating_value, 1153);
    assert_eq!(results[10].rating_deviation, 104);
    assert_eq!(results[10].game_count, 5);
    assert_eq!(search_inner(&roster, &Vec::new()).len(), 0);
}

#[test]
fn lookups_list_every_character() {
    let roster = roster();
    let found = vec![
        LookupRow {
            id: 4096,
            name: "a".into(),
            rows: vec![row(4096, 0, 1_234_567, 400_000, 1, 2), row(4096, 2, 0, 2_014_732, 0, 0)],
        },
        LookupRow { id: 1, name: "b".into(), rows: vec![] },
    ];
    let players: Vec<PlayerLookupPlayer> = player_lookup(&roster, &found);
    assert_eq!(players.len(), 2);
    assert_eq!(players[0].id, "1000");
    assert_eq!(players[0].name, "a");
    assert_eq!(players[0].characters.len(), 2);
    let first: &PlayerLookupCharacter = &players[0].characters[0];
    assert_eq!(
        (first.shortname.as_str(), first.rating, first.deviation, first.game_count),
        ("SO", 1714, 139, 3)
    );
    assert_eq!(players[0].characters[1].shortname, "MA");
    assert_eq!(players[0].characters[1].rating, 1500);
    assert_eq!(players[1].id, "1");
    assert!(players[1].characters.is_empty());
    let others = get_player_other_characters(&roster, &found[0].rows);
    assert_eq!(others.len(), 2);
    assert_eq!(others[0].character_name, "Sol");
    assert_eq!(others[0].character_shortname, "SO");
    assert_eq!((others[0].rating_value, others[0].rating_deviation, others[0].game_count), (1714, 139, 3));
}

#[test]
fn supporters_come_latest_first() {
    let rows = vec![
        SupporterRow { id: 10, name: "x".into(), vip_status: Some("a".into()) },
        SupporterRow { id: 11, name: "y".into(), vip_status: None },
        SupporterRow { id: -2, name: "z".into(), vip_status: Some("c".into()) },
    ];
    let shown: Vec<VipPlayer> = get_supporters(rows);
    assert_eq!(shown.len(), 3);
    assert_eq!((shown[0].id.as_str(), shown[0].name.as_str()), ("FFFFFFFFFFFFFFFE", "z"));
    assert_eq!(shown[0].vip_status.as_deref(), Some("c"));
    assert_eq!((shown[1].id.as_str(), shown[1].name.as_str()), ("B", "y"));
    assert_eq!(shown[1].vip_status, None);
    assert_eq!((shown[2].id.as_str(), shown[2].name.as_str()), ("A", "x"));
    assert!(get_supporters(Vec::new()).is_empty());
}

#[test]
fn earlier_names_are_listed_once() {
    let names: Vec<String> = ["now", "old", "older", "old", "now", "first"].iter().map(|s| s.to_string()).collect();
    assert_eq!(
        get_player_other_names(&names, &"now".to_string()),
        Some(vec!["old".to_string(), "older".to_string(), "first".to_string()])
    );
    assert_eq!(get_player_other_names(&vec!["now".to_string()], &"now".to_string()), None);
    assert_eq!(get_player_other_names(&Vec::new(), &"now".to_string()), None);
    assert_eq!(
        get_player_other_names(&names, &"absent".to_string()).unwrap(),
        vec!["now", "old", "older", "first"]
    );
}

#[test]
fn the_anomaly_index_is_shown_highest_first() {
    let roster = roster();
    let lines = vec![
        FraudEntry { char_id: 0, player_count: 12, average_delta: Some(-3_260_000) },
        FraudEntry { char_id: 1, player_count: 0, average_delta: None },
        FraudEntry { char_id: 2, player_count: 7, average_delta: Some(41_449_000) },
    ];
    let shown: Vec<FraudStats> = get_fraud(&roster, &lines);
    assert_eq!(shown.len(), 2);
    assert_eq!(shown[0].character_name, "May");
    assert_eq!(shown[0].player_count, 7);
    assert_eq!(shown[0].average_offset, "+41.4");
    assert_eq!(shown[1].character_name, "Sol");
    assert_eq!(shown[1].player_count, 12);
    assert_eq!(shown[1].average_offset, "-3.3");
    let tied = vec![
        FraudEntry { char_id: 2, player_count: 1, average_delta: Some(5) },
        FraudEntry { char_id: 0, player_count: 2, average_delta: Some(5) },
        FraudEntry { char_id: 1, player_count: 3, average_delta: Some(6) },
    ];
    let shown = get_fraud_higher_rated(&roster, &tied);
    let names: Vec<&str> = shown.iter().map(|l| l.character_name.as_str()).collect();
    assert_eq!(names, vec!["Ky", "May", "Sol"]);
    assert!(get_fraud_highest_rated(&roster, &Vec::new()).is_empty());
    let line = FraudStats::new(&roster, 1, 3, -50_000);
    assert_eq!((line.character_name.as_str(), line.player_count, line.average_offset.as_str()), ("Ky", 3, "-0.1"));
}

#[test]
fn active_players_are_counted_per_day() {
    let day = 86_400;
    let now = 100 * day;
    let game = |timestamp: i64, id_a: i64, id_b: i64| Match {
        timestamp,
        id_a,
        char_a: 0,
        id_b,
        char_b: 1,
        winner: Winner::A,
        floor: 1,
    };
    let matches = vec![
        game(now - 10, 1, 2),
        game(now - 20, 2, 3),
        game(now - 30, 1, 3),
        game(now - day, 8, 9),
        game(now, 8, 9),
        game(now - day - 1, 4, 4),
        game(now - 2 * day + 1, 4, 5),
        game(now - 13 * day - 5, 6, 7),
        game(now - 14 * day, 1, 2),
        game(now - 15 * day, 1, 2),
    ];
    let counts = active_players(&matches, now);
    assert_eq!(counts, vec![3, 2, 0, 0, 0, 0, 0, 0, 0, 0, 0, 0, 0, 2]);
    assert_eq!(active_players(&Vec::new(), now), vec![0; 14]);
    assert_eq!(active_players(&matches, i64::MIN).len(), 14);
}
