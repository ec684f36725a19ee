use game_chronicle::igdb::{
    game_info_columns, i32_text, join_ids, parse_i32, parse_id_list, quote_filter, trim_spaces,
    u64_text, GameInfo,
};
use game_chronicle::steam::{steam_log_data, SteamGame};
use game_chronicle::text::{contains_pattern, find_pat, join_with, replace_first, split_on};

fn chars(s: &str) -> Vec<char> {
    s.chars().collect()
}

fn text(v: &[char]) -> String {
    v.iter().collect()
}

#[test]
fn find_first_occurrence() {
    assert_eq!(find_pat(&chars("abcabc"), &chars("bc")), Some(1));
    assert_eq!(find_pat(&chars("abcabc"), &chars("cb")), None);
    assert_eq!(find_pat(&chars("abc"), &chars("")), Some(0));
    assert_eq!(find_pat(&chars("ab"), &chars("abc")), None);
}

#[test]
fn replace_first_occurrence_only() {
    let out = replace_first(&chars("logs logs"), &chars("logs"), &chars("new_logs"));
    assert_eq!(text(&out), "new_logs logs");
    let out = replace_first(&chars("nothing here"), &chars("logs"), &chars("x"));
    assert_eq!(text(&out), "nothing here");
}

#[test]
fn contains_substring() {
    assert!(contains_pattern(&chars("CONSTRAINT c CHECK (x)"), &chars("c CHECK")));
    assert!(!contains_pattern(&chars("abc"), &chars("abd")));
}

#[test]
fn split_and_join_are_inverse() {
    let s = chars("a\nbb\n\nccc");
    let pieces = split_on(&s, '\n');
    let texts: Vec<String> = pieces.iter().map(|p| text(p)).collect();
    assert_eq!(texts, vec!["a", "bb", "", "ccc"]);
    let joined = join_with(&pieces, '\n');
    assert_eq!(text(&joined), "a\nbb\n\nccc");
}

#[test]
fn split_without_separator() {
    let pieces = split_on(&chars("abc"), '\n');
    assert_eq!(pieces.len(), 1);
    assert_eq!(text(&pieces[0]), "abc");
}

#[test]
fn parse_i32_values() {
    assert_eq!(parse_i32(&chars("0")), Some(0));
    assert_eq!(parse_i32(&chars("42")), Some(42));
    assert_eq!(parse_i32(&chars("-17")), Some(-17));
    assert_eq!(parse_i32(&chars("+8")), Some(8));
    assert_eq!(parse_i32(&chars("2147483647")), Some(i32::MAX));
    assert_eq!(parse_i32(&chars("2147483648")), None);
    assert_eq!(parse_i32(&chars("-2147483648")), Some(i32::MIN));
    assert_eq!(parse_i32(&chars("-2147483649")), None);
    assert_eq!(parse_i32(&chars("99999999999999999999")), None);
    assert_eq!(parse_i32(&chars("")), None);
    assert_eq!(parse_i32(&chars("-")), None);
    assert_eq!(parse_i32(&chars("1a")), None);
    assert_eq!(parse_i32(&chars("007")), Some(7));
}

#[test]
fn parse_id_list_semantics() {
    // absent and empty are different things: an empty list denotes nothing
    assert_eq!(parse_id_list(&chars("")), None);
    assert_eq!(parse_id_list(&chars("{}")), None);
    assert_eq!(parse_id_list(&chars("{1,2,3}")), Some(vec![1, 2, 3]));
    assert_eq!(parse_id_list(&chars(" 4 , 5 ")), Some(vec![4, 5]));
    // a piece that is no number stands as zero
    assert_eq!(parse_id_list(&chars("{1,x,3}")), Some(vec![1, 0, 3]));
}

#[test]
fn trim_surrounding_spaces() {
    assert_eq!(text(&trim_spaces(&chars("  a b \t"))), "a b");
    assert_eq!(text(&trim_spaces(&chars("ab"))), "ab");
    assert_eq!(text(&trim_spaces(&chars("   "))), "");
}

#[test]
fn quote_filter_joins_quoted_values() {
    let out = quote_filter(&vec!["played".to_string(), "completed".to_string()]);
    assert_eq!(text(&out), "'played','completed'");
    let out = quote_filter(&vec!["wishlist".to_string()]);
    assert_eq!(text(&out), "'wishlist'");
    let out = quote_filter(&Vec::new());
    assert_eq!(text(&out), "");
}

#[test]
fn render_decimal_text() {
    assert_eq!(text(&u64_text(0)), "0");
    assert_eq!(text(&u64_text(7)), "7");
    assert_eq!(text(&u64_text(1024)), "1024");
    assert_eq!(text(&u64_text(18446744073709551615)), "18446744073709551615");
    assert_eq!(text(&i32_text(0)), "0");
    assert_eq!(text(&i32_text(-1)), "-1");
    assert_eq!(text(&i32_text(i32::MIN)), "-2147483648");
    assert_eq!(text(&i32_text(i32::MAX)), "2147483647");
}

#[test]
fn render_and_parse_agree() {
    for n in [0, 1, -1, 42, -999, i32::MAX, i32::MIN] {
        assert_eq!(parse_i32(&i32_text(n)), Some(n));
    }
}

#[test]
fn join_ids_with_commas() {
    assert_eq!(text(&join_ids(&vec![1, -2, 30])), "1,-2,30");
    assert_eq!(text(&join_ids(&vec![5])), "5");
    assert_eq!(text(&join_ids(&Vec::new())), "");
}

fn catalog_game(id: i32, websites: Option<Vec<&str>>) -> GameInfo {
    GameInfo {
        id,
        title: format!("game {}", id),
        cover_image_id: None,
        websites: websites.map(|ws| ws.into_iter().map(str::to_string).collect()),
        similar_games: None,
        category: 0,
        version_parent: None,
        total_rating: None,
    }
}

fn owned(appid: i32, playtime: i32) -> SteamGame {
    SteamGame {
        appid,
        name: format!("steam {}", appid),
        playtime_forever: playtime,
        playtime_2weeks: None,
        rtime_last_played: 0,
    }
}

#[test]
fn steam_matching_builds_log_rows() {
    let games = vec![
        catalog_game(1, Some(vec!["https://store.steampowered.com/app/100"])),
        catalog_game(2, Some(vec!["https://example.com", "https://store.steampowered.com/app/200"])),
        catalog_game(3, None),
    ];
    let steam = vec![owned(200, 0), owned(100, 90), owned(555, 10)];
    let dates = vec!["2024-01-01".to_string(), "2024-02-02".to_string(), "2024-03-03".to_string()];
    let rows = steam_log_data(&steam, &games, &dates);
    // the unmatched appid 555 is dropped
    assert_eq!(rows.len(), 2);
    assert_eq!(rows[0].game_id, 2);
    assert_eq!(rows[0].status, "backlog");
    assert_eq!(rows[0].minutes_played, 0);
    assert_eq!(rows[0].start_date, "2024-01-01");
    assert_eq!(rows[0].end_date, "2024-01-01");
    assert_eq!(rows[1].game_id, 1);
    assert_eq!(rows[1].status, "played");
    assert_eq!(rows[1].minutes_played, 90);
}

#[test]
fn steam_matching_needs_exact_link() {
    let games = vec![catalog_game(1, Some(vec!["https://store.steampowered.com/app/1000"]))];
    let steam = vec![owned(100, 5)];
    let rows = steam_log_data(&steam, &games, &vec!["d".to_string()]);
    assert!(rows.is_empty());
}

#[test]
fn column_list_names_every_join() {
    let cols = game_info_columns();
    assert!(cols.contains("FROM games g"));
    assert!(cols.contains("LEFT JOIN covers c"));
    assert!(cols.contains("GROUP_CONCAT(sg.similar_game_id, ',')"));
}
