use overachiever::cloud::{CloudAction, CloudSyncState};
use overachiever::error::OverachieverError;
use overachiever::freshness::{is_stale_at, STALE_AFTER_SECONDS};
use overachiever::messages::ClientMessage;
use overachiever::models::GdprConsent;
use overachiever::sync::FlowKind;
use overachiever::ui::{
    difficulty_icon, difficulty_label, game_passes, get_filtered_indices, sort_games, SortColumn,
    SortOrder, TriFilter,
};

#[test]
fn sort_order_toggles_both_ways() {
    assert_eq!(SortOrder::Ascending.toggle(), SortOrder::Descending);
    assert_eq!(SortOrder::Descending.toggle(), SortOrder::Ascending);
}

#[test]
fn tri_filter_cycles_through_three_settings() {
    assert_eq!(TriFilter::All.cycle(), TriFilter::With);
    assert_eq!(TriFilter::With.cycle(), TriFilter::Without);
    assert_eq!(TriFilter::Without.cycle(), TriFilter::All);
}

#[test]
fn tri_filter_labels() {
    assert_eq!(TriFilter::All.label("Played", "Unplayed"), "All");
    assert_eq!(TriFilter::With.label("Played", "Unplayed"), "Played");
    assert_eq!(TriFilter::Without.label("Played", "Unplayed"), "Unplayed");
}

#[test]
fn tri_filter_admits() {
    assert!(TriFilter::All.admits(false));
    assert!(TriFilter::With.admits(true));
    assert!(!TriFilter::With.admits(false));
    assert!(TriFilter::Without.admits(false));
    assert!(!TriFilter::Without.admits(true));
}

#[test]
fn difficulty_names_and_symbols() {
    assert_eq!(difficulty_label(1), "Very easy");
    assert_eq!(difficulty_label(3), "Moderate");
    assert_eq!(difficulty_label(5), "Extreme");
    assert_eq!(difficulty_label(0), "");
    assert_eq!(difficulty_label(6), "");
    assert_eq!(difficulty_icon(5), "\u{1F525}");
    assert_eq!(difficulty_icon(9), "");
}

#[test]
fn gdpr_consent_states() {
    assert!(!GdprConsent::Unset.is_set());
    assert!(GdprConsent::Accepted.is_set());
    assert!(GdprConsent::Declined.is_set());
    assert!(GdprConsent::Accepted.is_accepted());
    assert!(!GdprConsent::Declined.is_accepted());
    assert!(!GdprConsent::Unset.is_accepted());
}

#[test]
fn staleness_after_two_weeks() {
    let now = 10_000_000;
    assert!(is_stale_at(None, now));
    assert!(!is_stale_at(Some(now), now));
    assert!(!is_stale_at(Some(now - STALE_AFTER_SECONDS), now));
    assert!(is_stale_at(Some(now - STALE_AFTER_SECONDS - 1), now));
    assert!(!is_stale_at(Some(i64::MIN), i64::MIN));
}

#[test]
fn error_headings() {
    let e = OverachieverError::SteamApi("bad key".to_string());
    assert_eq!(e.heading(), "Steam API error");
    assert_eq!(e.detail().map(|d| d.as_str()), Some("bad key"));
    assert_eq!(OverachieverError::NotAuthenticated.heading(), "Not authenticated");
    assert_eq!(OverachieverError::NotAuthenticated.detail(), None);
}

#[test]
fn client_messages_start_flows() {
    assert_eq!(ClientMessage::SyncFromSteam.flow(), Some(FlowKind::Update));
    assert_eq!(ClientMessage::FullScan { force: true }.flow(), Some(FlowKind::FullScan { force: true }));
    assert_eq!(ClientMessage::Ping.flow(), None);
}

#[test]
fn cloud_busy_states() {
    assert!(CloudSyncState::Uploading.is_busy());
    assert!(!CloudSyncState::Idle.is_busy());
    assert!(!CloudSyncState::Error("x".to_string()).is_busy());
    assert_ne!(CloudAction::Upload, CloudAction::Delete);
}

fn game(unlocked: Option<u32>, total: Option<u32>) -> overachiever::models::Game {
    overachiever::models::Game {
        appid: 1,
        name: "G".to_string(),
        playtime_forever: 0,
        rtime_last_played: None,
        img_icon_url: None,
        added_at: 0,
        achievements_total: total,
        achievements_unlocked: unlocked,
        last_achievement_scrape: None,
    }
}

#[test]
fn achievement_counts_display() {
    assert_eq!(game(Some(3), Some(12)).achievements_display(), "3 / 12");
    assert_eq!(game(Some(0), Some(0)).achievements_display(), "N/A");
    assert_eq!(game(None, Some(0)).achievements_display(), "\u{2014}");
    assert_eq!(game(None, None).achievements_display(), "\u{2014}");
}

#[test]
fn completion_in_hundredths() {
    assert_eq!(game(Some(1), Some(3)).completion_percent(), Some(3333));
    assert_eq!(game(Some(10), Some(10)).completion_percent(), Some(10000));
    assert_eq!(game(Some(0), Some(0)).completion_percent(), None);
    assert_eq!(game(None, Some(4)).completion_percent(), None);
}

#[test]
fn difficulty_colours() {
    use_colour(overachiever::ui::difficulty_color(1), (80, 200, 80));
    use_colour(overachiever::ui::difficulty_color(5), (230, 60, 60));
    use_colour(overachiever::ui::difficulty_color(0), (160, 160, 160));
}

fn use_colour(got: (u8, u8, u8), want: (u8, u8, u8)) {
    assert_eq!(got, want);
}

#[test]
fn steam_image_urls_go_through_the_proxy() {
    use_url(
        overachiever::icons::proxy_steam_image_url(
            "https://site.example",
            "https://steamcdn-a.akamaihd.net/steamcommunity/public/images/apps/10/a.jpg",
        ),
        "https://site.example/steam-media/steamcommunity/public/images/apps/10/a.jpg",
    );
    use_url(
        overachiever::icons::proxy_steam_image_url("", "http://media.steampowered.com/x/y.png"),
        "/steam-media/x/y.png",
    );
    use_url(
        overachiever::icons::proxy_steam_image_url("https://site.example", "https://other.example/z.jpg"),
        "https://other.example/z.jpg",
    );
}

fn use_url(got: String, want: &str) {
    assert_eq!(got, want);
}

#[test]
fn game_icon_urls() {
    assert_eq!(
        overachiever::icons::game_icon_url("https://site.example", 440, "abc"),
        "https://site.example/steam-media/steamcommunity/public/images/apps/440/abc.jpg"
    );
    assert_eq!(
        overachiever::icons::game_icon_url_from_hash("", 7, "h"),
        "/steam-media/steamcommunity/public/images/apps/7/h.jpg"
    );
}

fn table_game(name: &str, total: Option<u32>, last_played: Option<u32>) -> overachiever::models::Game {
    overachiever::models::Game {
        appid: 1,
        name: name.to_string(),
        playtime_forever: 0,
        rtime_last_played: last_played,
        img_icon_url: None,
        added_at: 0,
        achievements_total: total,
        achievements_unlocked: total,
        last_achievement_scrape: None,
    }
}

#[test]
fn games_table_filters() {
    let games = vec![
        table_game("Half-Life", None, None),
        table_game("Portal 2", Some(51), Some(100)),
        table_game("PORTAL", Some(0), Some(0)),
        table_game("Doom", Some(3), Some(7)),
    ];
    assert_eq!(get_filtered_indices(&games, "", TriFilter::All, TriFilter::All), vec![0, 1, 2, 3]);
    assert_eq!(get_filtered_indices(&games, "PoRt", TriFilter::All, TriFilter::All), vec![1, 2]);
    assert_eq!(get_filtered_indices(&games, "", TriFilter::With, TriFilter::All), vec![1, 3]);
    assert_eq!(get_filtered_indices(&games, "", TriFilter::Without, TriFilter::All), vec![0, 2]);
    assert_eq!(get_filtered_indices(&games, "", TriFilter::All, TriFilter::With), vec![1, 3]);
    assert_eq!(get_filtered_indices(&games, "portal", TriFilter::All, TriFilter::Without), vec![2]);
    assert!(get_filtered_indices(&games, "quake", TriFilter::All, TriFilter::All).is_empty());
}

#[test]
fn one_game_against_folded_names() {
    let g = table_game("Portal 2", Some(51), Some(100));
    assert!(game_passes(&g, "portal 2", "tal", TriFilter::With, TriFilter::With));
    assert!(!game_passes(&g, "portal 2", "TAL", TriFilter::All, TriFilter::All));
    assert!(game_passes(&g, "portal 2", "", TriFilter::All, TriFilter::All));
    assert!(!game_passes(&g, "portal 2", "", TriFilter::Without, TriFilter::All));
}

fn names(games: &[overachiever::models::Game]) -> Vec<String> {
    games.iter().map(|g| g.name.clone()).collect()
}

#[test]
fn sort_by_name_ignores_case() {
    let mut games = vec![
        table_game("beta", None, None),
        table_game("Alpha", None, None),
        table_game("GAMMA", None, None),
    ];
    sort_games(&mut games, SortColumn::Name, SortOrder::Ascending);
    assert_eq!(names(&games), vec!["Alpha", "beta", "GAMMA"]);
    sort_games(&mut games, SortColumn::Name, SortOrder::Descending);
    assert_eq!(names(&games), vec!["GAMMA", "beta", "Alpha"]);
}

#[test]
fn sort_by_last_played_puts_recent_first() {
    let mut games = vec![
        table_game("never", None, None),
        table_game("old", None, Some(10)),
        table_game("new", None, Some(99)),
    ];
    sort_games(&mut games, SortColumn::LastPlayed, SortOrder::Ascending);
    assert_eq!(names(&games), vec!["new", "old", "never"]);
    sort_games(&mut games, SortColumn::LastPlayed, SortOrder::Descending);
    assert_eq!(names(&games), vec!["never", "old", "new"]);
}

#[test]
fn sort_by_completion_puts_unknown_last() {
    let mut games = vec![
        table_game("unknown", None, None),
        table_game("half", Some(2), None),
        table_game("none", Some(0), None),
    ];
    games[1].achievements_unlocked = Some(1);
    sort_games(&mut games, SortColumn::AchievementsPercent, SortOrder::Ascending);
    assert_eq!(games[0].name, "half");
    assert_eq!(games.len(), 3);
    sort_games(&mut games, SortColumn::AchievementsTotal, SortOrder::Ascending);
    assert_eq!(names(&games)[0], "half");
    assert_eq!(names(&games)[2], "unknown");
}

#[test]
fn sort_keeps_equal_keys_in_order() {
    let mut games = vec![
        table_game("first", Some(3), None),
        table_game("second", Some(3), None),
        table_game("top", Some(9), None),
        table_game("third", Some(3), None),
    ];
    sort_games(&mut games, SortColumn::AchievementsTotal, SortOrder::Ascending);
    assert_eq!(names(&games), vec!["top", "first", "second", "third"]);
    let mut same = vec![table_game("Beta", None, None), table_game("beta", None, None)];
    sort_games(&mut same, SortColumn::Name, SortOrder::Ascending);
    assert_eq!(names(&same), vec!["Beta", "beta"]);
}

#[test]
fn numbers_in_decimal() {
    assert_eq!(overachiever::text::decimal_string(0), "0");
    assert_eq!(overachiever::text::decimal_string(7), "7");
    assert_eq!(overachiever::text::decimal_string(10), "10");
    assert_eq!(overachiever::text::decimal_string(40213), "40213");
    assert_eq!(overachiever::text::decimal_string(u64::MAX), "18446744073709551615");
}
