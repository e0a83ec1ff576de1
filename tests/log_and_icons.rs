use overachiever::icons::{cache_file_name, simple_hash, IconCache};
use overachiever::log::LogEntry;
use overachiever::models::{Achievement, AchievementSchema, SteamGame};
use overachiever::store::Store;

fn owned(appid: u64, name: &str, playtime: u32, last_played: Option<u32>) -> SteamGame {
    SteamGame {
        appid,
        name: name.to_string(),
        playtime_forever: playtime,
        playtime_windows_forever: None,
        playtime_mac_forever: None,
        playtime_linux_forever: None,
        playtime_deck_forever: None,
        rtime_last_played: last_played,
        img_icon_url: Some("hash".to_string()),
    }
}

fn schema(apiname: &str) -> AchievementSchema {
    AchievementSchema {
        name: apiname.to_string(),
        display_name: format!("{} title", apiname),
        description: None,
        icon: format!("{}.jpg", apiname),
        icongray: format!("{}_gray.jpg", apiname),
    }
}

fn sample_store() -> Store {
    let mut store = Store::new();
    store.upsert_game(&owned(1, "One", 0, None), 10).unwrap();
    store.upsert_game(&owned(1, "One", 15, Some(200)), 20).unwrap();
    store.merge_achievements(
        1,
        &vec![
            Achievement { apiname: "A".to_string(), achieved: 1, unlocktime: 100 },
            Achievement { apiname: "B".to_string(), achieved: 1, unlocktime: 300 },
            Achievement { apiname: "C".to_string(), achieved: 0, unlocktime: 0 },
        ],
        &vec![schema("A"), schema("B"), schema("C")],
    );
    store
}

fn describe(e: &LogEntry) -> String {
    match e {
        LogEntry::Achievement { apiname, game_name, achievement_name, timestamp, .. } => {
            format!("{}:{}:{}:{}", game_name, apiname, achievement_name, timestamp)
        }
        LogEntry::FirstPlay { game_name, timestamp, .. } => format!("{}:first:{}", game_name, timestamp),
    }
}

#[test]
fn log_lists_unlocks_and_first_plays_newest_first() {
    let store = sample_store();
    let lines: Vec<String> = store.get_log_entries(10).iter().map(describe).collect();
    assert_eq!(
        lines,
        vec![
            "One:B:B title:300".to_string(),
            "One:first:200".to_string(),
            "One:A:A title:100".to_string(),
        ]
    );
}

#[test]
fn log_keeps_only_the_newest_lines() {
    let store = sample_store();
    let entries = store.get_log_entries(2);
    assert_eq!(entries.len(), 2);
    assert_eq!(entries[0].timestamp(), 300);
    assert_eq!(entries[1].timestamp(), 200);
    assert!(store.get_log_entries(0).is_empty());
}

#[test]
fn log_skips_unlocks_without_a_stored_game() {
    let mut store = Store::new();
    store.merge_achievements(
        9,
        &vec![Achievement { apiname: "A".to_string(), achieved: 1, unlocktime: 100 }],
        &vec![schema("A")],
    );
    assert!(store.get_log_entries(5).is_empty());
}

#[test]
fn hash_of_known_strings() {
    assert_eq!(simple_hash(""), 5381);
    assert_eq!(simple_hash("a"), 5381 * 33 + 97);
    assert_eq!(simple_hash("ab"), (5381u64 * 33 + 97) * 33 + 98);
    assert_ne!(simple_hash("ab"), simple_hash("ba"));
}

#[test]
fn cache_file_name_joins_hash_and_last_segment() {
    let url = "https://cdn.example/apps/10/abc.jpg";
    assert_eq!(cache_file_name(url), format!("{}_abc.jpg", simple_hash(url)));
    assert_eq!(cache_file_name("a"), "177670_a");
    assert_eq!(cache_file_name("dir/"), format!("{}_", simple_hash("dir/")));
}

#[test]
fn cached_path_only_for_icons_on_disk() {
    let cache = IconCache::new();
    let url = "https://cdn.example/x.jpg";
    assert_eq!(cache.get_cache_path(url), format!("icon_cache/{}_x.jpg", simple_hash(url)));
    assert_eq!(cache.get_cached_path(url, false), None);
    assert_eq!(cache.get_cached_path("", true), None);
    assert_eq!(cache.get_cached_path(url, true), Some(cache.get_cache_path(url)));
}

#[test]
fn game_achievements_join_schema_and_state() {
    let store = sample_store();
    let rows = store.get_game_achievements(1);
    let view: Vec<(String, String, bool, Option<i64>)> = rows
        .iter()
        .map(|r| (r.apiname.clone(), r.name.clone(), r.achieved, r.unlocktime))
        .collect();
    assert_eq!(
        view,
        vec![
            ("A".to_string(), "A title".to_string(), true, Some(100)),
            ("B".to_string(), "B title".to_string(), true, Some(300)),
            ("C".to_string(), "C title".to_string(), false, None),
        ]
    );
    assert_eq!(rows[2].icon_gray, "C_gray.jpg");
    assert!(store.get_game_achievements(2).is_empty());
}

#[test]
fn icon_uri_prefers_the_cached_copy() {
    let cache = IconCache::new();
    let url = "https://cdn.example/x.jpg";
    assert_eq!(cache.get_icon_uri(url, None), url);
    assert_eq!(cache.get_icon_uri(url, Some("/home/u/icon_cache/1_x.jpg")), "file:////home/u/icon_cache/1_x.jpg");
    assert_eq!(
        cache.get_icon_uri(url, Some("\\\\?\\C:\\games\\icon_cache\\1_x.jpg")),
        "file:///C:/games/icon_cache/1_x.jpg"
    );
    assert_eq!(cache.get_icon_uri("", Some("/p")), "");
}
