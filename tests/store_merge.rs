use overachiever::models::{Achievement, AchievementSchema, SteamGame};
use overachiever::store::Store;

fn owned(appid: u64, playtime: u32, last_played: Option<u32>) -> SteamGame {
    SteamGame {
        appid,
        name: format!("Game {}", appid),
        playtime_forever: playtime,
        playtime_windows_forever: None,
        playtime_mac_forever: None,
        playtime_linux_forever: None,
        playtime_deck_forever: None,
        rtime_last_played: last_played,
        img_icon_url: Some("icon".to_string()),
    }
}

fn progress(apiname: &str, achieved: u8, unlocktime: u32) -> Achievement {
    Achievement { apiname: apiname.to_string(), achieved, unlocktime }
}

fn schema(apiname: &str, title: &str) -> AchievementSchema {
    AchievementSchema {
        name: apiname.to_string(),
        display_name: title.to_string(),
        description: Some(format!("{} description", title)),
        icon: format!("{}.jpg", apiname),
        icongray: format!("{}_gray.jpg", apiname),
    }
}

#[test]
fn merging_twice_leaves_the_same_rows() {
    let mut store = Store::new();
    let p = vec![progress("A", 1, 100), progress("B", 0, 0)];
    let s = vec![schema("A", "Alpha"), schema("B", "Beta"), schema("C", "Gamma")];
    let first = store.merge_achievements(7, &p, &s);
    let unlocks: Vec<(String, bool, Option<i64>)> =
        store.unlocks.iter().map(|u| (u.apiname.clone(), u.achieved, u.unlocktime)).collect();
    let schemas: Vec<(String, String)> =
        store.schemas.iter().map(|e| (e.apiname.clone(), e.display_name.clone())).collect();
    let second = store.merge_achievements(7, &p, &s);
    assert_eq!(first, second);
    assert_eq!(first.total_count, 3);
    assert_eq!(first.unlocked_count, 1);
    let unlocks2: Vec<(String, bool, Option<i64>)> =
        store.unlocks.iter().map(|u| (u.apiname.clone(), u.achieved, u.unlocktime)).collect();
    let schemas2: Vec<(String, String)> =
        store.schemas.iter().map(|e| (e.apiname.clone(), e.display_name.clone())).collect();
    assert_eq!(unlocks, unlocks2);
    assert_eq!(schemas, schemas2);
    assert_eq!(store.unlocks.len(), 3);
    assert_eq!(store.schemas.len(), 3);
}

#[test]
fn known_unlock_time_survives_a_merge_without_one() {
    let mut store = Store::new();
    store.merge_achievements(7, &vec![progress("A", 1, 1234)], &vec![schema("A", "Alpha")]);
    assert_eq!(store.unlocks[0].unlocktime, Some(1234));
    store.merge_achievements(7, &vec![progress("A", 1, 0)], &vec![schema("A", "Alpha")]);
    assert_eq!(store.unlocks[0].unlocktime, Some(1234));
    assert!(store.unlocks[0].achieved);
    store.merge_achievements(7, &vec![progress("A", 1, 2000)], &vec![schema("A", "Alpha")]);
    assert_eq!(store.unlocks[0].unlocktime, Some(2000));
}

#[test]
fn schema_decides_which_achievements_exist() {
    let mut store = Store::new();
    let p = vec![progress("A", 1, 10), progress("Stray", 1, 20)];
    let s = vec![schema("A", "Alpha"), schema("B", "Beta")];
    let r = store.merge_achievements(3, &p, &s);
    assert_eq!(r.total_count, 2);
    assert_eq!(r.unlocked_count, 1);
    let names: Vec<&str> = store.unlocks.iter().map(|u| u.apiname.as_str()).collect();
    assert_eq!(names, vec!["A", "B"]);
    assert!(!store.unlocks[1].achieved);
    assert_eq!(store.unlocks[1].unlocktime, None);
}

#[test]
fn schema_entries_are_overwritten_by_fresh_data() {
    let mut store = Store::new();
    store.merge_achievements(3, &vec![], &vec![schema("A", "Old title")]);
    store.merge_achievements(3, &vec![], &vec![schema("A", "New title")]);
    assert_eq!(store.schemas.len(), 1);
    assert_eq!(store.schemas[0].display_name, "New title");
    assert_eq!(store.schemas[0].icon_gray, "A_gray.jpg");
}

#[test]
fn same_api_name_in_two_games_is_two_rows() {
    let mut store = Store::new();
    store.merge_achievements(1, &vec![progress("A", 1, 5)], &vec![schema("A", "Alpha")]);
    store.merge_achievements(2, &vec![progress("A", 0, 0)], &vec![schema("A", "Alpha")]);
    assert_eq!(store.unlocks.len(), 2);
    assert!(store.unlocks[0].achieved);
    assert!(!store.unlocks[1].achieved);
}

#[test]
fn first_play_recorded_once_when_playtime_leaves_zero() {
    let mut store = Store::new();
    assert_eq!(store.upsert_game(&owned(5, 0, None), 100), Ok(true));
    assert!(store.first_plays.is_empty());
    assert_eq!(store.upsert_game(&owned(5, 30, Some(4242)), 200), Ok(false));
    assert_eq!(store.first_plays.len(), 1);
    assert_eq!(store.first_plays[0].appid, 5);
    assert_eq!(store.first_plays[0].played_at, 4242);
    assert_eq!(store.upsert_game(&owned(5, 30, Some(4242)), 300), Ok(false));
    assert_eq!(store.first_plays.len(), 1);
}

#[test]
fn first_play_without_last_played_time_uses_now() {
    let mut store = Store::new();
    store.upsert_game(&owned(5, 0, None), 100).unwrap();
    store.upsert_game(&owned(5, 1, None), 250).unwrap();
    assert_eq!(store.first_plays[0].played_at, 250);
}

#[test]
fn new_game_with_playtime_is_no_first_play() {
    let mut store = Store::new();
    store.upsert_game(&owned(5, 60, Some(10)), 100).unwrap();
    assert!(store.first_plays.is_empty());
}

#[test]
fn upsert_keeps_first_seen_time_and_achievement_fields() {
    let mut store = Store::new();
    store.upsert_game(&owned(5, 0, None), 100).unwrap();
    store.update_game_achievement_counts(5, 12, 4, 150);
    store.upsert_game(&owned(5, 90, Some(170)), 200).unwrap();
    let games = store.get_all_games();
    let g = &games[0];
    assert_eq!(g.added_at, 100);
    assert_eq!(g.playtime_forever, 90);
    assert_eq!(g.rtime_last_played, Some(170));
    assert_eq!(g.achievements_total, Some(12));
    assert_eq!(g.achievements_unlocked, Some(4));
    assert_eq!(g.last_achievement_scrape, Some(150));
    assert_eq!(store.get_all_games().len(), 1);
}

#[test]
fn zero_achievement_game_leaves_never_scraped_list() {
    let mut store = Store::new();
    store.upsert_game(&owned(1, 5, None), 1).unwrap();
    store.upsert_game(&owned(2, 5, None), 1).unwrap();
    assert_eq!(store.get_games_never_scraped().len(), 2);
    store.mark_game_zero_achievements(1, 9);
    let left = store.get_games_never_scraped();
    assert_eq!(left.len(), 1);
    assert_eq!(left[0].appid, 2);
    let games = store.get_all_games();
    let g = &games[0];
    assert_eq!(g.achievements_total, Some(0));
    assert_eq!(g.last_achievement_scrape, Some(9));
}

#[test]
fn counts_for_unknown_game_change_nothing() {
    let mut store = Store::new();
    store.upsert_game(&owned(1, 5, None), 1).unwrap();
    store.update_game_achievement_counts(99, 3, 3, 5);
    assert_eq!(store.get_all_games()[0].achievements_total, None);
}

#[test]
fn upsert_games_reports_new_games() {
    let mut store = Store::new();
    let list = vec![owned(1, 0, None), owned(2, 0, None), owned(1, 5, Some(3))];
    assert_eq!(store.upsert_games(&list, 10), Ok(2));
    assert_eq!(store.get_all_games().len(), 2);
    assert_eq!(store.first_plays.len(), 1);
    assert_eq!(store.count_unplayed(), 1);
}

#[test]
fn last_update_time_is_recorded() {
    let mut store = Store::new();
    assert_eq!(store.get_last_update_timestamp(), None);
    store.record_last_update_timestamp(55);
    assert_eq!(store.get_last_update_timestamp(), Some(55));
}

#[test]
fn recently_played_selection_keeps_store_order() {
    let mut store = Store::new();
    store.upsert_games(&vec![owned(1, 0, None), owned(2, 0, None), owned(3, 0, None)], 1).unwrap();
    let picked: Vec<u64> = store.get_games_recently_played(&vec![3, 1]).iter().map(|g| g.appid).collect();
    assert_eq!(picked, vec![1, 3]);
}

#[test]
fn never_scraped_games_come_in_name_order() {
    let mut store = Store::new();
    store.upsert_game(&SteamGame { name: "b".to_string(), ..owned(1, 0, None) }, 1).unwrap();
    store.upsert_game(&SteamGame { name: "a".to_string(), ..owned(2, 0, None) }, 1).unwrap();
    let names: Vec<String> = store.get_games_never_scraped().iter().map(|g| g.name.clone()).collect();
    assert_eq!(names, vec!["a", "b"]);
    assert_eq!(store.games[0].name, "b");
}

#[test]
fn well_formed_rejects_repeated_keys() {
    use_store_check();
}

fn use_store_check() {
    let mut store = Store::new();
    store.merge_achievements(1, &vec![progress("A", 1, 5)], &vec![schema("A", "Alpha")]);
    assert!(store.is_well_formed());
    let dup = store.unlocks[0].clone();
    store.unlocks.push(dup);
    assert!(!store.is_well_formed());
    store.unlocks.pop();
    let dup = store.schemas[0].clone();
    store.schemas.push(dup);
    assert!(!store.is_well_formed());
    store.schemas.pop();
    store.upsert_game(&owned(1, 0, None), 1).unwrap();
    let g = store.games[0].clone();
    store.games.push(g);
    assert!(!store.is_well_formed());
}
