use overachiever::models::{Achievement, AchievementSchema, SteamGame};
use overachiever::stats::compute_stats;
use overachiever::store::Store;
use overachiever::sync::{
    apply_event, Credentials, FlowKind, SyncAction, SyncInput, SyncSession, SyncState, NOT_AUTHENTICATED_MESSAGE,
    NOT_CONFIGURED_MESSAGE, SERVER_KEY_MISSING_MESSAGE,
};

fn owned(appid: u64, name: &str, playtime: u32, last_played: Option<u32>) -> SteamGame {
    SteamGame {
        appid,
        name: name.to_string(),
        playtime_forever: playtime,
        playtime_windows_forever: None,
        playtime_mac_forever: None,
        playtime_linux_forever: None,
        playtime_deck_forever: None,
        rtime_last_played: last_played,
        img_icon_url: None,
    }
}

fn progress(apiname: &str, achieved: u8, unlocktime: u32) -> Achievement {
    Achievement { apiname: apiname.to_string(), achieved, unlocktime }
}

fn schema(apiname: &str) -> AchievementSchema {
    AchievementSchema {
        name: apiname.to_string(),
        display_name: format!("{} title", apiname),
        description: None,
        icon: format!("{}.jpg", apiname),
        icongray: format!("{}_gray.jpg", apiname),
    }
}

fn terminal_count(events: &[SyncState]) -> usize {
    events
        .iter()
        .filter(|e| matches!(e, SyncState::Done { .. } | SyncState::Error { .. }))
        .count()
}

fn scraping_count(events: &[SyncState]) -> usize {
    events.iter().filter(|e| matches!(e, SyncState::ScrapingAchievements { .. })).count()
}

fn game_updated_count(events: &[SyncState]) -> usize {
    events.iter().filter(|e| matches!(e, SyncState::GameUpdated { .. })).count()
}

/// Runs a session to its end, answering each game fetch from `data`.
fn drive(
    session: &mut SyncSession,
    store: &mut Store,
    owned_games: Vec<SteamGame>,
    recent: Vec<u64>,
    data: &dyn Fn(u64) -> (Option<Vec<Achievement>>, Option<Vec<AchievementSchema>>),
    now: i64,
) -> Vec<u64> {
    let mut scraped = Vec::new();
    loop {
        match session.action() {
            SyncAction::FetchOwnedGames => {
                session.step(store, SyncInput::OwnedGames { games: Ok(owned_games.clone()) }, now)
            }
            SyncAction::FetchRecentlyPlayed => {
                session.step(store, SyncInput::RecentlyPlayed { appids: Ok(recent.clone()) }, now)
            }
            SyncAction::FetchGameData { appid } => {
                scraped.push(appid);
                let (progress, schema) = data(appid);
                session.step(store, SyncInput::GameData { appid, progress, schema }, now);
            }
            SyncAction::Stop => return scraped,
        }
    }
}

fn one_locked(_appid: u64) -> (Option<Vec<Achievement>>, Option<Vec<AchievementSchema>>) {
    (Some(vec![progress("A1", 0, 0)]), Some(vec![schema("A1")]))
}

#[test]
fn update_with_no_recent_games_finishes_without_scraping() {
    let mut store = Store::new();
    let mut session = SyncSession::start(FlowKind::Update, Credentials::Ready);
    let games = vec![owned(1, "One", 0, None), owned(2, "Two", 10, Some(5)), owned(3, "Three", 0, None)];
    let scraped = drive(&mut session, &mut store, games, vec![], &one_locked, 1000);
    assert!(scraped.is_empty());
    let events = session.events();
    assert_eq!(scraping_count(events), 0);
    assert_eq!(events.len(), 3);
    assert!(matches!(events[0], SyncState::FetchingGames));
    assert!(matches!(events[1], SyncState::FetchingRecentlyPlayed));
    match events.last() {
        Some(SyncState::Done { result, .. }) => {
            assert_eq!(result.games_updated, 0);
            assert_eq!(result.new_games, 3);
        }
        _ => panic!("the run must end with Done"),
    }
    assert_eq!(store.run_history.len(), 1);
    assert_eq!(store.run_history[0].total_games, 3);
    assert_eq!(store.run_history[0].unplayed_games, 2);
    assert_eq!(store.last_update, Some(1000));
    assert!(store.achievement_history.is_empty());
}

#[test]
fn full_scan_without_force_scrapes_only_never_scraped() {
    let mut store = Store::new();
    store.upsert_game(&owned(10, "A", 5, None), 1).unwrap();
    store.upsert_game(&owned(20, "B", 5, None), 1).unwrap();
    store.update_game_achievement_counts(20, 1, 0, 50);
    let mut session = SyncSession::start(FlowKind::FullScan { force: false }, Credentials::Ready);
    let games = vec![owned(10, "A", 5, None), owned(20, "B", 5, None)];
    let scraped = drive(&mut session, &mut store, games, vec![], &one_locked, 100);
    assert_eq!(scraped, vec![10]);
}

#[test]
fn full_scan_with_force_scrapes_every_game() {
    let mut store = Store::new();
    store.upsert_game(&owned(10, "A", 5, None), 1).unwrap();
    store.upsert_game(&owned(20, "B", 5, None), 1).unwrap();
    store.update_game_achievement_counts(20, 1, 0, 50);
    let mut session = SyncSession::start(FlowKind::FullScan { force: true }, Credentials::Ready);
    let games = vec![owned(10, "A", 5, None), owned(20, "B", 5, None)];
    let scraped = drive(&mut session, &mut store, games, vec![], &one_locked, 100);
    assert_eq!(scraped, vec![10, 20]);
}

#[test]
fn failed_game_fetch_is_skipped_and_run_completes() {
    let mut store = Store::new();
    let mut session = SyncSession::start(FlowKind::Update, Credentials::Ready);
    let games = vec![owned(1, "G1", 5, None), owned(2, "G2", 5, None), owned(3, "G3", 5, None)];
    let data = |appid: u64| {
        if appid == 2 {
            (None, Some(vec![schema("A1")]))
        } else {
            (Some(vec![progress("A1", 1, 300)]), Some(vec![schema("A1")]))
        }
    };
    let scraped = drive(&mut session, &mut store, games, vec![1, 2, 3], &data, 1000);
    assert_eq!(scraped, vec![1, 2, 3]);
    let events = session.events();
    assert!(matches!(events.last(), Some(SyncState::Done { .. })));
    assert_eq!(terminal_count(events), 1);
    assert_eq!(scraping_count(events), 3);
    assert_eq!(game_updated_count(events), 2);
    let games = store.get_all_games();
    assert_eq!(games[0].last_achievement_scrape, Some(1000));
    assert_eq!(games[1].last_achievement_scrape, None);
    assert_eq!(games[2].last_achievement_scrape, Some(1000));
    assert_eq!(games[0].achievements_unlocked, Some(1));
    assert_eq!(games[1].achievements_total, None);
    match events.last() {
        Some(SyncState::Done { result, .. }) => {
            assert_eq!(result.games_updated, 3);
            assert_eq!(result.achievements_updated, 2);
        }
        _ => panic!("the run must end with Done"),
    }
}

#[test]
fn average_completion_excludes_unplayed_by_default() {
    let mut store = Store::new();
    store.upsert_game(&owned(1, "A", 30, Some(100)), 1).unwrap();
    store.upsert_game(&owned(2, "B", 0, None), 1).unwrap();
    store.update_game_achievement_counts(1, 10, 10, 2);
    store.update_game_achievement_counts(2, 5, 0, 2);
    let excluded = compute_stats(&store.get_all_games(), false);
    let included = compute_stats(&store.get_all_games(), true);
    assert_eq!(excluded.avg_completion_hundredths, 10000);
    assert_eq!(included.avg_completion_hundredths, 5000);
    assert_eq!(excluded.total_achievements, 15);
    assert_eq!(excluded.unlocked_achievements, 10);
    assert_eq!(excluded.games_with_achievements, 2);
    assert_eq!(excluded.games_in_average, 1);
    assert_eq!(included.games_in_average, 2);
}

#[test]
fn average_completion_rounds_down_per_game() {
    let mut store = Store::new();
    store.upsert_game(&owned(1, "A", 30, Some(100)), 1).unwrap();
    store.upsert_game(&owned(2, "B", 30, Some(100)), 1).unwrap();
    store.upsert_game(&owned(3, "C", 30, Some(100)), 1).unwrap();
    store.update_game_achievement_counts(1, 3, 1, 2);
    store.update_game_achievement_counts(2, 3, 2, 2);
    store.update_game_achievement_counts(3, 0, 0, 2);
    let stats = compute_stats(&store.get_all_games(), false);
    // 3333 and 6666 hundredths; the game with none does not count.
    assert_eq!(stats.avg_completion_hundredths, 4999);
    assert_eq!(stats.games_with_achievements, 2);
}

#[test]
fn stats_of_no_games_are_zero() {
    let stats = compute_stats(&Vec::new(), false);
    assert_eq!(stats.avg_completion_hundredths, 0);
    assert_eq!(stats.total_achievements, 0);
    assert_eq!(stats.games_in_average, 0);
}

#[test]
fn every_run_ends_with_one_terminal_event() {
    let mut store = Store::new();
    let mut session = SyncSession::start(FlowKind::FullScan { force: true }, Credentials::Ready);
    let games = vec![owned(1, "One", 5, None), owned(2, "Two", 0, None)];
    drive(&mut session, &mut store, games, vec![], &one_locked, 10);
    let events = session.events();
    assert!(matches!(events[0], SyncState::FetchingGames));
    assert!(matches!(events[1], SyncState::Starting));
    assert!(matches!(events[2], SyncState::ScrapingAchievements { current: 1, total: 2, .. }));
    assert_eq!(events.iter().filter(|e| matches!(e, SyncState::Starting)).count(), 1);
    assert_eq!(terminal_count(events), 1);
    assert!(matches!(events.last(), Some(SyncState::Done { .. })));
    assert!(session.is_finished());
    assert_eq!(session.action(), SyncAction::Stop);
}

#[test]
fn step_after_finish_changes_nothing() {
    let mut store = Store::new();
    let mut session = SyncSession::start(FlowKind::Update, Credentials::Ready);
    drive(&mut session, &mut store, vec![owned(1, "One", 5, None)], vec![], &one_locked, 10);
    let before = session.events().len();
    session.step(&mut store, SyncInput::RecentlyPlayed { appids: Ok(vec![1]) }, 20);
    assert_eq!(session.events().len(), before);
    assert_eq!(store.run_history.len(), 1);
}

#[test]
fn missing_configuration_fails_before_any_fetch() {
    let session = SyncSession::start(FlowKind::Update, Credentials::NotConfigured);
    assert_eq!(session.action(), SyncAction::Stop);
    let events = session.events();
    assert_eq!(events.len(), 1);
    match &events[0] {
        SyncState::Error { message } => assert_eq!(message, NOT_CONFIGURED_MESSAGE),
        _ => panic!("expected an error"),
    }
}

#[test]
fn missing_sign_in_fails_with_its_own_message() {
    let session = SyncSession::start(FlowKind::FullScan { force: false }, Credentials::NotAuthenticated);
    match &session.events()[0] {
        SyncState::Error { message } => assert_eq!(message, NOT_AUTHENTICATED_MESSAGE),
        _ => panic!("expected an error"),
    }
    assert_ne!(NOT_AUTHENTICATED_MESSAGE, NOT_CONFIGURED_MESSAGE);
}

#[test]
fn owned_games_failure_is_fatal_and_writes_no_snapshot() {
    let mut store = Store::new();
    let mut session = SyncSession::start(FlowKind::Update, Credentials::Ready);
    session.step(&mut store, SyncInput::OwnedGames { games: Err("timeout".to_string()) }, 5);
    assert!(session.is_finished());
    match session.events().last() {
        Some(SyncState::Error { message }) => assert_eq!(message, "timeout"),
        _ => panic!("expected an error"),
    }
    assert!(store.run_history.is_empty());
    assert_eq!(store.last_update, None);
}

#[test]
fn recently_played_failure_is_fatal_and_writes_no_snapshot() {
    let mut store = Store::new();
    let mut session = SyncSession::start(FlowKind::Update, Credentials::Ready);
    session.step(&mut store, SyncInput::OwnedGames { games: Ok(vec![owned(1, "One", 5, None)]) }, 5);
    assert_eq!(session.action(), SyncAction::FetchRecentlyPlayed);
    session.step(&mut store, SyncInput::RecentlyPlayed { appids: Err("unavailable".to_string()) }, 6);
    assert!(session.is_finished());
    assert!(matches!(session.events().last(), Some(SyncState::Error { .. })));
    assert_eq!(terminal_count(session.events()), 1);
    assert!(store.run_history.is_empty());
    assert_eq!(store.get_all_games().len(), 1);
}

#[test]
fn answer_to_another_action_is_ignored() {
    let mut store = Store::new();
    let mut session = SyncSession::start(FlowKind::Update, Credentials::Ready);
    session.step(&mut store, SyncInput::RecentlyPlayed { appids: Ok(vec![1]) }, 5);
    assert_eq!(session.action(), SyncAction::FetchOwnedGames);
    assert_eq!(session.events().len(), 1);
    assert!(store.run_history.is_empty());
}

#[test]
fn update_scrapes_only_recent_owned_games_in_store_order() {
    let mut store = Store::new();
    let mut session = SyncSession::start(FlowKind::Update, Credentials::Ready);
    let games = vec![owned(1, "One", 5, None), owned(2, "Two", 5, None), owned(3, "Three", 5, None)];
    let scraped = drive(&mut session, &mut store, games, vec![3, 99, 1], &one_locked, 7);
    assert_eq!(scraped, vec![1, 3]);
    let progress_events: Vec<(u32, u32, String)> = session
        .events()
        .iter()
        .filter_map(|e| match e {
            SyncState::ScrapingAchievements { current, total, game_name } => {
                Some((*current, *total, game_name.clone()))
            }
            _ => None,
        })
        .collect();
    assert_eq!(progress_events, vec![(1, 2, "One".to_string()), (2, 2, "Three".to_string())]);
    assert_eq!(store.achievement_history.len(), 1);
    assert_eq!(store.achievement_history[0].total_achievements, 2);
    assert_eq!(store.achievement_history[0].avg_completion_hundredths, 0);
}

#[test]
fn empty_schema_marks_game_as_having_none() {
    let mut store = Store::new();
    let mut session = SyncSession::start(FlowKind::FullScan { force: false }, Credentials::Ready);
    let data = |_appid: u64| (Some(Vec::new()), Some(Vec::new()));
    drive(&mut session, &mut store, vec![owned(4, "Empty", 5, None)], vec![], &data, 77);
    let games = store.get_all_games();
    let game = &games[0];
    assert_eq!(game.achievements_total, Some(0));
    assert_eq!(game.achievements_unlocked, Some(0));
    assert_eq!(game.last_achievement_scrape, Some(77));
    assert!(store.get_games_never_scraped().is_empty());
    // A run that merged only games without achievements takes no snapshot.
    assert!(store.achievement_history.is_empty());
    let mut again = SyncSession::start(FlowKind::FullScan { force: false }, Credentials::Ready);
    let scraped = drive(&mut again, &mut store, vec![owned(4, "Empty", 5, None)], vec![], &data, 78);
    assert!(scraped.is_empty());
}

#[test]
fn new_games_counts_games_added_by_the_run() {
    let mut store = Store::new();
    store.upsert_game(&owned(1, "Old", 5, None), 1).unwrap();
    let mut session = SyncSession::start(FlowKind::Update, Credentials::Ready);
    drive(&mut session, &mut store, vec![owned(1, "Old", 6, None), owned(2, "New", 0, None)], vec![], &one_locked, 9);
    match session.events().last() {
        Some(SyncState::Done { result, .. }) => assert_eq!(result.new_games, 1),
        _ => panic!("the run must end with Done"),
    }
}

#[test]
fn game_updated_event_refreshes_a_displayed_list() {
    let mut store = Store::new();
    store.upsert_games(&vec![owned(1, "One", 5, None), owned(2, "Two", 5, None)], 1).unwrap();
    let mut shown = store.get_all_games();
    apply_event(&mut shown, &SyncState::GameUpdated { appid: 2, unlocked: 3, total: 8 }, 40);
    assert_eq!(shown[1].achievements_unlocked, Some(3));
    assert_eq!(shown[1].achievements_total, Some(8));
    assert_eq!(shown[1].last_achievement_scrape, Some(40));
    assert_eq!(shown[0].achievements_total, None);
    apply_event(&mut shown, &SyncState::FetchingGames, 50);
    assert_eq!(shown[1].last_achievement_scrape, Some(40));
}

#[test]
fn update_skips_recent_games_missing_from_the_owned_list() {
    let mut store = Store::new();
    store.upsert_game(&owned(5, "Gone", 5, None), 1).unwrap();
    let mut session = SyncSession::start(FlowKind::Update, Credentials::Ready);
    let games = vec![owned(1, "One", 5, None)];
    let scraped = drive(&mut session, &mut store, games, vec![5, 1], &one_locked, 7);
    assert_eq!(scraped, vec![1]);
}

#[test]
fn scans_visit_games_in_name_order() {
    let mut store = Store::new();
    let mut session = SyncSession::start(FlowKind::FullScan { force: false }, Credentials::Ready);
    let games = vec![owned(1, "b", 5, None), owned(2, "a", 5, None), owned(3, "C", 5, None)];
    let scraped = drive(&mut session, &mut store, games, vec![], &one_locked, 7);
    assert_eq!(scraped, vec![3, 2, 1]);
    let names: Vec<String> = store.get_all_games().iter().map(|g| g.name.clone()).collect();
    assert_eq!(names, vec!["C", "a", "b"]);
}

#[test]
fn failed_last_game_still_counts_as_scanned() {
    let mut store = Store::new();
    let mut session = SyncSession::start(FlowKind::FullScan { force: true }, Credentials::Ready);
    let games = vec![owned(1, "G1", 5, None), owned(2, "G2", 5, None)];
    let data = |appid: u64| {
        if appid == 2 {
            (Some(vec![progress("A1", 1, 3)]), None)
        } else {
            (Some(vec![progress("A1", 1, 3)]), Some(vec![schema("A1")]))
        }
    };
    drive(&mut session, &mut store, games, vec![], &data, 9);
    match session.events().last() {
        Some(SyncState::Done { result, .. }) => {
            assert_eq!(result.games_updated, 2);
            assert_eq!(result.achievements_updated, 2);
        }
        _ => panic!("the run must end with Done"),
    }
}

#[test]
fn done_carries_the_stored_games_in_name_order() {
    let mut store = Store::new();
    let mut session = SyncSession::start(FlowKind::FullScan { force: false }, Credentials::Ready);
    let games = vec![owned(1, "Zeta", 5, None), owned(2, "Alpha", 5, None)];
    drive(&mut session, &mut store, games, vec![], &one_locked, 12);
    match session.events().last() {
        Some(SyncState::Done { games, .. }) => {
            let names: Vec<&str> = games.iter().map(|g| g.name.as_str()).collect();
            assert_eq!(names, vec!["Alpha", "Zeta"]);
            assert!(games.iter().all(|g| g.last_achievement_scrape == Some(12)));
            assert!(games.iter().all(|g| g.achievements_total == Some(1)));
        }
        _ => panic!("the run must end with Done"),
    }
}

#[test]
fn missing_server_key_fails_with_the_server_message() {
    let session = SyncSession::start(FlowKind::Update, Credentials::ServerKeyMissing);
    assert_eq!(session.action(), SyncAction::Stop);
    match &session.events()[0] {
        SyncState::Error { message } => assert_eq!(message, "Steam API key not configured on server"),
        _ => panic!("expected an error"),
    }
    assert_eq!(SERVER_KEY_MISSING_MESSAGE, "Steam API key not configured on server");
    assert_eq!(NOT_CONFIGURED_MESSAGE, "Please configure steam_web_api_key and steam_id in config.toml");
}
