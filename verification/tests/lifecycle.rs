use sup_presence::manager::{find_config, SessionManager};
use sup_presence::monitors::{Acquired, MonitorRegistry, Released};
use sup_presence::resolver::{
    BaseConfig, FieldError, FieldFailure, PathType, RichPresenceConfig, SelectedPath,
};
use sup_presence::path::PathError;
use sup_presence::scheduler::{next_delay, MonitorError, PublishError, TickAction, BACKOFF_CAP};
use sup_presence::sessions::{CommandError, SavedConfig, ScanOptions, SessionState};
use sup_presence::tree::{MetadataTree, Scalar};

fn presence(paths: Vec<SelectedPath>) -> RichPresenceConfig {
    RichPresenceConfig {
        base_config: BaseConfig {
            application_id: "app-1".to_string(),
            fields: vec![("details".to_string(), "Working".to_string())],
        },
        selected_paths: paths,
        conditional_patterns: None,
    }
}

fn title_field(default: Option<&str>) -> SelectedPath {
    SelectedPath {
        path_type: PathType::Normal,
        value: "title".to_string(),
        pattern_id: None,
        default_value: default.map(|d| d.to_string()),
    }
}

fn saved(id: &str, executable: &str) -> SavedConfig {
    SavedConfig {
        id: id.to_string(),
        name: format!("profile {}", id),
        executable_name: executable.to_string(),
        discord_app_name: "Editor".to_string(),
        config: presence(vec![title_field(None)]),
        scan_options: ScanOptions { encoded: "{}".to_string() },
        check_interval: 5,
        auto_start_monitoring: false,
        created_at: "2024-01-01".to_string(),
        updated_at: "2024-01-02".to_string(),
    }
}

fn snapshot(title: &str) -> MetadataTree {
    MetadataTree::Mapping(vec![(
        "title".to_string(),
        MetadataTree::Scalar(Scalar::Text(title.to_string())),
    )])
}

fn pair(a: &str, b: &str) -> (String, String) {
    (a.to_string(), b.to_string())
}

#[test]
fn registry_makes_one_monitor_and_shares_it() {
    let mut registry = MonitorRegistry::new();
    assert_eq!(registry.references("a.exe"), 0);
    assert!(!registry.is_live("a.exe"));
    assert_eq!(registry.acquire("a.exe"), Ok(Acquired::Created));
    assert_eq!(registry.acquire("a.exe"), Ok(Acquired::Shared));
    assert_eq!(registry.acquire("a.exe"), Ok(Acquired::Shared));
    assert_eq!(registry.references("a.exe"), 3);
    assert_eq!(registry.acquire("b.exe"), Ok(Acquired::Created));
    assert_eq!(registry.references("b.exe"), 1);
}

#[test]
fn registry_tears_down_with_the_last_reference() {
    let mut registry = MonitorRegistry::new();
    registry.acquire("a.exe").unwrap();
    registry.acquire("a.exe").unwrap();
    registry.acquire("b.exe").unwrap();
    assert_eq!(registry.release("a.exe"), Released::StillShared);
    assert!(registry.is_live("a.exe"));
    assert_eq!(registry.release("a.exe"), Released::TornDown);
    assert!(!registry.is_live("a.exe"));
    assert_eq!(registry.references("a.exe"), 0);
    assert_eq!(registry.release("a.exe"), Released::NotHeld);
    assert_eq!(registry.references("b.exe"), 1);
    assert_eq!(registry.acquire("a.exe"), Ok(Acquired::Created));
}

#[test]
fn registry_release_without_reference_changes_nothing() {
    let mut registry = MonitorRegistry::new();
    assert_eq!(registry.release("a.exe"), Released::NotHeld);
    assert_eq!(registry.references("a.exe"), 0);
}

#[test]
fn names_are_compared_exactly() {
    let mut registry = MonitorRegistry::new();
    registry.acquire("App.exe").unwrap();
    assert_eq!(registry.acquire("app.exe"), Ok(Acquired::Created));
    assert_eq!(registry.references("App.exe"), 1);
}

#[test]
fn finds_a_config_by_id() {
    let configs = vec![saved("a", "a.exe"), saved("b", "b.exe"), saved("a", "other.exe")];
    assert_eq!(find_config(&configs, "b").map(|c| c.executable_name.as_str()), Some("b.exe"));
    assert_eq!(find_config(&configs, "a").map(|c| c.executable_name.as_str()), Some("a.exe"));
    assert!(find_config(&configs, "c").is_none());
}

#[test]
fn create_needs_a_known_config() {
    let mut manager = SessionManager::new();
    let configs = vec![saved("a", "a.exe")];
    assert_eq!(manager.create_session(&configs, "zzz", "t0"), Err(CommandError::ConfigNotFound));
    assert_eq!(manager.session_count(), 0);
}

#[test]
fn a_new_session_is_created_inactive() {
    let mut manager = SessionManager::new();
    let configs = vec![saved("a", "a.exe")];
    let id = manager.create_session(&configs, "a", "t0").unwrap();
    assert_eq!(id, "session-0");
    assert_eq!(manager.session_state(&id), Some(SessionState::Created));
    let status = manager.get_session_status(&id).unwrap();
    assert_eq!(status.id, "session-0");
    assert_eq!(status.config_id, "a");
    assert_eq!(status.executable_name, "a.exe");
    assert_eq!(status.discord_application_id, "app-1");
    assert_eq!(status.discord_app_name, "Editor");
    assert!(!status.is_active);
    assert_eq!(status.last_update, "t0");
    assert_eq!(status.current_metadata, None);
    assert_eq!(manager.monitor_references("a.exe"), 0);
    assert!(manager.can_create());
}

#[test]
fn session_ids_are_never_reused() {
    let mut manager = SessionManager::new();
    let configs = vec![saved("a", "a.exe")];
    let mut seen = Vec::new();
    for _ in 0..12 {
        let id = manager.create_session(&configs, "a", "t0").unwrap();
        assert!(!seen.contains(&id));
        seen.push(id);
    }
    assert_eq!(seen[10], "session-10");
    assert_eq!(manager.remove_session("session-3"), Ok(()));
    let id = manager.create_session(&configs, "a", "t0").unwrap();
    assert_eq!(id, "session-12");
    assert_eq!(manager.session_count(), 12);
}

#[test]
fn starting_twice_is_starting_once() {
    let mut manager = SessionManager::new();
    let configs = vec![saved("a", "a.exe")];
    let id = manager.create_session(&configs, "a", "t0").unwrap();
    assert_eq!(manager.start_session(&id), Ok(Acquired::Created));
    assert_eq!(manager.session_state(&id), Some(SessionState::Active));
    assert!(manager.get_session_status(&id).unwrap().is_active);
    assert_eq!(manager.monitor_references("a.exe"), 1);
    assert_eq!(manager.start_session(&id), Err(CommandError::AlreadyActive));
    assert_eq!(manager.session_state(&id), Some(SessionState::Active));
    assert_eq!(manager.monitor_references("a.exe"), 1);
    assert_eq!(manager.session_count(), 1);
}

#[test]
fn creating_for_a_config_with_an_active_session_gives_that_session() {
    let mut manager = SessionManager::new();
    let configs = vec![saved("a", "a.exe"), saved("b", "a.exe")];
    let first = manager.create_session(&configs, "a", "t0").unwrap();
    manager.start_session(&first).unwrap();
    assert_eq!(manager.create_session(&configs, "a", "t1"), Ok(first.clone()));
    assert_eq!(manager.session_count(), 1);
    let other = manager.create_session(&configs, "b", "t1").unwrap();
    assert_ne!(other, first);
    manager.stop_session(&first).unwrap();
    let again = manager.create_session(&configs, "a", "t2").unwrap();
    assert_ne!(again, first);
    assert_eq!(manager.session_count(), 3);
}

#[test]
fn unknown_sessions_are_reported() {
    let mut manager = SessionManager::new();
    assert_eq!(manager.start_session("session-9"), Err(CommandError::SessionNotFound));
    assert_eq!(manager.stop_session("session-9"), Err(CommandError::SessionNotFound));
    assert_eq!(manager.remove_session("session-9"), Err(CommandError::SessionNotFound));
    assert_eq!(manager.get_session_status("session-9"), Err(CommandError::SessionNotFound));
    assert_eq!(manager.session_state("session-9"), None);
    assert_eq!(manager.poll_failures("session-9"), None);
}

#[test]
fn an_active_session_cannot_be_removed() {
    let mut manager = SessionManager::new();
    let configs = vec![saved("a", "a.exe")];
    let id = manager.create_session(&configs, "a", "t0").unwrap();
    manager.start_session(&id).unwrap();
    assert_eq!(manager.remove_session(&id), Err(CommandError::StillActive));
    assert_eq!(manager.session_state(&id), Some(SessionState::Active));
    assert_eq!(manager.monitor_references("a.exe"), 1);
    assert_eq!(manager.stop_session(&id), Ok(Released::TornDown));
    assert_eq!(manager.session_state(&id), Some(SessionState::Paused));
    assert_eq!(manager.monitor_references("a.exe"), 0);
    assert_eq!(manager.remove_session(&id), Ok(()));
    assert_eq!(manager.session_state(&id), None);
    assert_eq!(manager.monitor_references("a.exe"), 0);
    assert_eq!(manager.session_count(), 0);
}

#[test]
fn a_created_session_can_be_removed() {
    let mut manager = SessionManager::new();
    let configs = vec![saved("a", "a.exe")];
    let id = manager.create_session(&configs, "a", "t0").unwrap();
    assert_eq!(manager.remove_session(&id), Ok(()));
    assert_eq!(manager.remove_session(&id), Err(CommandError::SessionNotFound));
}

#[test]
fn stopping_an_inactive_session_releases_nothing() {
    let mut manager = SessionManager::new();
    let configs = vec![saved("a", "a.exe"), saved("b", "a.exe")];
    let a = manager.create_session(&configs, "a", "t0").unwrap();
    let b = manager.create_session(&configs, "b", "t0").unwrap();
    manager.start_session(&b).unwrap();
    assert_eq!(manager.stop_session(&a), Ok(Released::NotHeld));
    assert_eq!(manager.session_state(&a), Some(SessionState::Created));
    assert_eq!(manager.monitor_references("a.exe"), 1);
    manager.start_session(&a).unwrap();
    manager.stop_session(&a).unwrap();
    assert_eq!(manager.stop_session(&a), Ok(Released::NotHeld));
    assert_eq!(manager.monitor_references("a.exe"), 1);
}

#[test]
fn two_sessions_share_one_monitor() {
    let mut manager = SessionManager::new();
    let configs = vec![saved("a", "shared.exe"), saved("b", "shared.exe"), saved("c", "own.exe")];
    let a = manager.create_session(&configs, "a", "t0").unwrap();
    let b = manager.create_session(&configs, "b", "t0").unwrap();
    let c = manager.create_session(&configs, "c", "t0").unwrap();
    assert_eq!(manager.start_session(&a), Ok(Acquired::Created));
    assert_eq!(manager.start_session(&b), Ok(Acquired::Shared));
    assert_eq!(manager.start_session(&c), Ok(Acquired::Created));
    assert_eq!(manager.monitor_references("shared.exe"), 2);
    assert_eq!(manager.stop_session(&a), Ok(Released::StillShared));
    assert_eq!(manager.monitor_references("shared.exe"), 1);
    assert_eq!(manager.session_state(&b), Some(SessionState::Active));
    assert_eq!(manager.monitor_references("own.exe"), 1);
    assert_eq!(manager.stop_session(&b), Ok(Released::TornDown));
    assert_eq!(manager.monitor_references("shared.exe"), 0);
    assert_eq!(manager.start_session(&a), Ok(Acquired::Created));
}

#[test]
fn a_paused_session_starts_again() {
    let mut manager = SessionManager::new();
    let configs = vec![saved("a", "a.exe")];
    let id = manager.create_session(&configs, "a", "t0").unwrap();
    manager.start_session(&id).unwrap();
    manager.stop_session(&id).unwrap();
    assert_eq!(manager.start_session(&id), Ok(Acquired::Created));
    assert_eq!(manager.session_state(&id), Some(SessionState::Active));
}

#[test]
fn backoff_doubles_up_to_the_cap() {
    assert_eq!(BACKOFF_CAP, 8);
    assert_eq!(next_delay(5, 0), 5);
    assert_eq!(next_delay(5, 1), 10);
    assert_eq!(next_delay(5, 2), 20);
    assert_eq!(next_delay(5, 3), 40);
    assert_eq!(next_delay(5, 4), 40);
    assert_eq!(next_delay(5, u32::MAX), 40);
    assert_eq!(next_delay(0, 0), 1);
    assert_eq!(next_delay(0, 3), 8);
    assert_eq!(next_delay(1, 2), 4);
    assert_eq!(next_delay(u64::MAX, 0), u64::MAX);
    assert_eq!(next_delay(u64::MAX, 1), u64::MAX);
    assert_eq!(next_delay(u64::MAX / 2 + 1, 1), u64::MAX);
    assert_eq!(next_delay(u64::MAX / 8, 3), u64::MAX / 8 * 8);
}

#[test]
fn a_poll_publishes_what_changed() {
    let mut manager = SessionManager::new();
    let configs = vec![saved("a", "a.exe")];
    let config = &configs[0].config;
    let id = manager.create_session(&configs, "a", "t0").unwrap();
    manager.start_session(&id).unwrap();
    let action = manager.on_poll(&id, config, 5, Ok(snapshot("Draft")), "t1");
    let payload = vec![pair("title", "Draft"), pair("details", "Working")];
    assert_eq!(
        action,
        TickAction::Publish { payload: payload.clone(), failures: Vec::new(), delay: 5 }
    );
    let status = manager.get_session_status(&id).unwrap();
    assert_eq!(status.current_metadata, Some(snapshot("Draft")));
    assert_eq!(status.last_update, "t1");
    assert_eq!(manager.on_published(&id, 5, payload.clone(), Ok(())), Some(5));
    let action = manager.on_poll(&id, config, 5, Ok(snapshot("Draft")), "t2");
    assert_eq!(action, TickAction::Idle { failures: Vec::new(), delay: 5 });
    assert_eq!(manager.get_session_status(&id).unwrap().last_update, "t2");
    let action = manager.on_poll(&id, config, 5, Ok(snapshot("Final")), "t3");
    assert_eq!(
        action,
        TickAction::Publish {
            payload: vec![pair("title", "Final"), pair("details", "Working")],
            failures: Vec::new(),
            delay: 5
        }
    );
}

#[test]
fn a_refused_update_is_sent_again() {
    let mut manager = SessionManager::new();
    let configs = vec![saved("a", "a.exe")];
    let config = &configs[0].config;
    let id = manager.create_session(&configs, "a", "t0").unwrap();
    manager.start_session(&id).unwrap();
    let payload = vec![pair("title", "Draft"), pair("details", "Working")];
    manager.on_poll(&id, config, 5, Ok(snapshot("Draft")), "t1");
    assert_eq!(
        manager.on_published(&id, 5, payload.clone(), Err(PublishError::RateLimited)),
        Some(10)
    );
    assert_eq!(
        manager.on_published(&id, 5, payload.clone(), Err(PublishError::Disconnected)),
        Some(20)
    );
    assert_eq!(manager.session_state(&id), Some(SessionState::Active));
    let action = manager.on_poll(&id, config, 5, Ok(snapshot("Draft")), "t2");
    assert_eq!(
        action,
        TickAction::Publish { payload: payload.clone(), failures: Vec::new(), delay: 5 }
    );
    assert_eq!(manager.on_published(&id, 5, payload.clone(), Ok(())), Some(5));
    assert_eq!(
        manager.on_published(&id, 5, payload, Err(PublishError::Other("refused".to_string()))),
        Some(10)
    );
}

#[test]
fn a_failed_poll_backs_off_and_keeps_the_session() {
    let mut manager = SessionManager::new();
    let configs = vec![saved("a", "a.exe")];
    let config = &configs[0].config;
    let id = manager.create_session(&configs, "a", "t0").unwrap();
    manager.start_session(&id).unwrap();
    manager.on_poll(&id, config, 5, Ok(snapshot("Draft")), "t1");
    let action = manager.on_poll(&id, config, 5, Err(MonitorError::NotRunning), "t2");
    assert_eq!(action, TickAction::Backoff { delay: 10 });
    let status = manager.get_session_status(&id).unwrap();
    assert_eq!(status.current_metadata, None);
    assert!(status.is_active);
    assert_eq!(status.last_update, "t1");
    assert_eq!(manager.poll_failures(&id), Some(1));
    assert_eq!(
        manager.on_poll(&id, config, 5, Err(MonitorError::Timeout), "t3"),
        TickAction::Backoff { delay: 20 }
    );
    assert_eq!(
        manager.on_poll(&id, config, 5, Err(MonitorError::Other("lost".to_string())), "t4"),
        TickAction::Backoff { delay: 40 }
    );
    assert_eq!(
        manager.on_poll(&id, config, 5, Err(MonitorError::Timeout), "t5"),
        TickAction::Backoff { delay: 40 }
    );
    assert_eq!(manager.poll_failures(&id), Some(4));
    assert_eq!(manager.session_state(&id), Some(SessionState::Active));
    assert_eq!(manager.monitor_references("a.exe"), 1);
    manager.on_poll(&id, config, 5, Ok(snapshot("Draft")), "t6");
    assert_eq!(manager.poll_failures(&id), Some(0));
}

#[test]
fn a_poll_reports_the_fields_that_failed() {
    let mut manager = SessionManager::new();
    let configs = vec![saved("a", "a.exe")];
    let config = &configs[0].config;
    let id = manager.create_session(&configs, "a", "t0").unwrap();
    manager.start_session(&id).unwrap();
    let empty = MetadataTree::Mapping(Vec::new());
    let action = manager.on_poll(&id, config, 5, Ok(empty), "t1");
    assert_eq!(
        action,
        TickAction::Publish {
            payload: vec![pair("details", "Working")],
            failures: vec![FieldFailure {
                field: "title".to_string(),
                error: FieldError::Path(PathError::NotFound)
            }],
            delay: 5
        }
    );
}

#[test]
fn reports_for_a_session_that_is_not_active_end_the_loop() {
    let mut manager = SessionManager::new();
    let configs = vec![saved("a", "a.exe")];
    let config = &configs[0].config;
    let id = manager.create_session(&configs, "a", "t0").unwrap();
    assert_eq!(manager.on_poll(&id, config, 5, Ok(snapshot("x")), "t1"), TickAction::Stop);
    assert_eq!(manager.get_session_status(&id).unwrap().current_metadata, None);
    assert_eq!(manager.on_published(&id, 5, Vec::new(), Ok(())), None);
    assert_eq!(manager.on_poll("session-77", config, 5, Ok(snapshot("x")), "t1"), TickAction::Stop);
    manager.start_session(&id).unwrap();
    manager.on_poll(&id, config, 5, Ok(snapshot("kept")), "t2");
    manager.stop_session(&id).unwrap();
    assert_eq!(manager.on_poll(&id, config, 5, Ok(snapshot("late")), "t3"), TickAction::Stop);
    let status = manager.get_session_status(&id).unwrap();
    assert_eq!(status.current_metadata, Some(snapshot("kept")));
    assert_eq!(status.last_update, "t2");
}

#[test]
fn a_restart_publishes_again() {
    let mut manager = SessionManager::new();
    let configs = vec![saved("a", "a.exe")];
    let config = &configs[0].config;
    let id = manager.create_session(&configs, "a", "t0").unwrap();
    manager.start_session(&id).unwrap();
    let payload = vec![pair("title", "Draft"), pair("details", "Working")];
    manager.on_poll(&id, config, 5, Ok(snapshot("Draft")), "t1");
    manager.on_published(&id, 5, payload.clone(), Ok(()));
    manager.stop_session(&id).unwrap();
    manager.start_session(&id).unwrap();
    let action = manager.on_poll(&id, config, 5, Ok(snapshot("Draft")), "t2");
    assert_eq!(action, TickAction::Publish { payload, failures: Vec::new(), delay: 5 });
}

#[test]
fn a_profile_needs_an_interval() {
    let mut profile = saved("a", "a.exe");
    assert!(profile.is_well_formed());
    profile.check_interval = 0;
    assert!(!profile.is_well_formed());
    profile.check_interval = 1;
    profile.config.selected_paths[0].pattern_id = Some("p".to_string());
    assert!(!profile.is_well_formed());
}
