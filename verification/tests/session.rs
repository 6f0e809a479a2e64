use agent_os::session::{SessionConfig, SessionManager};
use std::collections::HashMap;

#[test]
fn test_session_manager_creation() {
    let manager = SessionManager::new();
    assert_eq!(manager.list_sessions().len(), 0);
}

#[test]
fn test_session_creation_and_management() {
    let mut manager = SessionManager::new();

    // Create a session
    let session_id = manager.create_session(Some("user123".to_string())).unwrap();
    assert!(!session_id.is_empty());

    // Get the session
    let session = manager.get_session(&session_id).unwrap();
    assert_eq!(session.user_id, Some("user123".to_string()));
    assert_eq!(session.tabs.len(), 0);
    assert!(session.active_tab.is_none());

    // Touch the session
    manager.touch_session(&session_id).unwrap();

    // Create a tab
    let tab_id = manager
        .create_tab(&session_id, "Test Tab".to_string(), "terminal".to_string(), None, HashMap::new())
        .unwrap();
    assert!(!tab_id.is_empty());

    // Check session has the tab
    let session = manager.get_session(&session_id).unwrap();
    assert_eq!(session.tabs.len(), 1);
    assert_eq!(session.tabs[0], tab_id);

    // Set tab as active
    manager.set_active_tab(&session_id, &tab_id).unwrap();

    // Check active tab
    let active_tab = manager.get_active_tab(&session_id).unwrap();
    assert_eq!(active_tab.id, tab_id);
    assert!(active_tab.is_active);

    // Close the tab
    manager.close_tab(&tab_id).unwrap();

    // Check session no longer has the tab
    let session = manager.get_session(&session_id).unwrap();
    assert_eq!(session.tabs.len(), 0);
    assert!(session.active_tab.is_none());
}

#[test]
fn ids_are_numbered() {
    let mut m = SessionManager::new();
    assert_eq!(m.create_session_at(None, 100).unwrap(), "session-0");
    assert_eq!(m.create_session_at(None, 100).unwrap(), "session-1");
    let t = m
        .create_tab_at("session-0", "a".to_string(), "browser".to_string(), None, HashMap::new(), 101)
        .unwrap();
    assert_eq!(t, "tab-0");
    let s = m.get_session("session-0").unwrap();
    assert_eq!(s.created_at, 100);
    assert_eq!(s.last_accessed, 101);
    let tab = m.get_tab("tab-0").unwrap();
    assert_eq!(tab.session_id, "session-0");
    assert_eq!(tab.title, "a");
    assert_eq!(tab.component_type, "browser");
    assert_eq!(tab.created_at, 101);
    assert!(!tab.is_active);
}

#[test]
fn errors_name_what_is_missing() {
    let mut m = SessionManager::new();
    assert_eq!(m.touch_session_at("nope", 5).unwrap_err(), "Session nope not found");
    assert_eq!(
        m.create_tab_at("nope", "t".to_string(), "c".to_string(), None, HashMap::new(), 5).unwrap_err(),
        "Session nope not found"
    );
    let s = m.create_session_at(None, 1).unwrap();
    assert_eq!(m.set_active_tab_at("nope", "tab-0", 2).unwrap_err(), "Session nope not found");
    assert_eq!(m.set_active_tab_at(&s, "tab-9", 2).unwrap_err(), "Tab tab-9 not found");
    assert_eq!(m.close_tab_at("tab-9", 2).unwrap_err(), "Tab tab-9 not found");
    let other = m.create_session_at(None, 1).unwrap();
    let t = m.create_tab_at(&other, "t".to_string(), "c".to_string(), None, HashMap::new(), 3).unwrap();
    assert_eq!(
        m.set_active_tab_at(&s, &t, 4).unwrap_err(),
        "Tab tab-0 does not belong to session session-0"
    );
}

#[test]
fn tab_limit_is_enforced() {
    let mut m = SessionManager::with_config(SessionConfig {
        timeout_minutes: 30,
        max_tabs_per_session: 2,
        allow_tab_restore: true,
    });
    let s = m.create_session_at(None, 0).unwrap();
    m.create_tab_at(&s, "1".to_string(), "c".to_string(), None, HashMap::new(), 0).unwrap();
    m.create_tab_at(&s, "2".to_string(), "c".to_string(), None, HashMap::new(), 0).unwrap();
    assert_eq!(
        m.create_tab_at(&s, "3".to_string(), "c".to_string(), None, HashMap::new(), 0).unwrap_err(),
        "Session session-0 has exceeded maximum tabs limit"
    );
    assert_eq!(m.list_session_tabs(&s).len(), 2);
}

#[test]
fn activating_a_tab_deactivates_the_others() {
    let mut m = SessionManager::new();
    let s = m.create_session_at(None, 0).unwrap();
    let a = m.create_tab_at(&s, "a".to_string(), "c".to_string(), None, HashMap::new(), 1).unwrap();
    let b = m.create_tab_at(&s, "b".to_string(), "c".to_string(), None, HashMap::new(), 2).unwrap();
    m.set_active_tab_at(&s, &a, 3).unwrap();
    m.set_active_tab_at(&s, &b, 4).unwrap();
    assert!(!m.get_tab(&a).unwrap().is_active);
    assert!(m.get_tab(&b).unwrap().is_active);
    assert_eq!(m.get_tab(&b).unwrap().last_accessed, 4);
    assert_eq!(m.get_active_tab(&s).unwrap().id, b);
    assert_eq!(m.get_session(&s).unwrap().last_accessed, 4);
}

#[test]
fn closing_the_active_tab_promotes_the_first_remaining() {
    let mut m = SessionManager::new();
    let s = m.create_session_at(None, 0).unwrap();
    let a = m.create_tab_at(&s, "a".to_string(), "c".to_string(), None, HashMap::new(), 1).unwrap();
    let b = m.create_tab_at(&s, "b".to_string(), "c".to_string(), None, HashMap::new(), 1).unwrap();
    let c = m.create_tab_at(&s, "c".to_string(), "c".to_string(), None, HashMap::new(), 1).unwrap();
    m.set_active_tab_at(&s, &b, 2).unwrap();
    m.close_tab_at(&b, 3).unwrap();
    assert_eq!(m.list_session_tabs(&s), vec![a.clone(), c.clone()]);
    assert_eq!(m.get_session(&s).unwrap().active_tab, Some(a.clone()));
    assert!(m.get_tab(&a).unwrap().is_active);
    assert!(m.get_tab(&b).is_none());
    // closing a tab that is not active leaves the active one
    m.close_tab_at(&c, 4).unwrap();
    assert_eq!(m.get_session(&s).unwrap().active_tab, Some(a));
    assert_eq!(m.get_session(&s).unwrap().last_accessed, 4);
}

#[test]
fn destroying_a_session_removes_its_tabs() {
    let mut m = SessionManager::new();
    let s = m.create_session_at(None, 0).unwrap();
    let keep = m.create_session_at(None, 0).unwrap();
    let t = m.create_tab_at(&s, "a".to_string(), "c".to_string(), None, HashMap::new(), 1).unwrap();
    let u = m.create_tab_at(&keep, "b".to_string(), "c".to_string(), None, HashMap::new(), 1).unwrap();
    assert!(m.destroy_session(&s).is_ok());
    assert!(m.get_session(&s).is_none());
    assert!(m.get_tab(&t).is_none());
    assert!(m.get_tab(&u).is_some());
    assert!(m.list_session_tabs(&s).is_empty());
    assert_eq!(m.list_sessions(), vec![keep]);
    // destroying an unknown session is fine
    assert!(m.destroy_session("nope").is_ok());
}

#[test]
fn cleanup_removes_sessions_idle_past_the_timeout() {
    let mut m = SessionManager::with_config(SessionConfig {
        timeout_minutes: 1,
        max_tabs_per_session: 10,
        allow_tab_restore: false,
    });
    let old = m.create_session_at(None, 0).unwrap();
    let fresh = m.create_session_at(None, 100).unwrap();
    let t = m.create_tab_at(&old, "a".to_string(), "c".to_string(), None, HashMap::new(), 0).unwrap();
    // 60 seconds idle is not yet past a one-minute timeout
    assert_eq!(m.cleanup_expired_sessions_at(60), 0);
    assert_eq!(m.cleanup_expired_sessions_at(61), 1);
    assert!(m.get_session(&old).is_none());
    assert!(m.get_tab(&t).is_none());
    assert!(m.get_session(&fresh).is_some());
    // a session touched after `now` has not expired
    assert_eq!(m.cleanup_expired_sessions_at(50), 0);
    assert_eq!(m.list_sessions(), vec![fresh]);
}

#[test]
fn config_can_be_replaced() {
    let mut m = SessionManager::new();
    assert_eq!(m.get_config().timeout_minutes, 30);
    assert_eq!(m.get_config().max_tabs_per_session, 10);
    assert!(m.get_config().allow_tab_restore);
    m.set_config(SessionConfig { timeout_minutes: 5, max_tabs_per_session: 1, allow_tab_restore: false });
    assert_eq!(m.get_config().timeout_minutes, 5);
    assert_eq!(m.get_config().max_tabs_per_session, 1);
}

#[test]
fn new_tab_ids_are_never_existing_ids() {
    let mut m = SessionManager::new();
    let a = m.create_session_at(None, 100).unwrap();
    let b = m.create_session_at(None, 100).unwrap();
    let mut seen: Vec<String> = Vec::new();
    for i in 0..4 {
        let s = if i % 2 == 0 { &a } else { &b };
        let t = m.create_tab_at(s, "t".to_string(), "terminal".to_string(), None, HashMap::new(), 100).unwrap();
        assert!(m.get_tab(&t).is_some());
        assert!(!seen.contains(&t));
        seen.push(t);
    }
    m.close_tab_at(&seen[0], 101).unwrap();
    let t = m.create_tab_at(&a, "t".to_string(), "terminal".to_string(), None, HashMap::new(), 102).unwrap();
    assert_eq!(t, "tab-4");
    assert!(!seen.contains(&t));
    let sessions = m.list_sessions();
    assert_eq!(sessions, vec!["session-0".to_string(), "session-1".to_string()]);
}
