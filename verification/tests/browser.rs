use agent_os::browser::{escape_single_quotes, BrowserConfig, BrowserManager, BrowserTab};

fn config(url: &str, label: Option<&str>, width: Option<u32>, height: Option<u32>) -> BrowserConfig {
    BrowserConfig {
        url: url.to_string(),
        label: label.map(|l| l.to_string()),
        width,
        height,
        resizable: true,
        fullscreen: false,
        decorations: true,
        always_on_top: false,
    }
}

#[test]
fn test_browser_manager_creation() {
    let manager = BrowserManager::new();
    assert_eq!(manager.len(), 0);
    assert!(manager.is_empty());
}

#[test]
fn test_browser_tab_struct() {
    let tab = BrowserTab {
        id: "test".to_string(),
        url: "https://example.com".to_string(),
        title: "Test Page".to_string(),
        loading: false,
    };
    assert_eq!(tab.id, "test");
    assert_eq!(tab.url, "https://example.com");
    assert_eq!(tab.title, "Test Page");
    assert!(!tab.loading);
}

fn open_at(manager: &mut BrowserManager, url: &str) -> String {
    manager.create_browser(config(url, None, None, None), |_| Ok(())).unwrap()
}

#[test]
fn plan_uses_defaults_and_counts_ids() {
    let mut manager = BrowserManager::new();
    let mut plans = Vec::new();
    let first = manager
        .create_browser(config("https://example.com", None, None, None), |p| {
            plans.push(p);
            Ok(())
        })
        .unwrap();
    assert_eq!(first, "browser-0");
    let second = manager
        .create_browser(config("https://rust-lang.org", Some("docs"), Some(1024), Some(768)), |p| {
            plans.push(p);
            Ok(())
        })
        .unwrap();
    assert_eq!(second, "browser-1");
    let first = &plans[0];
    assert_eq!(first.id, "browser-0");
    assert_eq!(first.label, "browser-0");
    assert_eq!(first.url, "https://example.com");
    assert_eq!(first.title, "Agent OS Browser");
    assert_eq!(first.width, 800);
    assert_eq!(first.height, 600);
    assert!(first.resizable);
    assert!(first.decorations);
    assert!(!first.fullscreen);
    assert!(!first.always_on_top);
    let second = &plans[1];
    assert_eq!(second.id, "browser-1");
    assert_eq!(second.label, "docs");
    assert_eq!(second.width, 1024);
    assert_eq!(second.height, 768);
}

#[test]
fn a_window_that_fails_to_open_leaves_no_tab() {
    let mut manager = BrowserManager::new();
    let err = manager
        .create_browser(config("https://example.com", None, None, None), |_| Err("no display".to_string()))
        .unwrap_err();
    assert_eq!(err, "no display");
    assert!(manager.is_empty());
    // the id was used up all the same
    assert_eq!(open_at(&mut manager, "https://example.com"), "browser-1");
}

#[test]
fn opened_window_is_recorded_as_loading() {
    let mut manager = BrowserManager::new();
    let id = open_at(&mut manager, "https://example.com");
    let tab = manager.get_tab(&id).unwrap();
    assert_eq!(tab.id, "browser-0");
    assert_eq!(tab.url, "https://example.com");
    assert_eq!(tab.title, "Loading...");
    assert!(tab.loading);
    assert_eq!(manager.len(), 1);
    assert_eq!(manager.list_tabs(), vec!["browser-0".to_string()]);
    assert!(manager.has_window("browser-0"));
    assert!(!manager.has_window("browser-1"));
}

#[test]
fn navigation_updates_the_url() {
    let mut manager = BrowserManager::new();
    open_at(&mut manager, "https://a.example");
    manager.update_tab_url("browser-0", "https://b.example".to_string());
    assert_eq!(manager.get_tab("browser-0").unwrap().url, "https://b.example");
    // an unknown id changes nothing
    manager.update_tab_url("browser-9", "https://c.example".to_string());
    assert_eq!(manager.len(), 1);
    assert!(manager.get_tab("browser-9").is_none());
}

#[test]
fn scripts_for_open_windows() {
    let mut manager = BrowserManager::new();
    open_at(&mut manager, "https://a.example");
    assert_eq!(
        manager.navigate("browser-0", "https://b.example").unwrap(),
        "window.location.href = 'https://b.example';"
    );
    assert_eq!(
        manager.navigate("browser-0", "https://x.example/?q='a'").unwrap(),
        "window.location.href = 'https://x.example/?q=\\'a\\'';"
    );
    assert_eq!(manager.reload("browser-0").unwrap(), "window.location.reload();");
    assert_eq!(manager.back("browser-0").unwrap(), "window.history.back();");
    assert_eq!(manager.forward("browser-0").unwrap(), "window.history.forward();");
}

#[test]
fn scripts_for_unknown_windows_fail() {
    let manager = BrowserManager::new();
    assert_eq!(
        manager.navigate("browser-3", "https://b.example").unwrap_err(),
        "Browser window not found: browser-3"
    );
    assert_eq!(manager.reload("nope").unwrap_err(), "Browser window not found: nope");
    assert_eq!(manager.back("nope").unwrap_err(), "Browser window not found: nope");
    assert_eq!(manager.forward("nope").unwrap_err(), "Browser window not found: nope");
}

#[test]
fn closing_removes_the_tab() {
    let mut manager = BrowserManager::new();
    open_at(&mut manager, "https://a.example");
    open_at(&mut manager, "https://b.example");
    assert!(manager.close("browser-0").is_ok());
    assert_eq!(manager.list_tabs(), vec!["browser-1".to_string()]);
    assert!(manager.reload("browser-0").is_err());
    // closing an unknown id is fine and changes nothing
    assert!(manager.close("browser-7").is_ok());
    assert_eq!(manager.len(), 1);
}

#[test]
fn escaping_quotes() {
    assert_eq!(escape_single_quotes("plain"), "plain");
    assert_eq!(escape_single_quotes("it's"), "it\\'s");
    assert_eq!(escape_single_quotes("''"), "\\'\\'");
    assert_eq!(escape_single_quotes(""), "");
    assert_eq!(escape_single_quotes("é'ü"), "é\\'ü");
}

#[test]
fn a_url_that_does_not_parse_is_refused_before_opening() {
    let mut manager = BrowserManager::new();
    let mut opened = false;
    let err = manager
        .create_browser(config("nope", None, None, None), |_| {
            opened = true;
            Ok(())
        })
        .unwrap_err();
    assert_eq!(err, "relative URL without a base");
    assert!(!opened);
    assert!(manager.is_empty());
    let err = manager
        .create_browser(config("http://exa mple.com", None, None, None), |_| Ok(()))
        .unwrap_err();
    assert_eq!(err, "invalid international domain name");
    assert!(manager.is_empty());
    // the ids were used up all the same
    assert_eq!(open_at(&mut manager, "https://example.com"), "browser-2");
}

#[test]
fn a_given_parse_error_is_returned_as_it_is() {
    let mut manager = BrowserManager::new();
    let err = manager
        .create_browser_parsed(config("https://example.com", None, None, None), Err("bad".to_string()), |_| Ok(()))
        .unwrap_err();
    assert_eq!(err, "bad");
    assert!(manager.is_empty());
    let id = manager
        .create_browser_parsed(config("https://example.com", None, None, None), Ok(()), |_| Ok(()))
        .unwrap();
    assert_eq!(id, "browser-1");
    assert_eq!(manager.len(), 1);
}
