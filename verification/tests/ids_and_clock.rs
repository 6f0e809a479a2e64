use agent_os::clock::unix_now;
use agent_os::ids::{decimal_string, numbered_id};
use agent_os::text::{join2, join3, join4, same_text};

#[test]
fn decimal_strings() {
    assert_eq!(decimal_string(0), "0");
    assert_eq!(decimal_string(7), "7");
    assert_eq!(decimal_string(10), "10");
    assert_eq!(decimal_string(1234567890), "1234567890");
    assert_eq!(decimal_string(u64::MAX), u64::MAX.to_string());
}

#[test]
fn numbered_ids() {
    assert_eq!(numbered_id("agent-", 0), "agent-0");
    assert_eq!(numbered_id("tab-", 42), "tab-42");
    assert_eq!(numbered_id("", 9), "9");
}

#[test]
fn clock_reads_seconds_since_the_epoch() {
    let before = std::time::SystemTime::now()
        .duration_since(std::time::UNIX_EPOCH)
        .unwrap()
        .as_secs();
    let now = unix_now();
    let after = std::time::SystemTime::now()
        .duration_since(std::time::UNIX_EPOCH)
        .unwrap()
        .as_secs();
    assert!(before <= now && now <= after);
}

#[test]
fn joining_texts() {
    assert_eq!(join2("a", "bc"), "abc");
    assert_eq!(join3("x", "", "z"), "xz");
    assert_eq!(join4("1", "2", "3", "4"), "1234");
    assert!(same_text("nim", "nim"));
    assert!(!same_text("nim", "NIM"));
}
