use agent_os::terminal::{is_white_char, parse_command_line, split_words, TerminalManager};

#[test]
fn command_line_is_program_and_arguments() {
    let (program, args) = parse_command_line("ls -la /tmp").unwrap();
    assert_eq!(program, "ls");
    assert_eq!(args, vec!["-la".to_string(), "/tmp".to_string()]);
}

#[test]
fn command_line_without_words_is_refused() {
    assert_eq!(parse_command_line("").unwrap_err(), "No command provided");
    assert_eq!(parse_command_line("  \t\n ").unwrap_err(), "No command provided");
}

#[test]
fn command_line_with_program_only() {
    let (program, args) = parse_command_line("  bash  ").unwrap();
    assert_eq!(program, "bash");
    assert!(args.is_empty());
}

#[test]
fn words_split_like_split_whitespace() {
    for line in ["a  b\tc\nd", " lead", "trail ", "x\u{3000}y\u{a0}z", "", "one"] {
        let expected: Vec<String> = line.split_whitespace().map(|s| s.to_string()).collect();
        assert_eq!(split_words(line), expected);
    }
}

#[test]
fn white_space_matches_std() {
    for c in ['\t', '\n', '\u{b}', '\u{c}', '\r', ' ', '\u{85}', '\u{a0}', '\u{1680}', '\u{2000}',
        '\u{200a}', '\u{2028}', '\u{2029}', '\u{202f}', '\u{205f}', '\u{3000}', 'a', '0', '\u{200b}',
        '\u{180e}', '_'] {
        assert_eq!(is_white_char(c), c.is_whitespace(), "{:?}", c);
    }
}

#[test]
fn session_ids_count_up() {
    let mut manager: TerminalManager<u32> = TerminalManager::new();
    let mut seen = Vec::new();
    assert_eq!(manager.create_session(|id| { seen.push(id); Ok(7) }).unwrap(), "term-0");
    assert_eq!(manager.create_session(|id| { seen.push(id); Ok(8) }).unwrap(), "term-1");
    assert_eq!(seen, vec!["term-0".to_string(), "term-1".to_string()]);
    assert_eq!(manager.list_sessions(), vec!["term-0".to_string(), "term-1".to_string()]);
    assert_eq!(manager.get_session("term-1"), Some(&8));
}

#[test]
fn a_failed_start_uses_up_its_id() {
    let mut manager: TerminalManager<u32> = TerminalManager::new();
    assert_eq!(
        manager.create_session(|id| Err(format!("could not start {}", id))).unwrap_err(),
        "could not start term-0"
    );
    assert!(manager.list_sessions().is_empty());
    assert_eq!(manager.create_session(|_| Ok(1)).unwrap(), "term-1");
}

#[test]
fn sessions_are_held_by_id() {
    let mut manager: TerminalManager<&'static str> = TerminalManager::new();
    let a = manager.create_session(|_| Ok("first")).unwrap();
    let b = manager.create_session(|_| Ok("second")).unwrap();
    assert_eq!(manager.get_session("term-0"), Some(&"first"));
    assert_eq!(manager.get_session("term-1"), Some(&"second"));
    assert_eq!(manager.get_session("term-2"), None);
    assert_eq!(manager.list_sessions(), vec![a.clone(), b.clone()]);
    assert!(manager.remove_session("term-0").is_ok());
    assert_eq!(manager.get_session("term-0"), None);
    assert!(manager.remove_session("term-0").is_ok());
    assert_eq!(manager.list_sessions(), vec![b]);
}
