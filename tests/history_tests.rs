use memo::history::{is_white_char, last_history_command};

#[test]
fn plain_history_takes_last_line() {
    assert_eq!(last_history_command("ls\ncd /tmp\ngit status\n"), Some("git status".to_string()));
    assert_eq!(last_history_command("ls\ncd /tmp"), Some("cd /tmp".to_string()));
}

#[test]
fn extended_format_takes_text_after_semicolon() {
    let content = ": 1700000000:0;echo hi\n: 1700000001:0;cargo build --release\n";
    assert_eq!(last_history_command(content), Some("cargo build --release".to_string()));
    assert_eq!(last_history_command(": 1:0;a;b\n"), Some("a;b".to_string()));
    assert_eq!(last_history_command(":no semicolon"), Some(":no semicolon".to_string()));
}

#[test]
fn skips_blank_lines_and_own_calls() {
    let content = "make test\nmemo\n   \nmemo list git\n: 5:0;memo run 2\n\n";
    assert_eq!(last_history_command(content), Some("make test".to_string()));
    assert_eq!(last_history_command("memorize\n"), Some("memorize".to_string()));
    assert_eq!(last_history_command("memo\n"), None);
    assert_eq!(last_history_command(""), None);
    assert_eq!(last_history_command("\n\n  \n"), None);
}

#[test]
fn trims_whitespace_and_carriage_returns() {
    assert_eq!(last_history_command("  ls -la \t\r\n"), Some("ls -la".to_string()));
    assert_eq!(last_history_command(": 1:0;  pwd  \r\n"), Some("pwd".to_string()));
    assert_eq!(last_history_command("\u{3000}héllo wörld\u{a0}"), Some("héllo wörld".to_string()));
    assert!(is_white_char('\u{2009}'));
    assert!(!is_white_char('x'));
}
