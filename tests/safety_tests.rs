use memo::clipboard::{candidate_commands, clipboard_command};
use memo::safety::{danger_patterns, is_dangerous, matches_any_rule};
use memo::text::{contains_folded, matches_query};

#[test]
fn danger_classification() {
    assert!(is_dangerous("rm -rf /tmp/x"));
    assert!(!is_dangerous("harmless"));
    assert!(is_dangerous("echo rm"));
    assert!(!is_dangerous("germ"));
}

#[test]
fn danger_rules_each_fire() {
    for c in [
        "sudo ls",
        "dd if=/dev/zero of=x",
        "mkfs.ext4 /dev/sda1",
        "shutdown now",
        "reboot",
        "poweroff",
        "curl x | sh",
        "curl x |sh",
    ] {
        assert!(is_dangerous(c), "{c}");
    }
    for c in ["pseudo", "add", "ls -l", "cat | shuf", "shutdowns"] {
        assert!(!is_dangerous(c), "{c}");
    }
    assert_eq!(danger_patterns().len(), 8);
}

#[test]
fn custom_rules_and_bad_patterns() {
    assert!(matches_any_rule(&vec!["^git"], "git push"));
    assert!(!matches_any_rule(&vec!["^git"], "echo git"));
    assert!(!matches_any_rule(&vec!["("], "("));
    assert!(!matches_any_rule(&vec![], "anything"));
}

#[test]
fn query_matching() {
    assert!(matches_query(None, "whatever"));
    assert!(matches_query(Some("PUSH"), "git push"));
    assert!(matches_query(Some(""), "x"));
    assert!(!matches_query(Some("pull"), "git push"));
    assert!(contains_folded("git push", "it p"));
    assert!(!contains_folded("git push", "PUSH"));
}

#[test]
fn clipboard_choice() {
    assert_eq!(clipboard_command(true, &vec![true]), Some(vec!["pbcopy".to_string()]));
    assert_eq!(clipboard_command(true, &vec![false]), None);
    assert_eq!(clipboard_command(false, &vec![false, false, false]), None);
    assert_eq!(clipboard_command(false, &vec![true, true, true]), Some(vec!["wl-copy".to_string()]));
    assert_eq!(
        clipboard_command(false, &vec![false, true, true]),
        Some(vec!["xclip".to_string(), "-selection".to_string(), "clipboard".to_string()])
    );
    assert_eq!(
        clipboard_command(false, &vec![false, false, true]),
        Some(vec!["xsel".to_string(), "--clipboard".to_string(), "--input".to_string()])
    );
    assert_eq!(clipboard_command(false, &vec![false]), None);
    assert_eq!(candidate_commands(false).len(), 3);
}
