use memo::history::trimmed;
use memo::run::{after_answer, is_confirmation, plan_run, RunAction};
use memo::store::MemoStore;

fn store_with(cmds: &[&str]) -> MemoStore {
    let mut s = MemoStore::new();
    for c in cmds {
        s.insert(c, 0).unwrap();
    }
    s
}

#[test]
fn confirmation_answers() {
    for a in ["y", "Y", "yes", "YES", " Yes \n", "y\n"] {
        assert!(is_confirmation(a), "{a:?}");
    }
    for a in ["", "n", "no", "yess", "ye", "y es", "\n"] {
        assert!(!is_confirmation(a), "{a:?}");
    }
}

#[test]
fn run_plan_follows_index_and_danger() {
    let s = store_with(&["rm -rf /tmp/x", "ls"]);
    assert_eq!(plan_run(&s, 1), RunAction::Execute("ls".to_string()));
    assert_eq!(plan_run(&s, 2), RunAction::Confirm("rm -rf /tmp/x".to_string()));
    assert_eq!(plan_run(&s, 3), RunAction::NotFound);
    assert_eq!(plan_run(&s, 0), RunAction::NotFound);
}

#[test]
fn run_after_answer() {
    let cmd = "sudo reboot".to_string();
    assert_eq!(after_answer(cmd.clone(), Some("yes\n")), RunAction::Execute(cmd.clone()));
    assert_eq!(after_answer(cmd.clone(), Some("nope")), RunAction::Declined);
    assert_eq!(after_answer(cmd, None), RunAction::Declined);
}

#[test]
fn trimming_text() {
    assert_eq!(trimmed("  a b \t\n"), "a b");
    assert_eq!(trimmed(""), "");
    assert_eq!(trimmed(" \u{2003} "), "");
}
