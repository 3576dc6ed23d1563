use memo::entry::MemoEntry;
use memo::store::{MemoStore, StoreError, DB_CAP};

fn store_with(cmds: &[&str]) -> MemoStore {
    let mut s = MemoStore::new();
    for (i, c) in cmds.iter().enumerate() {
        s.insert(c, 1000 + i as i64).unwrap();
    }
    s
}

#[test]
fn capacity_keeps_newest_two_hundred() {
    let mut s = MemoStore::new();
    for i in 0..250u64 {
        let out = s.insert(&format!("cmd {i}"), i as i64).unwrap();
        assert_eq!(out.id, i + 1);
        assert!(s.count() <= DB_CAP);
        if i >= 200 {
            assert_eq!(out.removed, vec![i - 199]);
        } else {
            assert!(out.removed.is_empty());
        }
    }
    assert_eq!(s.count(), 200);
    assert_eq!(s.resolve_index(1).unwrap().cmd, "cmd 249");
    assert_eq!(s.resolve_index(200).unwrap().cmd, "cmd 50");
    assert_eq!(s.resolve_index(200).unwrap().id, 51);
    assert!(s.resolve_index(201).is_none());
}

#[test]
fn filtered_listing_keeps_full_order_indices() {
    // oldest first, so that "git push" is the newest
    let s = store_with(&["git status", "ls", "git push"]);
    let rows = s.list(10, Some("git"));
    assert_eq!(rows, vec![(1, "git push".to_string()), (3, "git status".to_string())]);
}

#[test]
fn filter_is_case_insensitive() {
    let s = store_with(&["Git Status", "ls", "echo GIT"]);
    let rows = s.list(10, Some("gIt"));
    assert_eq!(rows, vec![(1, "echo GIT".to_string()), (3, "Git Status".to_string())]);
}

#[test]
fn listing_respects_limit_and_empty_results() {
    let s = store_with(&["a1", "b", "a2", "a3"]);
    assert_eq!(s.list(2, Some("a")), vec![(1, "a3".to_string()), (2, "a2".to_string())]);
    assert_eq!(s.list(0, None), Vec::<(usize, String)>::new());
    assert!(s.list(10, Some("zzz")).is_empty());
    assert!(MemoStore::new().list(10, None).is_empty());
}

#[test]
fn unfiltered_listing_agrees_with_resolve_index() {
    let s = store_with(&["one", "two", "three", "four"]);
    let rows = s.list(10, None);
    assert_eq!(rows.len(), 4);
    for (k, (idx, cmd)) in rows.iter().enumerate() {
        assert_eq!(*idx, k + 1);
        assert_eq!(&s.resolve_index(*idx as i64).unwrap().cmd, cmd);
    }
}

#[test]
fn dedup_on_save() {
    let mut s = MemoStore::new();
    assert!(s.maybe_save("ls -la", 1).unwrap().is_some());
    assert!(s.maybe_save("ls -la", 2).unwrap().is_none());
    assert_eq!(s.count(), 1);

    let mut t = MemoStore::new();
    t.maybe_save("ls -la", 1).unwrap();
    t.maybe_save("pwd", 2).unwrap();
    t.maybe_save("ls -la", 3).unwrap();
    assert_eq!(t.count(), 3);
    let same = t.list(10, None).into_iter().filter(|(_, c)| c == "ls -la").count();
    assert_eq!(same, 2);
}

#[test]
fn dedup_is_exact_match_only() {
    let mut s = MemoStore::new();
    s.maybe_save("ls -la", 1).unwrap();
    assert!(s.maybe_save("ls  -la", 2).unwrap().is_some());
    assert!(s.maybe_save("LS -LA", 3).unwrap().is_some());
    assert_eq!(s.count(), 3);
}

#[test]
fn not_found_semantics() {
    let s = store_with(&["a", "b"]);
    assert!(s.resolve_index(0).is_none());
    assert!(s.resolve_index(-1).is_none());
    assert!(s.resolve_index(s.count() as i64 + 1).is_none());
    assert!(s.entry_at_offset(2).is_none());
    assert_eq!(s.entry_at_offset(1).unwrap().cmd, "a");
}

#[test]
fn round_trip_insert_resolve() {
    let mut s = store_with(&["before"]);
    let text = "  echo 'a;b' | grep -v \"x\"\t&& true  ";
    let out = s.insert(text, 42).unwrap();
    let e = s.resolve_index(1).unwrap();
    assert_eq!(e.cmd, text);
    assert_eq!(e.id, out.id);
    assert_eq!(e.created_at, 42);
}

#[test]
fn most_recent_and_scan() {
    let s = store_with(&["x", "y", "z"]);
    assert_eq!(s.most_recent().unwrap().cmd, "z");
    let all: Vec<String> = s.scan_descending().into_iter().map(|e| e.cmd).collect();
    assert_eq!(all, vec!["z", "y", "x"]);
    assert!(MemoStore::new().most_recent().is_none());
}

#[test]
fn from_entries_checks_ids_and_trims_on_demand() {
    let bad = vec![MemoEntry::new(3, "a".to_string(), 0), MemoEntry::new(3, "b".to_string(), 0)];
    assert!(MemoStore::from_entries(bad).is_none());
    let top = vec![MemoEntry::new(u64::MAX, "a".to_string(), 0)];
    assert!(MemoStore::from_entries(top).is_none());

    let many: Vec<MemoEntry> = (1..=205u64).map(|i| MemoEntry::new(i * 2, format!("c{i}"), 0)).collect();
    let mut s = MemoStore::from_entries(many).unwrap();
    assert_eq!(s.count(), 205);
    let removed = s.enforce_capacity();
    assert_eq!(removed, vec![2, 4, 6, 8, 10]);
    assert_eq!(s.count(), 200);
    assert!(s.enforce_capacity().is_empty());
    let out = s.insert("next", 0).unwrap();
    assert_eq!(out.id, 411);
    assert_eq!(out.removed, vec![12]);
}

#[test]
fn insert_fails_when_ids_run_out() {
    let top = vec![MemoEntry::new(u64::MAX - 2, "a".to_string(), 0)];
    let mut s = MemoStore::from_entries(top).unwrap();
    assert_eq!(s.insert("b", 0).unwrap().id, u64::MAX - 1);
    assert_eq!(s.insert("c", 0).unwrap_err(), StoreError::IdsExhausted);
    assert_eq!(s.maybe_save("d", 0).unwrap_err(), StoreError::IdsExhausted);
    assert!(s.maybe_save("b", 0).unwrap().is_none());
    assert_eq!(s.count(), 2);
}
