use fpr_cli::fuzzy::{fallback_result, scan_result, Comp, DirListing, EntryText, TextWithAutocomplete};

#[test]
fn paths_rank_by_match() {
    let mut c = Comp::default();
    assert!(c.needs_update("sr"));
    c.set_paths("sr", vec!["./src/".into(), "./Cargo.toml".into(), "./target/".into(), "./sr".into()]);
    assert!(!c.needs_update("sr"));
    let m = c.fuzzy_sort("sr");
    assert!(m.iter().all(|(p, _)| p != "./Cargo.toml"));
    for w in m.windows(2) {
        assert!(w[0].1 >= w[1].1);
    }
    assert!(m.iter().any(|(p, _)| p == "./src/"));
    let s = c.suggestions("sr");
    assert_eq!(s, m.iter().map(|(p, _)| p.clone()).collect::<Vec<_>>());
    assert_eq!(c.completion("sr", Some("x".into())), Some("x".into()));
    assert_eq!(c.completion("sr", None), m.first().map(|(p, _)| p.clone()));
    assert_eq!(c.completion("zzzz", None), None);
}

#[test]
fn at_most_fifteen_suggestions() {
    let mut c = Comp::default();
    let paths: Vec<String> = (0..20).map(|i| format!("file{i}")).collect();
    c.set_paths("file", paths);
    assert_eq!(c.suggestions("file").len(), 15);
}

#[test]
fn rows_rank_by_match() {
    let items = vec![("apple", 1), ("banana", 22), ("cherry", 333)];
    let mut t = TextWithAutocomplete::new(items, |i: &(&str, i32)| [i.0.to_string(), i.1.to_string()]);
    let s = t.suggestions("ban");
    assert_eq!(s.len(), 3);
    assert_eq!(s[0], "banana 22 ");
    let again = t.suggestions("ban");
    assert_eq!(again, s);
    assert_eq!(t.completion("ban", None), Some("banana 22 ".to_string()));
    assert_eq!(t.completion("ban", Some("h".into())), Some("h".to_string()));
    let all = t.suggestions("");
    assert_eq!(all, vec!["apple  1  ".to_string(), "banana 22 ".into(), "cherry 333".into()]);
}

#[test]
fn equal_scores_keep_their_order() {
    let mut c = Comp::default();
    c.set_paths("x", vec!["a3".into(), "a1".into(), "a2".into()]);
    let m = c.fuzzy_sort("a");
    assert_eq!(m.len(), 3);
    assert!(m.iter().all(|(_, s)| *s == m[0].1));
    assert_eq!(m.iter().map(|(p, _)| p.as_str()).collect::<Vec<_>>(), vec!["a3", "a1", "a2"]);
    assert_eq!(c.fuzzy_sort("a"), m);
}

#[test]
fn listings_choose_the_recorded_paths() {
    let found = DirListing::Found(vec![
        EntryText { path: "./src".into(), is_dir: true },
        EntryText { path: "./a.txt".into(), is_dir: false },
    ]);
    assert_eq!(scan_result(&found), Some(vec!["./src/".to_string(), "./a.txt".to_string()]));
    assert_eq!(scan_result(&DirListing::NotFound), None);
    assert_eq!(scan_result(&DirListing::Failed), Some(vec![]));
    assert_eq!(fallback_result(&found), vec!["./src/".to_string(), "./a.txt".to_string()]);
    assert_eq!(fallback_result(&DirListing::NotFound), Vec::<String>::new());
    assert_eq!(fallback_result(&DirListing::Failed), Vec::<String>::new());
}

fn fake_list(d: &str) -> DirListing {
    match d {
        "src/" => DirListing::Found(vec![EntryText { path: "src/lib.rs".into(), is_dir: false }]),
        "gone/" => DirListing::NotFound,
        "locked/" => DirListing::Failed,
        "." => DirListing::Found(vec![EntryText { path: "./src".into(), is_dir: true }]),
        _ => DirListing::NotFound,
    }
}

#[test]
fn path_completer_lists_the_named_directory() {
    let mut c = Comp::default();
    c.update_input("src/", fake_list);
    assert_eq!(c.suggestions("src/"), vec!["src/lib.rs".to_string()]);
    c.update_input("gone/", fake_list);
    assert!(!c.needs_update("gone/"));
    assert_eq!(c.suggestions("src"), vec!["./src/".to_string()]);
    c.update_input("locked/", fake_list);
    assert_eq!(c.suggestions(""), Vec::<String>::new());
    // the same input again lists nothing
    c.update_input("locked/", |_d: &str| -> DirListing { panic!("listed again") });
}
