use htmx_tasks::state::{AppState, Task};

#[test]
fn create_toggle_delete_roundtrip() {
    let mut s = AppState::new();
    let id = s.create("  hello  ");
    assert_eq!(s.get(id).unwrap().title, "hello");
    assert_eq!(s.remaining(), 1);
    assert!(s.toggle(id).unwrap().done);
    assert_eq!(s.remaining(), 0);
    assert!(s.delete(id));
    assert!(!s.delete(id));
    assert!(s.get(id).is_none());
}

#[test]
fn search_is_case_insensitive_and_empty_matches_all() {
    let mut s = AppState::new();
    s.create("Buy Milk");
    s.create("Walk dog");
    assert_eq!(s.search("milk").len(), 1);
    assert_eq!(s.search("").len(), 2);
    assert_eq!(s.search("zzz").len(), 0);
}

fn titles(tasks: &[Task]) -> Vec<String> {
    tasks.iter().map(|t| t.title.clone()).collect()
}

#[test]
fn ids_count_up_from_one() {
    let mut s = AppState::new();
    assert_eq!(s.create("a"), 1);
    assert_eq!(s.create("b"), 2);
    assert_eq!(s.create("c"), 3);
}

#[test]
fn ids_are_not_reused_after_delete() {
    let mut s = AppState::new();
    let a = s.create("a");
    assert!(s.delete(a));
    let b = s.create("b");
    assert_eq!(b, 2);
    assert!(s.get(a).is_none());
    assert_eq!(s.get(b).unwrap().title, "b");
}

#[test]
fn get_after_create_gives_trimmed_title_not_done() {
    let mut s = AppState::new();
    let id = s.create("\t\n Write tests \u{3000}");
    let t = s.get(id).unwrap();
    assert_eq!(t.id, id);
    assert_eq!(t.title, "Write tests");
    assert!(!t.done);
}

#[test]
fn whitespace_only_title_is_stored_empty() {
    let mut s = AppState::new();
    let id = s.create(" \u{00a0}\u{2003} ");
    assert_eq!(s.get(id).unwrap().title, "");
}

#[test]
fn toggle_twice_restores_task_and_count() {
    let mut s = AppState::new();
    let id = s.create("x");
    s.create("y");
    assert_eq!(s.remaining(), 2);
    let t = s.toggle(id).unwrap();
    assert!(t.done);
    assert_eq!(s.remaining(), 1);
    let t = s.toggle(id).unwrap();
    assert!(!t.done);
    assert_eq!(s.remaining(), 2);
    assert_eq!(s.get(id).unwrap(), Task { id, title: "x".to_string(), done: false });
}

#[test]
fn toggle_and_get_of_missing_id_give_none() {
    let mut s = AppState::new();
    s.create("x");
    assert!(s.toggle(42).is_none());
    assert!(s.get(42).is_none());
    assert!(!s.delete(42));
    assert_eq!(s.remaining(), 1);
}

#[test]
fn delete_keeps_other_tasks_in_order() {
    let mut s = AppState::new();
    let a = s.create("a");
    let b = s.create("b");
    let c = s.create("c");
    assert!(s.delete(b));
    assert_eq!(titles(&s.search("")), vec!["a", "c"]);
    assert_eq!(s.get(a).unwrap().title, "a");
    assert_eq!(s.get(c).unwrap().title, "c");
}

#[test]
fn sample_data_has_three_tasks_one_done() {
    let s = AppState::with_sample_data();
    let all = s.search("");
    assert_eq!(
        titles(&all),
        vec!["Read the htmx docs", "Write an Askama template", "Ship it"]
    );
    assert_eq!(all.iter().map(|t| t.id).collect::<Vec<_>>(), vec![1, 2, 3]);
    assert_eq!(all.iter().map(|t| t.done).collect::<Vec<_>>(), vec![false, false, true]);
    assert_eq!(s.remaining(), 2);
}

#[test]
fn search_trims_query_and_keeps_store_order() {
    let mut s = AppState::new();
    s.create("Milk for tea");
    s.create("Walk dog");
    s.create("Buy MILK");
    assert_eq!(titles(&s.search("  milk \t")), vec!["Milk for tea", "Buy MILK"]);
    assert_eq!(titles(&s.search("   ")), vec!["Milk for tea", "Walk dog", "Buy MILK"]);
}

#[test]
fn search_lowercases_beyond_ascii() {
    let mut s = AppState::new();
    s.create("ÄPFEL kaufen");
    s.create("Birnen");
    assert_eq!(titles(&s.search("äpfel")), vec!["ÄPFEL kaufen"]);
    assert_eq!(titles(&s.search("ÄPFEL")), vec!["ÄPFEL kaufen"]);
}

#[test]
fn search_matches_substrings_anywhere() {
    let mut s = AppState::new();
    s.create("abcabd");
    assert_eq!(s.search("abd").len(), 1);
    assert_eq!(s.search("cab").len(), 1);
    assert_eq!(s.search("abcabdx").len(), 0);
    assert_eq!(s.search("bb").len(), 0);
}

#[test]
fn default_store_is_empty() {
    let s = AppState::default();
    assert_eq!(s.remaining(), 0);
    assert!(s.search("").is_empty());
    assert!(s.has_room());
}

#[test]
fn search_ignores_surrounding_whitespace() {
    let mut s = AppState::new();
    s.create("Buy Milk");
    s.create("Walk dog");
    assert_eq!(titles(&s.search(" \tmilk ")), titles(&s.search("milk")));
    assert_eq!(titles(&s.search(" \tdog ")), vec!["Walk dog"]);
}

#[test]
fn longer_query_finds_no_more() {
    let mut s = AppState::new();
    s.create("milk tea");
    s.create("milk");
    s.create("tea");
    let wide = titles(&s.search("milk"));
    let narrow = titles(&s.search("milk t"));
    assert_eq!(wide, vec!["milk tea", "milk"]);
    assert_eq!(narrow, vec!["milk tea"]);
    assert!(narrow.iter().all(|t| wide.contains(t)));
}

#[test]
fn counter_counts_creates_across_deletes_and_toggles() {
    let mut s = AppState::new();
    let a = s.create("a");
    s.toggle(a);
    assert!(s.delete(a));
    let b = s.create("b");
    assert!(s.delete(b));
    s.toggle(7);
    let c = s.create("c");
    assert_eq!((a, b, c), (1, 2, 3));
}

#[test]
fn search_ignores_ascii_letter_case() {
    let mut s = AppState::new();
    s.create("Buy Milk");
    s.create("Walk dog");
    s.create("milkshake");
    let base = titles(&s.search("mIlK"));
    assert_eq!(base, vec!["Buy Milk", "milkshake"]);
    assert_eq!(titles(&s.search("MILK")), base);
    assert_eq!(titles(&s.search("milk")), base);
    assert_eq!(titles(&s.search(" \tMilk ")), base);
}
