use fujin::matcher::{match_one, match_pane, Field};

fn one(query: &str, haystack: &str) -> Option<(i32, Vec<usize>)> {
    let case_sensitive = query.chars().any(|c| c.is_ascii_uppercase());
    match_one(&query.chars().collect::<Vec<_>>(), haystack, case_sensitive)
}

#[test]
fn subsequence_matches_in_order() {
    assert!(one("fjn", "fujin").is_some());
    assert!(one("fujin", "fujin").is_some());
    // The order counts.
    assert!(one("njf", "fujin").is_none());
    // Every character has to be there.
    assert!(one("fujinx", "fujin").is_none());
}

#[test]
fn empty_query_matches_everything() {
    assert_eq!(one("", "anything"), Some((0, vec![])));
    assert_eq!(one("", ""), Some((0, vec![])));
}

#[test]
fn smart_case_switches_on_uppercase() {
    // A query in lower case matches upper case, too.
    assert!(one("main", "MAIN.rs").is_some());
    // A query with an upper case letter does not.
    assert!(one("Main", "Main.rs").is_some());
    assert!(one("Main", "main.rs").is_none());
}

#[test]
fn indices_point_at_matched_chars() {
    let (_, indices) = one("fn", "fujin").expect("matches");
    assert_eq!(indices, vec![0, 4]);
}

#[test]
fn indices_are_char_based_for_multibyte() {
    let (_, indices) = one("検索", "全文検索タブ").expect("matches");
    assert_eq!(indices, vec![2, 3]);
}

#[test]
fn consecutive_beats_scattered() {
    let (consecutive, _) = one("abc", "xxabc").expect("matches");
    let (scattered, _) = one("abc", "axbxc").expect("matches");
    assert!(consecutive > scattered);
}

#[test]
fn boundary_beats_middle() {
    let (boundary, _) = one("main", "src/main").expect("matches");
    let (middle, _) = one("main", "xxxmain").expect("matches");
    assert!(boundary > middle);
}

#[test]
fn two_pass_picks_the_tight_tail_region() {
    // The first pass alone would take the m and the a at the start.
    let (_, indices) = one("main", "mab/main").expect("matches");
    assert_eq!(indices, vec![4, 5, 6, 7]);
    let (_, indices) = one("main", "src/main.rs").expect("matches");
    assert_eq!(indices, vec![4, 5, 6, 7]);
}

#[test]
fn straddling_fields_does_not_match() {
    // The end of a name and the start of another do not make a match.
    assert!(match_pane("cd", "abc", "def", None).is_none());
    assert!(match_pane("fx", "shell-f", "xterm", Some("/tmp")).is_none());
}

#[test]
fn panes_without_cwd_do_not_match_on_cwd() {
    assert!(match_pane("work", "shell", "tab1", None).is_none());
    // With a cwd it matches.
    let hit = match_pane("work", "shell", "tab1", Some("/work")).expect("matches");
    assert_eq!(hit.field, Field::Cwd);
}

#[test]
fn title_wins_ties() {
    let hit = match_pane("same", "same", "same", Some("same")).expect("matches");
    assert_eq!(hit.field, Field::Title);
}

#[test]
fn field_weights_prefer_title_over_tab_over_cwd() {
    let hit = match_pane("x", "y", "x", Some("x")).expect("matches");
    assert_eq!(hit.field, Field::Tab);
    let hit = match_pane("x", "y", "z", Some("x")).expect("matches");
    assert_eq!(hit.field, Field::Cwd);
}

#[test]
fn empty_query_matches_any_pane_via_title() {
    let hit = match_pane("", "shell", "tab1", None).expect("matches");
    assert_eq!(hit.score, 0);
    assert_eq!(hit.field, Field::Title);
    assert!(hit.indices.is_empty());
}
