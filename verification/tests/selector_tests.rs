use rmenu::selector::{
    split_candidates, update_matching_items_refactored, EventOutcome, SelectorEvent, SelectorState,
};

fn strings(items: &[&str]) -> Vec<String> {
    items.iter().map(|s| s.to_string()).collect()
}

fn type_text(st: &mut SelectorState, text: &str, case_sensitive: bool) {
    for c in text.chars() {
        st.handle_event(SelectorEvent::TextInsert(c), case_sensitive);
    }
}

#[test]
fn case_insensitive_matches_apple_against_app() {
    let mut st = SelectorState::new(strings(&["Apple"]), None);
    type_text(&mut st, "APP", false);
    assert_eq!(st.matching_items, strings(&["Apple"]));
}

#[test]
fn case_sensitive_rejects_apple_against_app() {
    let mut st = SelectorState::new(strings(&["Apple"]), None);
    type_text(&mut st, "APP", true);
    assert!(st.matching_items.is_empty());
}

#[test]
fn empty_input_shows_all_candidates_in_order() {
    let st = SelectorState::new(strings(&["alpha", "beta", "gamma"]), None);
    assert_eq!(st.matching_items, strings(&["alpha", "beta", "gamma"]));
    assert_eq!(st.selected_index, 0);
}

#[test]
fn delimited_elements_split_in_order() {
    assert_eq!(
        split_candidates("alpha,beta,gamma", ','),
        strings(&["alpha", "beta", "gamma"])
    );
}

#[test]
fn split_trims_and_drops_empty_pieces() {
    assert_eq!(
        split_candidates("  alpha , ,beta,,  gamma  ", ','),
        strings(&["alpha", "beta", "gamma"])
    );
    assert_eq!(split_candidates("", ','), Vec::<String>::new());
}

#[test]
fn split_handles_newline_delimited_input() {
    assert_eq!(
        split_candidates("one\ntwo\r\nthree\n", '\n'),
        strings(&["one", "two", "three"])
    );
}

#[test]
fn filter_case_insensitive_letter_a() {
    // every candidate contains an "a" somewhere, so all three stay, in order
    let mut st = SelectorState::new(strings(&["Alpha", "Beta", "gamma"]), None);
    type_text(&mut st, "a", false);
    assert_eq!(st.matching_items, strings(&["Alpha", "Beta", "gamma"]));
}

#[test]
fn filter_keeps_only_substring_matches_in_order() {
    let mut st = SelectorState::new(strings(&["Alpha", "Beta", "gamma"]), None);
    type_text(&mut st, "mm", false);
    assert_eq!(st.matching_items, strings(&["gamma"]));
}

#[test]
fn filter_is_idempotent_on_stable_input() {
    let mut st = SelectorState::new(strings(&["Alpha", "Beta", "gamma"]), None);
    type_text(&mut st, "a", false);
    let once = st.matching_items.clone();
    update_matching_items_refactored(&mut st, false);
    assert_eq!(st.matching_items, once);
    update_matching_items_refactored(&mut st, false);
    assert_eq!(st.matching_items, once);
}

#[test]
fn move_down_then_up_restores_index() {
    let n = 3;
    let mut st = SelectorState::new(strings(&["a1", "a2", "a3"]), None);
    st.handle_event(SelectorEvent::MoveDown, false);
    assert_eq!(st.selected_index, 1);
    for _ in 0..n {
        st.handle_event(SelectorEvent::MoveDown, false);
        st.handle_event(SelectorEvent::MoveUp, false);
    }
    assert_eq!(st.selected_index, 1);
}

#[test]
fn move_down_has_order_n() {
    let mut st = SelectorState::new(strings(&["a1", "a2", "a3"]), None);
    for _ in 0..3 {
        st.handle_event(SelectorEvent::MoveDown, false);
    }
    assert_eq!(st.selected_index, 0);
}

#[test]
fn move_up_wraps_from_zero() {
    let mut st = SelectorState::new(strings(&["a1", "a2", "a3"]), None);
    st.handle_event(SelectorEvent::MoveUp, false);
    assert_eq!(st.selected_index, 2);
}

#[test]
fn moves_are_ignored_on_empty_list() {
    let mut st = SelectorState::new(Vec::new(), None);
    match st.handle_event(SelectorEvent::MoveDown, false) {
        EventOutcome::Continue { redraw } => assert!(!redraw),
        _ => panic!("expected a continuing outcome"),
    }
    assert_eq!(st.selected_index, 0);
}

#[test]
fn tab_complete_keeps_completed_candidate() {
    let mut st = SelectorState::new(strings(&["alpha", "alphabet", "beta"]), None);
    type_text(&mut st, "alp", false);
    st.handle_event(SelectorEvent::MoveDown, false);
    st.handle_event(SelectorEvent::TabComplete, false);
    assert_eq!(st.current_input, "alphabet");
    assert!(st.matching_items.contains(&"alphabet".to_string()));
    assert_eq!(st.selected_index, 0);
}

#[test]
fn backspace_removes_last_character_and_refilters() {
    let mut st = SelectorState::new(strings(&["abc", "abd"]), None);
    type_text(&mut st, "abc", true);
    assert_eq!(st.matching_items, strings(&["abc"]));
    st.handle_event(SelectorEvent::Backspace, true);
    assert_eq!(st.current_input, "ab");
    assert_eq!(st.matching_items, strings(&["abc", "abd"]));
}

#[test]
fn backspace_on_empty_input_is_a_no_op() {
    let mut st = SelectorState::new(strings(&["abc"]), None);
    match st.handle_event(SelectorEvent::Backspace, true) {
        EventOutcome::Continue { redraw } => assert!(!redraw),
        _ => panic!("expected a continuing outcome"),
    }
    assert_eq!(st.current_input, "");
}

#[test]
fn commit_returns_highlighted_candidate() {
    let mut st = SelectorState::new(strings(&["alpha", "beta"]), None);
    st.handle_event(SelectorEvent::MoveDown, false);
    match st.handle_event(SelectorEvent::Commit, false) {
        EventOutcome::Commit { value } => assert_eq!(value, Some("beta".to_string())),
        _ => panic!("expected a commit outcome"),
    }
}

#[test]
fn commit_free_text_when_no_candidates() {
    let mut st = SelectorState::new(Vec::new(), None);
    type_text(&mut st, "hello", false);
    match st.handle_event(SelectorEvent::Commit, false) {
        EventOutcome::Commit { value } => assert_eq!(value, Some("hello".to_string())),
        _ => panic!("expected a commit outcome"),
    }
}

#[test]
fn commit_nothing_when_filter_empty_and_candidates_exist() {
    let mut st = SelectorState::new(strings(&["alpha"]), None);
    type_text(&mut st, "zzz", false);
    match st.handle_event(SelectorEvent::Commit, false) {
        EventOutcome::Commit { value } => assert_eq!(value, None),
        _ => panic!("expected a commit outcome"),
    }
}

#[test]
fn cancel_produces_cancelled_outcome() {
    let mut st = SelectorState::new(strings(&["alpha"]), None);
    match st.handle_event(SelectorEvent::Cancel, false) {
        EventOutcome::Cancelled => {}
        _ => panic!("expected cancellation"),
    }
}
