use shesh::input::{grid_layout, CompletionQuery, EditorAction, EditorState, Key};

fn chars(s: &str) -> Vec<char> {
    s.chars().collect()
}

fn type_line(state: &mut EditorState, s: &str) {
    for c in s.chars() {
        let a = state.apply_key(Key::Char(c));
        assert!(matches!(a, EditorAction::Redraw));
    }
}

#[test]
fn hint_accept_on_right_arrow() {
    let history = vec!["git status".to_string()];
    let mut st = EditorState::new(&history, "> ".to_string());
    type_line(&mut st, "git s");
    let a = st.apply_key(Key::Right);
    assert!(matches!(a, EditorAction::Redraw));
    assert_eq!(st.input, chars("git status"));
    assert_eq!(st.cursor, "git status".len());
    assert!(st.matched_hint);
}

#[test]
fn hint_is_latest_matching_entry() {
    let history = vec!["git push".to_string(), "git status".to_string()];
    let mut st = EditorState::new(&history, "> ".to_string());
    type_line(&mut st, "git ");
    assert_eq!(st.get_hint(), Some("git status".to_string()));
}

#[test]
fn hint_skips_exact_match() {
    let history = vec!["ls".to_string()];
    let mut st = EditorState::new(&history, "> ".to_string());
    type_line(&mut st, "ls");
    assert_eq!(st.get_hint(), None);
}

#[test]
fn hint_none_for_empty_buffer() {
    let history = vec!["ls".to_string()];
    let st = EditorState::new(&history, "> ".to_string());
    assert_eq!(st.get_hint(), None);
}

#[test]
fn insert_at_cursor_and_move() {
    let mut st = EditorState::new(&[], "> ".to_string());
    type_line(&mut st, "ac");
    st.apply_key(Key::Left);
    st.apply_key(Key::Char('b'));
    assert_eq!(st.input, chars("abc"));
    assert_eq!(st.cursor, 2);
}

#[test]
fn backspace_removes_before_cursor() {
    let mut st = EditorState::new(&[], "> ".to_string());
    type_line(&mut st, "ab");
    st.apply_key(Key::Backspace);
    assert_eq!(st.input, chars("a"));
    assert_eq!(st.cursor, 1);
    st.apply_key(Key::Backspace);
    st.apply_key(Key::Backspace);
    assert_eq!(st.input, Vec::<char>::new());
    assert_eq!(st.cursor, 0);
}

#[test]
fn cursor_moves_stop_at_bounds() {
    let mut st = EditorState::new(&[], "> ".to_string());
    type_line(&mut st, "xy");
    assert_eq!(st.move_cursor_right(), 2);
    st.apply_key(Key::Left);
    st.apply_key(Key::Left);
    st.apply_key(Key::Left);
    assert_eq!(st.cursor, 0);
    assert_eq!(st.move_cursor_left(), 0);
}

#[test]
fn multibyte_characters_are_single_steps() {
    let mut st = EditorState::new(&[], "> ".to_string());
    type_line(&mut st, "héé");
    assert_eq!(st.cursor, 3);
    st.apply_key(Key::Left);
    st.apply_key(Key::Backspace);
    assert_eq!(st.input, chars("hé"));
    assert_eq!(st.cursor, 1);
}

#[test]
fn history_browsing_up_and_down() {
    let history = vec!["one".to_string(), "two".to_string()];
    let mut st = EditorState::new(&history, "> ".to_string());
    type_line(&mut st, "dra");
    st.apply_key(Key::Up);
    assert_eq!(st.input, chars("two"));
    assert_eq!(st.history_index, Some(1));
    st.apply_key(Key::Up);
    assert_eq!(st.input, chars("one"));
    assert_eq!(st.history_index, Some(0));
    st.apply_key(Key::Up);
    assert_eq!(st.input, chars("one"));
    st.apply_key(Key::Down);
    assert_eq!(st.input, chars("two"));
    st.apply_key(Key::Down);
    assert_eq!(st.input, chars("dra"));
    assert_eq!(st.history_index, None);
}

#[test]
fn up_does_nothing_without_history() {
    let mut st = EditorState::new(&[], "> ".to_string());
    type_line(&mut st, "x");
    st.apply_key(Key::Up);
    assert_eq!(st.input, chars("x"));
    assert_eq!(st.history_index, None);
}

#[test]
fn enter_submits_and_hides_completions() {
    let mut st = EditorState::new(&[], "> ".to_string());
    type_line(&mut st, "ls");
    st.set_completions(vec!["lsblk".to_string()]);
    assert!(st.show_completions);
    let a = st.apply_key(Key::Enter);
    assert!(matches!(a, EditorAction::Submit));
    assert!(!st.show_completions);
    assert_eq!(st.input, chars("ls"));
}

#[test]
fn ctrl_c_cancels_with_empty_buffer() {
    let mut st = EditorState::new(&[], "> ".to_string());
    type_line(&mut st, "half a line");
    let a = st.apply_key(Key::CtrlC);
    assert!(matches!(a, EditorAction::Cancel));
    assert_eq!(st.input, Vec::<char>::new());
    assert_eq!(st.cursor, 0);
}

#[test]
fn tab_requests_then_cycles_completions() {
    let mut st = EditorState::new(&[], "> ".to_string());
    type_line(&mut st, "l");
    let a = st.apply_key(Key::Tab);
    assert!(matches!(a, EditorAction::NeedCompletions));
    st.set_completions(vec!["ls".to_string(), "ln".to_string()]);
    assert!(st.show_completions);
    assert_eq!(st.completion_index, 0);
    let a2 = st.apply_key(Key::Tab);
    assert!(matches!(a2, EditorAction::Redraw));
    assert_eq!(st.completion_index, 1);
    st.apply_key(Key::Tab);
    assert_eq!(st.completion_index, 0);
}

#[test]
fn empty_candidate_list_stays_hidden() {
    let mut st = EditorState::new(&[], "> ".to_string());
    st.set_completions(Vec::new());
    assert!(!st.show_completions);
}

#[test]
fn typing_hides_completions() {
    let mut st = EditorState::new(&[], "> ".to_string());
    st.set_completions(vec!["ls".to_string()]);
    st.apply_key(Key::Char('x'));
    assert!(!st.show_completions);
}

#[test]
fn completion_query_kinds() {
    let mut st = EditorState::new(&[], "> ".to_string());
    assert!(matches!(st.completion_query(), CompletionQuery::Nothing));
    type_line(&mut st, "ls");
    assert!(matches!(st.completion_query(), CompletionQuery::Command(p) if p == "ls"));
    st.apply_key(Key::Char(' '));
    assert!(matches!(st.completion_query(), CompletionQuery::EmptyPath));
    type_line(&mut st, "sr");
    assert!(matches!(st.completion_query(), CompletionQuery::Path(p) if p == "sr"));
}

#[test]
fn hint_suffix_is_the_extension() {
    let history = vec!["git status".to_string()];
    let mut st = EditorState::new(&history, "> ".to_string());
    type_line(&mut st, "git s");
    assert_eq!(st.hint_suffix(), Some("tatus".to_string()));
}

#[test]
fn grid_layout_cells_and_columns() {
    let lengths = vec![3usize, 5, 2];
    // widest candidate 5, cell width 7, 80 columns wide
    assert_eq!(grid_layout(80, &lengths), (7, 11));
    // narrower than one cell still gives one column
    assert_eq!(grid_layout(4, &lengths), (7, 1));
    // no candidates: cell width 2
    assert_eq!(grid_layout(80, &Vec::new()), (2, 40));
}
