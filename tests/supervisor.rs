use jj_manage::update::State;

fn names(v: &[&str]) -> Vec<String> {
    v.iter().map(|p| p.to_string()).collect()
}

#[test]
fn renderer_ends_only_after_both_exits() {
    let mut st = State::new(&names(&["gh/a/x", "gh/b/y"]));
    assert!(!st.is_done());
    assert!(st.tick(0).is_some());
    st.finish(&"gh/b/y".to_string());
    assert!(!st.is_done());
    assert_eq!(st.tick(1), Some("\r- updating: gh/a/x".to_string()));
    st.finish(&"gh/a/x".to_string());
    assert!(st.is_done());
    assert_eq!(st.tick(2), None);
}

#[test]
fn failed_spawn_is_never_running() {
    // "gh/b/y" could not be spawned, so only the others enter the state.
    let spawned = names(&["gh/a/x", "gh/c/z"]);
    let mut st = State::new(&spawned);
    assert_eq!(st.running_names(), spawned);
    st.finish(&"gh/a/x".to_string());
    st.finish(&"gh/c/z".to_string());
    assert!(st.is_done());
}

#[test]
fn running_names_sorted_and_unique() {
    let st = State::new(&names(&["b", "a", "b", "c"]));
    assert_eq!(st.running_names(), names(&["a", "b", "c"]));
}

#[test]
fn progress_line_lists_running_names() {
    let mut st = State::new(&names(&["gh/b/y", "gh/a/x"]));
    assert_eq!(st.tick(0), Some("\r/ updating: gh/a/x, gh/b/y".to_string()));
    assert_eq!(st.tick(2), Some("\r\\ updating: gh/a/x, gh/b/y".to_string()));
    assert_eq!(st.tick(7), Some("\r| updating: gh/a/x, gh/b/y".to_string()));
}

#[test]
fn progress_line_must_be_erased_once() {
    let mut st = State::new(&names(&["a"]));
    assert!(!st.take_newline());
    st.tick(0);
    assert!(st.take_newline());
    assert!(!st.take_newline());
}

#[test]
fn empty_batch_is_done_at_once() {
    let mut st = State::new(&names(&[]));
    assert!(st.is_done());
    assert_eq!(st.tick(0), None);
    assert!(!st.take_newline());
}

#[test]
fn finishing_unknown_name_changes_nothing() {
    let mut st = State::new(&names(&["a", "b"]));
    st.finish(&"c".to_string());
    assert_eq!(st.running_names(), names(&["a", "b"]));
}
