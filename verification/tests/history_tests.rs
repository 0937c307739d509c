use rush::history::{History, HISTORY_FILE_NAME, MAX_HISTORY};

fn texts(history: &History) -> Vec<String> {
    history.entries().clone()
}

fn filled(limit: usize, lines: &[&str]) -> History {
    let mut history = History::new(limit);
    for line in lines {
        history.add(line.to_string());
    }
    history
}

#[test]
fn a_new_history_is_empty() {
    let mut history = History::new(10);
    assert!(history.entries().is_empty());
    assert_eq!(history.position(), 0);
    assert_eq!(history.limit(), 10);
    assert_eq!(history.get_previous(), None);
    assert_eq!(history.get_next(), None);
}

#[test]
fn add_stores_trimmed_lines() {
    let mut history = History::new(10);
    assert!(history.add("  ls -l \t".to_string()));
    assert!(history.add("pwd\n".to_string()));
    assert_eq!(texts(&history), vec!["ls -l", "pwd"]);
    assert_eq!(history.position(), 2);
}

#[test]
fn blank_lines_are_not_stored() {
    let mut history = History::new(10);
    assert!(!history.add("".to_string()));
    assert!(!history.add("   \t\n".to_string()));
    assert!(history.entries().is_empty());
}

#[test]
fn the_same_command_twice_is_stored_once() {
    let mut history = History::new(10);
    assert!(history.add("ls".to_string()));
    assert!(!history.add("ls".to_string()));
    assert!(!history.add("  ls  ".to_string()));
    assert_eq!(texts(&history), vec!["ls"]);
}

#[test]
fn a_repeat_after_another_command_is_stored() {
    let history = filled(10, &["ls", "pwd", "ls"]);
    assert_eq!(texts(&history), vec!["ls", "pwd", "ls"]);
}

#[test]
fn one_more_than_the_bound_evicts_the_oldest() {
    let history = filled(3, &["a", "b", "c", "d"]);
    assert_eq!(texts(&history), vec!["b", "c", "d"]);
    assert_eq!(history.position(), 3);
}

#[test]
fn eviction_is_first_in_first_out() {
    let history = filled(2, &["a", "b", "c", "d", "e"]);
    assert_eq!(texts(&history), vec!["d", "e"]);
}

#[test]
fn a_bound_of_one_keeps_the_newest() {
    let history = filled(1, &["a", "b"]);
    assert_eq!(texts(&history), vec!["b"]);
}

#[test]
fn a_bound_of_zero_keeps_nothing() {
    let mut history = History::new(0);
    assert!(history.add("a".to_string()));
    assert!(history.entries().is_empty());
    assert_eq!(history.position(), 0);
}

#[test]
fn a_rejected_line_leaves_the_cursor() {
    let mut history = filled(10, &["a", "b", "c"]);
    history.get_previous();
    history.get_previous();
    assert_eq!(history.position(), 1);
    assert!(!history.add("c".to_string()));
    assert_eq!(history.position(), 1);
    assert!(history.add("d".to_string()));
    assert_eq!(history.position(), 4);
}

#[test]
fn previous_walks_back_to_the_oldest() {
    let mut history = filled(10, &["a", "b", "c"]);
    assert_eq!(history.get_previous(), Some(&"c".to_string()));
    assert_eq!(history.get_previous(), Some(&"b".to_string()));
    assert_eq!(history.get_previous(), Some(&"a".to_string()));
    assert_eq!(history.position(), 0);
    assert_eq!(history.get_previous(), Some(&"a".to_string()));
    assert_eq!(history.position(), 0);
}

#[test]
fn next_walks_forward_and_past_the_end() {
    let mut history = filled(10, &["a", "b", "c"]);
    history.get_previous();
    history.get_previous();
    history.get_previous();
    assert_eq!(history.get_next(), Some(&"b".to_string()));
    assert_eq!(history.get_next(), Some(&"c".to_string()));
    assert_eq!(history.get_next(), None);
    assert_eq!(history.position(), 3);
    assert_eq!(history.get_next(), None);
    assert_eq!(history.position(), 3);
}

#[test]
fn previous_previous_next_from_a_fresh_cursor() {
    let mut history = filled(10, &["a", "b", "c"]);
    assert_eq!(history.get_previous(), Some(&"c".to_string()));
    assert_eq!(history.get_previous(), Some(&"b".to_string()));
    assert_eq!(history.get_next(), Some(&"c".to_string()));
    assert_eq!(history.position(), 2);
}

#[test]
fn previous_previous_next_from_the_newest_entry() {
    let mut history = filled(10, &["a", "b", "c"]);
    history.get_previous();
    assert_eq!(history.position(), 2);
    assert_eq!(history.get_previous(), Some(&"b".to_string()));
    assert_eq!(history.get_previous(), Some(&"a".to_string()));
    assert_eq!(history.get_next(), Some(&"b".to_string()));
    assert_eq!(history.position(), 1);
}

#[test]
fn next_on_the_newest_entry_leaves_the_history() {
    let mut history = filled(10, &["a"]);
    assert_eq!(history.get_previous(), Some(&"a".to_string()));
    assert_eq!(history.get_next(), None);
    assert_eq!(history.position(), 1);
}

#[test]
fn reset_position_goes_past_the_end() {
    let mut history = filled(10, &["a", "b", "c"]);
    history.get_previous();
    history.get_previous();
    history.reset_position();
    assert_eq!(history.position(), 3);
    assert_eq!(history.get_previous(), Some(&"c".to_string()));
}

#[test]
fn serialize_writes_one_entry_per_line() {
    let history = filled(10, &["ls -l", "pwd"]);
    assert_eq!(history.serialize(), "ls -l\npwd\n");
    assert_eq!(History::new(10).serialize(), "");
}

#[test]
fn load_reads_one_entry_per_line() {
    let history = History::load("ls -l\npwd\n", 10);
    assert_eq!(texts(&history), vec!["ls -l", "pwd"]);
    assert_eq!(history.position(), 2);
    assert_eq!(history.limit(), 10);
}

#[test]
fn load_restores_the_invariant() {
    let history = History::load("a\n\n  b  \r\nb\nc", 10);
    assert_eq!(texts(&history), vec!["a", "b", "c"]);
    let history = History::load("a\nb\nc\nd\n", 2);
    assert_eq!(texts(&history), vec!["c", "d"]);
    let history = History::load("", 2);
    assert!(history.entries().is_empty());
}

#[test]
fn load_of_serialize_gives_the_entries_back() {
    let history = filled(5, &["a", "b b", "c", "a"]);
    let again = History::load(&history.serialize(), 5);
    assert_eq!(texts(&again), texts(&history));
}

#[test]
fn the_history_file_is_in_the_home_directory() {
    assert_eq!(HISTORY_FILE_NAME, ".rush_history");
    assert_eq!(MAX_HISTORY, 1000);
    assert_eq!(History::file_path("/home/user"), "/home/user/.rush_history");
    assert_eq!(History::file_path("."), "./.rush_history");
}
