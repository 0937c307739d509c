use rush::editor::{EditorState, Event, LineEditor, Reaction};
use rush::history::History;

fn pending(echo: &str) -> Reaction {
    Reaction { echo: echo.to_string(), event: Event::Pending }
}

fn feed_all(editor: &mut LineEditor, history: &mut History, bytes: &[u8]) -> (String, Event) {
    let mut echo = String::new();
    let mut event = Event::Pending;
    for byte in bytes {
        let reaction = editor.feed(*byte, history);
        echo.push_str(&reaction.echo);
        event = reaction.event;
        if event != Event::Pending {
            break;
        }
    }
    (echo, event)
}

fn history_of(lines: &[&str]) -> History {
    let mut history = History::new(100);
    for line in lines {
        history.add(line.to_string());
    }
    history
}

#[test]
fn typed_characters_are_echoed() {
    let mut editor = LineEditor::new();
    let mut history = History::new(10);
    assert_eq!(editor.feed(b'l', &mut history), pending("l"));
    assert_eq!(editor.feed(b's', &mut history), pending("s"));
    assert_eq!(editor.buffer(), "ls");
    assert_eq!(editor.state(), EditorState::Normal);
}

#[test]
fn newline_ends_the_line() {
    let mut editor = LineEditor::new();
    let mut history = History::new(10);
    let (echo, event) = feed_all(&mut editor, &mut history, b"echo hi\n");
    assert_eq!(echo, "echo hi\n");
    assert_eq!(event, Event::Line("echo hi".to_string()));
    assert_eq!(editor.buffer(), "");
}

#[test]
fn an_empty_line_is_a_line() {
    let mut editor = LineEditor::new();
    let mut history = History::new(10);
    assert_eq!(
        editor.feed(b'\n', &mut history),
        Reaction { echo: "\n".to_string(), event: Event::Line(String::new()) }
    );
}

#[test]
fn interrupt_gives_the_line_up() {
    let mut editor = LineEditor::new();
    let mut history = History::new(10);
    let (echo, event) = feed_all(&mut editor, &mut history, &[b'a', b'b', 3]);
    assert_eq!(echo, "ab^C\n");
    assert_eq!(event, Event::Line(String::new()));
    assert_eq!(editor.buffer(), "");
}

#[test]
fn end_of_input_on_an_empty_line_ends_the_shell() {
    let mut editor = LineEditor::new();
    let mut history = History::new(10);
    assert_eq!(
        editor.feed(4, &mut history),
        Reaction { echo: "\n".to_string(), event: Event::Exit(0) }
    );
}

#[test]
fn end_of_input_with_text_does_nothing() {
    let mut editor = LineEditor::new();
    let mut history = History::new(10);
    editor.feed(b'a', &mut history);
    assert_eq!(editor.feed(4, &mut history), pending(""));
    assert_eq!(editor.buffer(), "a");
}

#[test]
fn backspace_takes_the_last_character() {
    let mut editor = LineEditor::new();
    let mut history = History::new(10);
    feed_all(&mut editor, &mut history, b"ab");
    assert_eq!(editor.feed(127, &mut history), pending("\r$   \r$ a"));
    assert_eq!(editor.buffer(), "a");
    assert_eq!(editor.feed(127, &mut history), pending("\r$  \r$ "));
    assert_eq!(editor.buffer(), "");
}

#[test]
fn backspace_on_an_empty_line_does_nothing() {
    let mut editor = LineEditor::new();
    let mut history = History::new(10);
    assert_eq!(editor.feed(127, &mut history), pending(""));
    assert_eq!(editor.buffer(), "");
}

#[test]
fn a_high_byte_is_one_character_of_two_bytes() {
    let mut editor = LineEditor::new();
    let mut history = history_of(&["ls"]);
    assert_eq!(editor.feed(0xE9, &mut history), pending("é"));
    assert_eq!(editor.buffer(), "é");
    assert_eq!(editor.feed(b'x', &mut history), pending("x"));
    assert_eq!(editor.feed(127, &mut history), pending("\r$    \r$ é"));
    let (echo, _) = feed_all(&mut editor, &mut history, &[27, 91, 65]);
    assert_eq!(echo, "\r$   \r$ ls");
}

#[test]
fn the_up_arrow_recalls_the_previous_entry() {
    let mut editor = LineEditor::new();
    let mut history = history_of(&["ls", "pwd"]);
    feed_all(&mut editor, &mut history, b"xy");
    assert_eq!(editor.feed(27, &mut history), pending(""));
    assert_eq!(editor.state(), EditorState::EscapeSeen);
    assert_eq!(editor.feed(91, &mut history), pending(""));
    assert_eq!(editor.state(), EditorState::BracketSeen);
    assert_eq!(editor.feed(65, &mut history), pending("\r$   \r$ pwd"));
    assert_eq!(editor.state(), EditorState::Normal);
    assert_eq!(editor.buffer(), "pwd");
    let (echo, _) = feed_all(&mut editor, &mut history, &[27, 91, 65]);
    assert_eq!(echo, "\r$    \r$ ls");
    assert_eq!(editor.buffer(), "ls");
    let (echo, _) = feed_all(&mut editor, &mut history, &[27, 91, 65]);
    assert_eq!(echo, "\r$   \r$ ls");
    assert_eq!(editor.buffer(), "ls");
}

#[test]
fn the_up_arrow_without_history_changes_nothing() {
    let mut editor = LineEditor::new();
    let mut history = History::new(10);
    feed_all(&mut editor, &mut history, b"xy");
    let (echo, event) = feed_all(&mut editor, &mut history, &[27, 91, 65]);
    assert_eq!(echo, "");
    assert_eq!(event, Event::Pending);
    assert_eq!(editor.buffer(), "xy");
    assert_eq!(editor.state(), EditorState::Normal);
}

#[test]
fn the_down_arrow_recalls_the_next_entry() {
    let mut editor = LineEditor::new();
    let mut history = history_of(&["ls", "pwd"]);
    feed_all(&mut editor, &mut history, &[27, 91, 65, 27, 91, 65]);
    assert_eq!(editor.buffer(), "ls");
    let (echo, _) = feed_all(&mut editor, &mut history, &[27, 91, 66]);
    assert_eq!(echo, "\r$   \r$ pwd");
    assert_eq!(editor.buffer(), "pwd");
}

#[test]
fn the_down_arrow_past_the_newest_clears_the_line() {
    let mut editor = LineEditor::new();
    let mut history = history_of(&["ls", "pwd"]);
    feed_all(&mut editor, &mut history, &[27, 91, 65]);
    assert_eq!(editor.buffer(), "pwd");
    let (echo, _) = feed_all(&mut editor, &mut history, &[27, 91, 66]);
    assert_eq!(echo, "\r$    \r$ ");
    assert_eq!(editor.buffer(), "");
    assert_eq!(history.position(), 2);
    feed_all(&mut editor, &mut history, b"abc");
    let (echo, _) = feed_all(&mut editor, &mut history, &[27, 91, 66]);
    assert_eq!(echo, "\r$    \r$ ");
    assert_eq!(editor.buffer(), "");
}

#[test]
fn another_code_byte_is_ignored() {
    let mut editor = LineEditor::new();
    let mut history = history_of(&["ls"]);
    feed_all(&mut editor, &mut history, b"x");
    let (echo, event) = feed_all(&mut editor, &mut history, &[27, 91, 67]);
    assert_eq!(echo, "");
    assert_eq!(event, Event::Pending);
    assert_eq!(editor.buffer(), "x");
    assert_eq!(editor.state(), EditorState::Normal);
    assert_eq!(history.position(), 1);
}

#[test]
fn a_broken_escape_drops_one_byte() {
    let mut editor = LineEditor::new();
    let mut history = history_of(&["ls"]);
    let (echo, _) = feed_all(&mut editor, &mut history, &[27, b'x', b'A']);
    assert_eq!(echo, "A");
    assert_eq!(editor.buffer(), "A");
    assert_eq!(editor.state(), EditorState::Normal);
    let (echo, event) = feed_all(&mut editor, &mut history, &[27, b'\n']);
    assert_eq!(echo, "");
    assert_eq!(event, Event::Pending);
    assert_eq!(editor.buffer(), "A");
}

#[test]
fn a_recalled_line_can_be_edited_and_sent() {
    let mut editor = LineEditor::new();
    let mut history = history_of(&["echo a"]);
    let (_, event) = feed_all(&mut editor, &mut history, &[27, 91, 65, 127, b'b', b'\n']);
    assert_eq!(event, Event::Line("echo b".to_string()));
}
