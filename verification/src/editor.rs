//! The line editor: takes the bytes that the terminal sends, one at a time,
//! and builds the line that the user is typing.
//!
//! The editor is a machine of three states. In the normal state a byte is a
//! character of the line or a command to the editor; the two other states
//! follow the bytes of an arrow key, which the terminal sends as the escape
//! byte, `[` and a letter. The editor reads and writes nothing: for each byte
//! it says what is to be echoed to the terminal and whether a line is ready.

use vstd::prelude::*;
use vstd::string::StringExecFns;
use vstd::utf8::encode_utf8;
use crate::history::{History, HistoryView};
use crate::text::{chars_of, push_char, spaces, string_of};

verus! {

/// The byte that ends a line.
pub const NEWLINE: u8 = 10;

/// The byte of Ctrl-C, which gives the line up.
pub const INTERRUPT: u8 = 3;

/// The byte of Ctrl-D, which ends the shell from an empty line.
pub const END_OF_INPUT: u8 = 4;

/// The byte that an escape sequence begins with.
pub const ESCAPE: u8 = 27;

/// The second byte of the escape sequence of an arrow key: `[`.
pub const BRACKET: u8 = 91;

/// The last byte of the escape sequence of the up arrow: `A`.
pub const CURSOR_UP: u8 = 65;

/// The last byte of the escape sequence of the down arrow: `B`.
pub const CURSOR_DOWN: u8 = 66;

/// The byte of the backspace key.
pub const DELETE: u8 = 127;

/// What begins a redrawn line: a carriage return and the prompt.
pub const REDRAW_PROMPT: &'static str = "\r$ ";

/// What is echoed when a line is given up.
pub const INTERRUPT_ECHO: &'static str = "^C\n";

/// The exit code of a shell that is ended from an empty line.
pub const END_OF_INPUT_CODE: i32 = 0;

/// What is echoed when a line ends.
pub const NEWLINE_ECHO: &'static str = "\n";

/// Where the editor is in an escape sequence.
#[derive(Debug, Clone, Copy, PartialEq, Eq, Structural)]
pub enum EditorState {
    /// In none.
    Normal,
    /// The escape byte was seen.
    EscapeSeen,
    /// The escape byte and `[` were seen.
    BracketSeen,
}

/// What a byte led to.
#[derive(Debug, PartialEq, Eq)]
pub enum Event {
    /// The line is not ready: more bytes are to be fed.
    Pending,
    /// The line is ready. It is empty if the user gave it up.
    Line(String),
    /// The user asked to end the shell, with this exit code.
    Exit(i32),
}

/// The view of a [`Event`].
pub enum EventView {
    Pending,
    Line(Seq<char>),
    Exit(i32),
}

impl View for Event {
    type V = EventView;

    open spec fn view(&self) -> EventView {
        match self {
            Event::Pending => EventView::Pending,
            Event::Line(line) => EventView::Line(line@),
            Event::Exit(code) => EventView::Exit(*code),
        }
    }
}

/// The editor's answer to a byte: the text to write to the terminal, and
/// what the byte led to.
#[derive(Debug, PartialEq, Eq)]
pub struct Reaction {
    pub echo: String,
    pub event: Event,
}

/// The view of a [`Reaction`].
pub struct ReactionView {
    pub echo: Seq<char>,
    pub event: EventView,
}

impl View for Reaction {
    type V = ReactionView;

    open spec fn view(&self) -> ReactionView {
        ReactionView { echo: self.echo@, event: self.event@ }
    }
}

/// The line as typed so far, and the state of the editor.
pub struct LineEditor {
    buffer: Vec<char>,
    state: EditorState,
}

/// The view of a [`LineEditor`].
pub struct LineEditorView {
    pub buffer: Seq<char>,
    pub state: EditorState,
}

impl View for LineEditor {
    type V = LineEditorView;

    closed spec fn view(&self) -> LineEditorView {
        LineEditorView { buffer: self.buffer@, state: self.state }
    }
}

/// What feeding a byte gives: the editor and the history after it, and the
/// editor's answer.
pub struct Fed {
    pub editor: LineEditorView,
    pub history: HistoryView,
    pub reaction: ReactionView,
}

/// The number of bytes that a text takes in UTF-8, which is the length that
/// a string reports.
pub open spec fn byte_length(text: Seq<char>) -> usize {
    encode_utf8(text).len() as usize
}

/// The text that redraws the line: the prompt, blanks over what was there,
/// the prompt again, and the new line.
pub open spec fn redraw(blanks: nat, line: Seq<char>) -> Seq<char> {
    REDRAW_PROMPT@ + Seq::new(blanks, |i: int| ' ') + REDRAW_PROMPT@ + line
}

impl LineEditorView {
    /// The editor at the start of a line.
    pub open spec fn fresh() -> LineEditorView {
        LineEditorView { buffer: Seq::empty(), state: EditorState::Normal }
    }

    /// A step that changes nothing but the state and echoes nothing.
    pub open spec fn quiet(self, history: HistoryView, state: EditorState) -> Fed {
        Fed {
            editor: LineEditorView { state, ..self },
            history,
            reaction: ReactionView { echo: Seq::empty(), event: EventView::Pending },
        }
    }

    /// A step that puts `line` in place of the buffer and redraws it over
    /// the old one.
    pub open spec fn replace(self, history: HistoryView, line: Seq<char>) -> Fed {
        Fed {
            editor: LineEditorView { buffer: line, state: EditorState::Normal },
            history,
            reaction: ReactionView {
                echo: redraw(byte_length(self.buffer) as nat, line),
                event: EventView::Pending,
            },
        }
    }

    /// What a byte does in the normal state.
    ///
    /// A newline ends the line. Ctrl-C gives it up: the line that is ready
    /// is empty. Ctrl-D ends the shell with exit code 0 if the buffer is
    /// empty and does nothing otherwise. The escape byte begins an escape sequence. The
    /// backspace byte takes the last character away, if there is one, and
    /// redraws the line. Any other byte is a character of the line and is
    /// echoed.
    pub open spec fn feed_normal(self, history: HistoryView, byte: u8) -> Fed {
        if byte == NEWLINE {
            Fed {
                editor: LineEditorView::fresh(),
                history,
                reaction: ReactionView { echo: NEWLINE_ECHO@, event: EventView::Line(self.buffer) },
            }
        } else if byte == INTERRUPT {
            Fed {
                editor: LineEditorView::fresh(),
                history,
                reaction: ReactionView {
                    echo: INTERRUPT_ECHO@,
                    event: EventView::Line(Seq::empty()),
                },
            }
        } else if byte == END_OF_INPUT {
            if self.buffer.len() == 0 {
                Fed {
                    editor: self,
                    history,
                    reaction: ReactionView {
                        echo: NEWLINE_ECHO@,
                        event: EventView::Exit(END_OF_INPUT_CODE),
                    },
                }
            } else {
                self.quiet(history, EditorState::Normal)
            }
        } else if byte == ESCAPE {
            self.quiet(history, EditorState::EscapeSeen)
        } else if byte == DELETE {
            if self.buffer.len() == 0 {
                self.quiet(history, EditorState::Normal)
            } else {
                let shorter = self.buffer.drop_last();
                Fed {
                    editor: LineEditorView { buffer: shorter, state: EditorState::Normal },
                    history,
                    reaction: ReactionView {
                        echo: redraw(byte_length(shorter) as nat + 1, shorter),
                        event: EventView::Pending,
                    },
                }
            }
        } else {
            Fed {
                editor: LineEditorView {
                    buffer: self.buffer.push(byte as char),
                    state: EditorState::Normal,
                },
                history,
                reaction: ReactionView { echo: seq![byte as char], event: EventView::Pending },
            }
        }
    }

    /// What the last byte of an escape sequence does.
    ///
    /// `A`, the up arrow, steps back in the history: the entry that is shown
    /// takes the place of the buffer; without one, nothing changes. `B`, the
    /// down arrow, steps forward: the entry that is shown takes the place of
    /// the buffer, and past the newest entry the buffer is emptied. Any
    /// other byte does nothing. Whatever the byte, the sequence is over.
    pub open spec fn feed_code(self, history: HistoryView, byte: u8) -> Fed {
        if byte == CURSOR_UP {
            match history.previous().shown {
                Some(entry) => self.replace(history.previous().history, entry),
                None => self.quiet(history.previous().history, EditorState::Normal),
            }
        } else if byte == CURSOR_DOWN {
            match history.next().shown {
                Some(entry) => self.replace(history.next().history, entry),
                None => self.replace(history.next().history, Seq::empty()),
            }
        } else {
            self.quiet(history, EditorState::Normal)
        }
    }

    /// What a byte does.
    ///
    /// After the escape byte, `[` goes on with the sequence and any other
    /// byte is dropped and ends it.
    pub open spec fn feed(self, history: HistoryView, byte: u8) -> Fed {
        match self.state {
            EditorState::Normal => self.feed_normal(history, byte),
            EditorState::EscapeSeen => if byte == BRACKET {
                self.quiet(history, EditorState::BracketSeen)
            } else {
                self.quiet(history, EditorState::Normal)
            },
            EditorState::BracketSeen => self.feed_code(history, byte),
        }
    }
}

impl LineEditor {
    /// An editor at the start of a line.
    pub fn new() -> (out: Self)
        ensures
            out@ == LineEditorView::fresh(),
    {
        LineEditor { buffer: Vec::new(), state: EditorState::Normal }
    }

    /// The line as typed so far.
    pub fn buffer(&self) -> (out: String)
        ensures
            out@ == self@.buffer,
    {
        let out = string_of(&self.buffer, 0, self.buffer.len());
        assert(self.buffer@.subrange(0, self.buffer.len() as int) =~= self.buffer@);
        out
    }

    /// Where the editor is in an escape sequence.
    pub fn state(&self) -> (out: EditorState)
        ensures
            out == self@.state,
    {
        self.state
    }

    /// The text that redraws the line over `blanks` characters and one more
    /// if `extra` is set.
    fn redrawn(blanks: usize, extra: bool, line: &str) -> (out: String)
        ensures
            out@ == redraw(
                if extra {
                    blanks as nat + 1
                } else {
                    blanks as nat
                },
                line@,
            ),
    {
        let mut out = String::from_str(REDRAW_PROMPT);
        let ghost start = out@;
        out.append(spaces(blanks).as_str());
        if extra {
            push_char(&mut out, ' ');
            assert(out@ =~= start + Seq::new(blanks as nat + 1, |i: int| ' '));
        }
        out.append(REDRAW_PROMPT);
        out.append(line);
        out
    }

    /// Puts `line` in place of the buffer and gives the text that redraws it.
    fn replace_buffer(&mut self, line: &str) -> (out: String)
        ensures
            final(self)@ == (LineEditorView { buffer: line@, state: EditorState::Normal }),
            out@ == redraw(byte_length(old(self)@.buffer) as nat, line@),
    {
        let old_line = string_of(&self.buffer, 0, self.buffer.len());
        assert(self.buffer@.subrange(0, self.buffer.len() as int) =~= self.buffer@);
        let width = old_line.as_str().len();
        self.buffer = chars_of(line);
        self.state = EditorState::Normal;
        Self::redrawn(width, false, line)
    }

    /// Takes one byte from the terminal. `history` is stepped through when
    /// the byte completes an arrow key.
    pub fn feed(&mut self, byte: u8, history: &mut History) -> (out: Reaction)
        requires
            old(history)@.wf(),
        ensures
            final(history)@.wf(),
            final(self)@ == old(self)@.feed(old(history)@, byte).editor,
            final(history)@ == old(self)@.feed(old(history)@, byte).history,
            out@ == old(self)@.feed(old(history)@, byte).reaction,
    {
        match self.state {
            EditorState::Normal => {
                if byte == NEWLINE {
                    let line = self.buffer();
                    self.buffer = Vec::new();
                    Reaction { echo: String::from_str(NEWLINE_ECHO), event: Event::Line(line) }
                } else if byte == INTERRUPT {
                    self.buffer = Vec::new();
                    Reaction {
                        echo: String::from_str(INTERRUPT_ECHO),
                        event: Event::Line(String::new()),
                    }
                } else if byte == END_OF_INPUT {
                    if self.buffer.len() == 0 {
                        Reaction {
                            echo: String::from_str(NEWLINE_ECHO),
                            event: Event::Exit(END_OF_INPUT_CODE),
                        }
                    } else {
                        Reaction { echo: String::new(), event: Event::Pending }
                    }
                } else if byte == ESCAPE {
                    self.state = EditorState::EscapeSeen;
                    Reaction { echo: String::new(), event: Event::Pending }
                } else if byte == DELETE {
                    if self.buffer.len() == 0 {
                        Reaction { echo: String::new(), event: Event::Pending }
                    } else {
                        self.buffer.pop();
                        assert(self.buffer@ =~= old(self)@.buffer.drop_last());
                        let line = self.buffer();
                        let width = line.as_str().len();
                        Reaction {
                            echo: Self::redrawn(width, true, line.as_str()),
                            event: Event::Pending,
                        }
                    }
                } else {
                    let c = byte as char;
                    self.buffer.push(c);
                    let mut echo = String::new();
                    push_char(&mut echo, c);
                    assert(echo@ =~= seq![c]);
                    Reaction { echo, event: Event::Pending }
                }
            },
            EditorState::EscapeSeen => {
                self.state = if byte == BRACKET {
                    EditorState::BracketSeen
                } else {
                    EditorState::Normal
                };
                Reaction { echo: String::new(), event: Event::Pending }
            },
            EditorState::BracketSeen => {
                self.state = EditorState::Normal;
                if byte == CURSOR_UP {
                    match history.get_previous() {
                        Some(entry) => {
                            let echo = self.replace_buffer(entry.as_str());
                            Reaction { echo, event: Event::Pending }
                        },
                        None => Reaction { echo: String::new(), event: Event::Pending },
                    }
                } else if byte == CURSOR_DOWN {
                    match history.get_next() {
                        Some(entry) => {
                            let echo = self.replace_buffer(entry.as_str());
                            Reaction { echo, event: Event::Pending }
                        },
                        None => {
                            let echo = self.replace_buffer("");
                            proof {
                                reveal_strlit("");
                                assert(""@ =~= Seq::<char>::empty());
                            }
                            Reaction { echo, event: Event::Pending }
                        },
                    }
                } else {
                    Reaction { echo: String::new(), event: Event::Pending }
                }
            },
        }
    }
}

} // verus!
