//! The lexer: turns a line of text into tokens.
//!
//! The line is scanned once from left to right. Lexing never fails: a quote
//! that is not closed swallows the rest of the line and gives no token.

use vstd::prelude::*;
use crate::seqs::lemma_deep_view_push;
use crate::session::{value_of, Variables};
use crate::text::{
    char_is_alphanumeric, char_is_whitespace, chars_of, is_alphanumeric, is_whitespace, push_char,
    string_of,
};
use crate::token::{Token, TokenView};

verus! {

/// The character separates tokens and belongs to none: a space, a tab or a
/// newline.
pub open spec fn is_separator(c: char) -> bool {
    c == ' ' || c == '\t' || c == '\n'
}

/// The character ends a bare word that it follows: whitespace, or one of
/// `)`, `|`, `>`, `<`, `;` and `&`.
pub open spec fn is_word_break(c: char) -> bool {
    is_whitespace(c) || c == ')' || c == '|' || c == '>' || c == '<' || c == ';' || c == '&'
}

/// The character may stand in the name of a variable: a letter, a digit or
/// an underscore.
pub open spec fn is_name_char(c: char) -> bool {
    is_alphanumeric(c) || c == '_'
}

/// How many name characters `text` begins with.
pub open spec fn name_length(text: Seq<char>) -> nat
    decreases text.len(),
{
    if text.len() > 0 && is_name_char(text[0]) {
        1 + name_length(text.drop_first())
    } else {
        0
    }
}

/// How many characters `text` begins with that do not end a bare word.
pub open spec fn word_length(text: Seq<char>) -> nat
    decreases text.len(),
{
    if text.len() > 0 && !is_word_break(text[0]) {
        1 + word_length(text.drop_first())
    } else {
        0
    }
}

/// What a scan inside quotes finds: the content up to the closing quote, or
/// nothing if the quote is never closed, and the position where the scan
/// ends.
pub struct QuoteScan {
    pub content: Option<Seq<char>>,
    pub end: int,
}

impl QuoteScan {
    /// The same scan with `text` put before its content.
    pub open spec fn after(self, text: Seq<char>) -> QuoteScan {
        QuoteScan {
            content: match self.content {
                Some(rest) => Some(text + rest),
                None => None,
            },
            end: self.end,
        }
    }
}

/// The value that is substituted for the variable whose name starts at
/// `from`: the value of the longest name there, or nothing if it has none.
pub open spec fn variable_at(
    input: Seq<char>,
    from: int,
    vars: Map<Seq<char>, Seq<char>>,
) -> Option<Seq<char>> {
    value_of(vars, input.subrange(from, from + name_length(input.skip(from))))
}

/// The scan of quoted content from position `from`, which is just inside the
/// opening quote `quote`.
///
/// Between single quotes every character stands for itself. Between other
/// quotes a backslash makes the next character stand for itself, whatever it
/// is, and a `$` with the name after it stands for the value of that
/// variable, or for nothing if it has none.
pub open spec fn scan_quote(
    input: Seq<char>,
    from: int,
    quote: char,
    vars: Map<Seq<char>, Seq<char>>,
) -> QuoteScan
    decreases input.len() - from,
    via scan_quote_decreases
{
    if from < 0 || from >= input.len() {
        QuoteScan { content: None, end: input.len() as int }
    } else if input[from] == quote {
        QuoteScan { content: Some(Seq::empty()), end: from + 1 }
    } else if input[from] == '\\' && quote != '\'' {
        if from + 1 < input.len() {
            scan_quote(input, from + 2, quote, vars).after(seq![input[from + 1]])
        } else {
            QuoteScan { content: None, end: input.len() as int }
        }
    } else if input[from] == '$' && quote != '\'' {
        let value = match variable_at(input, from + 1, vars) {
            Some(value) => value,
            None => Seq::empty(),
        };
        scan_quote(input, from + 1 + name_length(input.skip(from + 1)), quote, vars).after(value)
    } else {
        scan_quote(input, from + 1, quote, vars).after(seq![input[from]])
    }
}

#[via_fn]
proof fn scan_quote_decreases(
    input: Seq<char>,
    from: int,
    quote: char,
    vars: Map<Seq<char>, Seq<char>>,
) {
    if 0 <= from < input.len() {
        lemma_name_length(input.skip(from + 1), 0);
    }
}

/// What one step of the lexer finds: the next token, or nothing if the
/// input holds no further token, and the position where the step ends.
pub struct Lexed {
    pub token: Option<TokenView>,
    pub end: int,
}

/// The redirect operator whose first `>` ends just before `from`: a second
/// `>` there makes it an appending one.
pub open spec fn redirect_at(input: Seq<char>, from: int, to_stderr: bool) -> Lexed {
    if 0 <= from < input.len() && input[from] == '>' {
        Lexed {
            token: Some(
                if to_stderr {
                    TokenView::RedirectErrAppend
                } else {
                    TokenView::RedirectOutAppend
                },
            ),
            end: from + 1,
        }
    } else {
        Lexed {
            token: Some(
                if to_stderr {
                    TokenView::RedirectErrTruncate
                } else {
                    TokenView::RedirectOutTruncate
                },
            ),
            end: from,
        }
    }
}

/// The character at `at` is `c`.
pub open spec fn has_at(input: Seq<char>, at: int, c: char) -> bool {
    0 <= at < input.len() && input[at] == c
}

/// The next token from position `from` on.
///
/// Separators are skipped. `||`, `|`, `&&`, `;`, `>`, `>>`, `2>` and `2>>`
/// are operators. A quote character opens a quoted string. A `$` with the
/// name after it is a word that holds the variable's value, which is empty
/// for a name without a value; a `$` with no name after it and no value of
/// its own is passed over. Anything else starts a bare word, which goes on
/// to the next character that ends a word.
pub open spec fn next_token_at(
    input: Seq<char>,
    from: int,
    vars: Map<Seq<char>, Seq<char>>,
) -> Lexed
    decreases input.len() - from,
{
    if from < 0 || from >= input.len() {
        Lexed { token: None, end: from }
    } else if is_separator(input[from]) {
        next_token_at(input, from + 1, vars)
    } else if input[from] == '|' {
        if has_at(input, from + 1, '|') {
            Lexed { token: Some(TokenView::Or), end: from + 2 }
        } else {
            Lexed { token: Some(TokenView::Pipe), end: from + 1 }
        }
    } else if input[from] == '>' {
        redirect_at(input, from + 1, false)
    } else if input[from] == '2' && has_at(input, from + 1, '>') {
        redirect_at(input, from + 2, true)
    } else if input[from] == ';' {
        Lexed { token: Some(TokenView::Semicolon), end: from + 1 }
    } else if input[from] == '\'' || input[from] == '"' {
        let scan = scan_quote(input, from + 1, input[from], vars);
        Lexed {
            token: match scan.content {
                Some(content) => Some(TokenView::Quoted(content, input[from] == '\'')),
                None => None,
            },
            end: scan.end,
        }
    } else if input[from] == '$' {
        let length = name_length(input.skip(from + 1));
        match variable_at(input, from + 1, vars) {
            Some(value) => Lexed { token: Some(TokenView::Word(value)), end: from + 1 + length },
            None => if length > 0 {
                Lexed { token: Some(TokenView::Word(Seq::empty())), end: from + 1 + length }
            } else {
                next_token_at(input, from + 1, vars)
            },
        }
    } else if input[from] == '&' && has_at(input, from + 1, '&') {
        Lexed { token: Some(TokenView::And), end: from + 2 }
    } else {
        let end = from + 1 + word_length(input.skip(from + 1));
        Lexed { token: Some(TokenView::Word(input.subrange(from, end))), end }
    }
}

/// The tokens of the input from position `from` on: the next token and those
/// after it, until a step finds none.
pub open spec fn tokens_from(
    input: Seq<char>,
    from: int,
    vars: Map<Seq<char>, Seq<char>>,
) -> Seq<TokenView>
    decreases input.len() - from,
    via tokens_from_decreases
{
    let lexed = next_token_at(input, from, vars);
    match lexed.token {
        Some(token) => seq![token] + tokens_from(input, lexed.end, vars),
        None => Seq::empty(),
    }
}

#[via_fn]
proof fn tokens_from_decreases(input: Seq<char>, from: int, vars: Map<Seq<char>, Seq<char>>) {
    lemma_next_token_at(input, from, vars);
}

/// The tokens of a line.
pub open spec fn tokens_of(input: Seq<char>, vars: Map<Seq<char>, Seq<char>>) -> Seq<TokenView> {
    tokens_from(input, 0, vars)
}

/// The name at the start of `text` is its longest prefix of name characters.
pub proof fn lemma_name_length(text: Seq<char>, length: int)
    requires
        0 <= length <= text.len(),
    ensures
        name_length(text) <= text.len(),
        name_length(text) == length <==> {
            &&& forall|i: int| 0 <= i < length ==> is_name_char(#[trigger] text[i])
            &&& length < text.len() ==> !is_name_char(text[length])
        },
    decreases text.len(),
{
    if text.len() > 0 && is_name_char(text[0]) {
        let rest = text.drop_first();
        if length > 0 {
            lemma_name_length(rest, length - 1);
            assert(length < text.len() ==> rest[length - 1] == text[length]);
            if name_length(text) == length {
                assert forall|i: int| 0 <= i < length implies is_name_char(#[trigger] text[i]) by {
                    if i > 0 {
                        assert(rest[i - 1] == text[i]);
                    }
                }
            }
            if forall|i: int| 0 <= i < length ==> is_name_char(#[trigger] text[i]) {
                assert forall|i: int| 0 <= i < length - 1 implies is_name_char(
                    #[trigger] rest[i],
                ) by {
                    assert(rest[i] == text[i + 1]);
                }
            }
        } else {
            lemma_name_length(rest, 0);
        }
    }
}

/// The bare word at the start of `text` is its longest prefix without a
/// character that ends a word.
pub proof fn lemma_word_length(text: Seq<char>, length: int)
    requires
        0 <= length <= text.len(),
    ensures
        word_length(text) <= text.len(),
        word_length(text) == length <==> {
            &&& forall|i: int| 0 <= i < length ==> !is_word_break(#[trigger] text[i])
            &&& length < text.len() ==> is_word_break(text[length])
        },
    decreases text.len(),
{
    if text.len() > 0 && !is_word_break(text[0]) {
        let rest = text.drop_first();
        if length > 0 {
            lemma_word_length(rest, length - 1);
            assert(length < text.len() ==> rest[length - 1] == text[length]);
            if word_length(text) == length {
                assert forall|i: int| 0 <= i < length implies !is_word_break(
                    #[trigger] text[i],
                ) by {
                    if i > 0 {
                        assert(rest[i - 1] == text[i]);
                    }
                }
            }
            if forall|i: int| 0 <= i < length ==> !is_word_break(#[trigger] text[i]) {
                assert forall|i: int| 0 <= i < length - 1 implies !is_word_break(
                    #[trigger] rest[i],
                ) by {
                    assert(rest[i] == text[i + 1]);
                }
            }
        } else {
            lemma_word_length(rest, 0);
        }
    }
}

/// A scan inside quotes ends within the input, after where it began.
pub proof fn lemma_scan_quote(
    input: Seq<char>,
    from: int,
    quote: char,
    vars: Map<Seq<char>, Seq<char>>,
)
    requires
        0 <= from <= input.len(),
    ensures
        from <= scan_quote(input, from, quote, vars).end <= input.len(),
        scan_quote(input, from, quote, vars).content is Some ==> from < scan_quote(
            input,
            from,
            quote,
            vars,
        ).end,
        scan_quote(input, from, quote, vars).content is None ==> scan_quote(
            input,
            from,
            quote,
            vars,
        ).end == input.len(),
    decreases input.len() - from,
{
    if from < input.len() {
        if input[from] == quote {
        } else if input[from] == '\\' && quote != '\'' {
            if from + 1 < input.len() {
                lemma_scan_quote(input, from + 2, quote, vars);
            }
        } else if input[from] == '$' && quote != '\'' {
            lemma_name_length(input.skip(from + 1), 0);
            lemma_scan_quote(input, from + 1 + name_length(input.skip(from + 1)), quote, vars);
        } else {
            lemma_scan_quote(input, from + 1, quote, vars);
        }
    }
}

/// A step of the lexer ends within the input. A step that finds a token
/// consumes at least one character; a step that finds none consumes all
/// that is left.
pub proof fn lemma_next_token_at(input: Seq<char>, from: int, vars: Map<Seq<char>, Seq<char>>)
    ensures
        0 <= from <= input.len() ==> from <= next_token_at(input, from, vars).end <= input.len(),
        next_token_at(input, from, vars).token is Some ==> from < next_token_at(
            input,
            from,
            vars,
        ).end <= input.len(),
        0 <= from <= input.len() && next_token_at(input, from, vars).token is None
            ==> next_token_at(input, from, vars).end == input.len(),
    decreases input.len() - from,
{
    if 0 <= from < input.len() {
        if is_separator(input[from]) {
            lemma_next_token_at(input, from + 1, vars);
        } else if input[from] == '\'' || input[from] == '"' {
            lemma_scan_quote(input, from + 1, input[from], vars);
        } else if input[from] == '$' {
            lemma_name_length(input.skip(from + 1), 0);
            lemma_next_token_at(input, from + 1, vars);
        } else {
            lemma_word_length(input.skip(from + 1), 0);
        }
    }
}

/// Putting two texts before a scan, one after the other, puts their
/// concatenation before it.
proof fn lemma_after_after(scan: QuoteScan, first: Seq<char>, second: Seq<char>)
    ensures
        scan.after(second).after(first) == scan.after(first + second),
{
    if scan.content is Some {
        assert(first + (second + scan.content->0) =~= (first + second) + scan.content->0);
    }
}

/// A lexer over one line of input: the characters of the line, the position
/// of the next character to read, and the variables that `$` refers to.
pub struct Lexer<'a> {
    input: Vec<char>,
    position: usize,
    env_vars: &'a Variables,
}

/// The view of a [`Lexer`].
pub struct LexerView {
    pub input: Seq<char>,
    pub position: int,
    pub vars: Map<Seq<char>, Seq<char>>,
}

impl LexerView {
    /// The position is within the input or at its end.
    pub open spec fn wf(self) -> bool {
        0 <= self.position <= self.input.len()
    }

    /// The character at the position, if the input goes that far.
    pub open spec fn peek(self) -> Option<char> {
        if 0 <= self.position < self.input.len() {
            Some(self.input[self.position])
        } else {
            None
        }
    }

    /// The same lexer at another position.
    pub open spec fn at(self, position: int) -> LexerView {
        LexerView { position, ..self }
    }
}

impl<'a> View for Lexer<'a> {
    type V = LexerView;

    closed spec fn view(&self) -> LexerView {
        LexerView {
            input: self.input@,
            position: self.position as int,
            vars: self.env_vars@,
        }
    }
}

/// Whether the character ends a bare word that it follows.
fn ends_word(c: char) -> (out: bool)
    ensures
        out == is_word_break(c),
{
    char_is_whitespace(c) || c == ')' || c == '|' || c == '>' || c == '<' || c == ';' || c == '&'
}

/// Whether the character may stand in the name of a variable.
fn in_name(c: char) -> (out: bool)
    ensures
        out == is_name_char(c),
{
    char_is_alphanumeric(c) || c == '_'
}

impl<'a> Lexer<'a> {
    /// A lexer at the start of `input`.
    pub fn new(input: &str, env_vars: &'a Variables) -> (out: Self)
        ensures
            out@.wf(),
            out@ == (LexerView { input: input@, position: 0, vars: env_vars@ }),
    {
        Lexer { input: chars_of(input), position: 0, env_vars }
    }

    /// The next character, which stays unread.
    pub fn peek(&self) -> (out: Option<char>)
        ensures
            out == self@.peek(),
    {
        if self.position < self.input.len() {
            Some(self.input[self.position])
        } else {
            None
        }
    }

    /// Reads the next character, if there is one.
    pub fn advance(&mut self) -> (out: Option<char>)
        ensures
            out == old(self)@.peek(),
            final(self)@ == old(self)@.at(
                if out is Some {
                    old(self)@.position + 1
                } else {
                    old(self)@.position
                },
            ),
            old(self)@.wf() ==> final(self)@.wf(),
    {
        if self.position < self.input.len() {
            let current = self.input[self.position];
            self.position = self.position + 1;
            Some(current)
        } else {
            None
        }
    }

    /// Reads the longest variable name at the position, which may be empty,
    /// and gives the value that the variables hold for it.
    pub fn lex_variable(&mut self) -> (out: Option<String>)
        requires
            old(self)@.wf(),
        ensures
            final(self)@.wf(),
            final(self)@ == old(self)@.at(
                old(self)@.position + name_length(old(self)@.input.skip(old(self)@.position)),
            ),
            out.deep_view() == variable_at(old(self)@.input, old(self)@.position, old(self)@.vars),
    {
        let start = self.position;
        let mut end = start;
        while end < self.input.len() && in_name(self.input[end])
            invariant
                start <= end <= self.input.len(),
                forall|i: int| start <= i < end ==> is_name_char(#[trigger] self.input@[i]),
            decreases self.input.len() - end,
        {
            end = end + 1;
        }
        proof {
            let rest = self.input@.skip(start as int);
            assert forall|i: int| 0 <= i < end - start implies is_name_char(#[trigger] rest[i]) by {
                assert(rest[i] == self.input@[start + i]);
            }
            lemma_name_length(rest, end - start);
        }
        let name = string_of(&self.input, start, end);
        self.position = end;
        match self.env_vars.get(name.as_str()) {
            Some(value) => Some(value.clone()),
            None => None,
        }
    }

    /// Reads quoted content up to the closing `quote_char` and makes a quoted
    /// token of it. If the input ends before the quote is closed, all of it
    /// is read and there is no token.
    pub fn lex_quote(&mut self, quote_char: char) -> (out: Option<Token>)
        requires
            old(self)@.wf(),
        ensures
            final(self)@.wf(),
            final(self)@ == old(self)@.at(
                scan_quote(old(self)@.input, old(self)@.position, quote_char, old(self)@.vars).end,
            ),
            out.deep_view() == match scan_quote(
                old(self)@.input,
                old(self)@.position,
                quote_char,
                old(self)@.vars,
            ).content {
                Some(content) => Some(TokenView::Quoted(content, quote_char == '\'')),
                None => None,
            },
    {
        let mut content = String::new();
        let is_single = quote_char == '\'';
        let ghost input = self@.input;
        let ghost vars = self@.vars;
        let ghost whole = scan_quote(input, self@.position, quote_char, vars);
        proof {
            let scan = scan_quote(input, self@.position, quote_char, vars);
            if scan.content is Some {
                assert(Seq::<char>::empty() + scan.content->0 =~= scan.content->0);
            }
        }
        while self.position < self.input.len()
            invariant
                self@.wf(),
                self@ == old(self)@.at(self@.position),
                input == self@.input,
                vars == self@.vars,
                is_single == (quote_char == '\''),
                whole == scan_quote(input, old(self)@.position, quote_char, vars),
                whole == scan_quote(input, self@.position, quote_char, vars).after(content@),
            decreases self.input.len() - self.position,
        {
            let ghost from = self@.position;
            let ghost before = content@;
            let c = self.input[self.position];
            self.position = self.position + 1;
            if c == quote_char {
                assert(before + Seq::<char>::empty() =~= before);
                return Some(Token::Quoted(content, is_single));
            }
            if c == '\\' && !is_single {
                match self.advance() {
                    Some(next) => {
                        push_char(&mut content, next);
                        proof {
                            lemma_after_after(
                                scan_quote(input, from + 2, quote_char, vars),
                                before,
                                seq![next],
                            );
                            assert(before + seq![next] =~= before.push(next));
                        }
                    },
                    None => {},
                }
            } else if c == '$' && !is_single {
                let value = self.lex_variable();
                proof {
                    let length = name_length(input.skip(from + 1));
                    let substituted = match variable_at(input, from + 1, vars) {
                        Some(value) => value,
                        None => Seq::empty(),
                    };
                    lemma_after_after(
                        scan_quote(input, from + 1 + length, quote_char, vars),
                        before,
                        substituted,
                    );
                    assert(before + Seq::<char>::empty() =~= before);
                }
                match value {
                    Some(value) => {
                        content.append(value.as_str());
                    },
                    None => {},
                }
            } else {
                push_char(&mut content, c);
                proof {
                    lemma_after_after(
                        scan_quote(input, from + 1, quote_char, vars),
                        before,
                        seq![c],
                    );
                    assert(before + seq![c] =~= before.push(c));
                }
            }
        }
        None
    }

    /// Finishes a redirect operator whose first `>` was just read: a second
    /// `>` at the position is read and makes the operator an appending one.
    /// `to_stderr` says that a `2` stood before the first `>`.
    pub fn lex_redirect(&mut self, to_stderr: bool) -> (out: Token)
        ensures
            Some(out@) == redirect_at(old(self)@.input, old(self)@.position, to_stderr).token,
            final(self)@ == old(self)@.at(
                redirect_at(old(self)@.input, old(self)@.position, to_stderr).end,
            ),
            old(self)@.wf() ==> final(self)@.wf(),
    {
        match self.peek() {
            Some('>') => {
                self.advance();
                if to_stderr {
                    Token::RedirectErrAppend
                } else {
                    Token::RedirectOutAppend
                }
            },
            _ => {
                if to_stderr {
                    Token::RedirectErrTruncate
                } else {
                    Token::RedirectOutTruncate
                }
            },
        }
    }

    /// Reads the next token. When the input holds no further token, all of
    /// it is read and there is none.
    pub fn next_token(&mut self) -> (out: Option<Token>)
        requires
            old(self)@.wf(),
        ensures
            final(self)@.wf(),
            final(self)@ == old(self)@.at(
                next_token_at(old(self)@.input, old(self)@.position, old(self)@.vars).end,
            ),
            out.deep_view() == next_token_at(
                old(self)@.input,
                old(self)@.position,
                old(self)@.vars,
            ).token,
    {
        let ghost input = self@.input;
        let ghost vars = self@.vars;
        let ghost whole = next_token_at(input, self@.position, vars);
        while self.position < self.input.len()
            invariant
                self@.wf(),
                self@ == old(self)@.at(self@.position),
                input == self@.input,
                vars == self@.vars,
                whole == next_token_at(input, old(self)@.position, vars),
                whole == next_token_at(input, self@.position, vars),
            decreases self.input.len() - self.position,
        {
            let ghost from = self@.position;
            let c = self.input[self.position];
            self.position = self.position + 1;
            if c == ' ' || c == '\t' || c == '\n' {
            } else if c == '|' {
                if self.peek() == Some('|') {
                    self.advance();
                    return Some(Token::Or);
                }
                return Some(Token::Pipe);
            } else if c == '>' {
                return Some(self.lex_redirect(false));
            } else if c == '2' && self.peek() == Some('>') {
                self.advance();
                return Some(self.lex_redirect(true));
            } else if c == ';' {
                return Some(Token::Semicolon);
            } else if c == '\'' || c == '"' {
                return self.lex_quote(c);
            } else if c == '$' {
                let start = self.position;
                let value = self.lex_variable();
                match value {
                    Some(value) => {
                        return Some(Token::Word(value));
                    },
                    None => {
                        if self.position > start {
                            return Some(Token::Word(String::new()));
                        }
                    },
                }
            } else if c == '&' && self.peek() == Some('&') {
                self.advance();
                return Some(Token::And);
            } else {
                let start = self.position - 1;
                let mut end = self.position;
                while end < self.input.len() && !ends_word(self.input[end])
                    invariant
                        start < end <= self.input.len(),
                        forall|i: int|
                            start < i < end ==> !is_word_break(#[trigger] self.input@[i]),
                    decreases self.input.len() - end,
                {
                    end = end + 1;
                }
                proof {
                    let rest = input.skip(from + 1);
                    assert forall|i: int| 0 <= i < end - from - 1 implies !is_word_break(
                        #[trigger] rest[i],
                    ) by {
                        assert(rest[i] == input[from + 1 + i]);
                    }
                    lemma_word_length(rest, end - from - 1);
                }
                let word = string_of(&self.input, start, end);
                self.position = end;
                return Some(Token::Word(word));
            }
        }
        None
    }
}

/// Lexes a whole line: the tokens in the order of the input.
pub fn tokenize(line: &str, vars: &Variables) -> (out: Vec<Token>)
    ensures
        out.deep_view() == tokens_of(line@, vars@),
{
    let mut lexer = Lexer::new(line, vars);
    let mut tokens: Vec<Token> = Vec::new();
    let ghost input = line@;
    assert(tokens.deep_view() + tokens_from(input, 0, vars@) =~= tokens_from(input, 0, vars@));
    loop
        invariant
            lexer@.wf(),
            input == line@,
            lexer@.input == input,
            lexer@.vars == vars@,
            tokens_of(input, vars@) == tokens.deep_view() + tokens_from(
                input,
                lexer@.position,
                vars@,
            ),
        decreases input.len() - lexer@.position,
    {
        let ghost from = lexer@.position;
        let ghost before = tokens;
        proof {
            lemma_next_token_at(input, from, vars@);
        }
        match lexer.next_token() {
            Some(token) => {
                tokens.push(token);
                proof {
                    lemma_deep_view_push(before, tokens, tokens@.last());
                    let lexed = next_token_at(input, from, vars@);
                    assert(before.deep_view() + (seq![lexed.token->0] + tokens_from(
                        input,
                        lexed.end,
                        vars@,
                    )) =~= tokens.deep_view() + tokens_from(input, lexed.end, vars@));
                }
            },
            None => {
                assert(tokens_from(input, from, vars@) =~= Seq::<TokenView>::empty());
                assert(tokens.deep_view() + Seq::<TokenView>::empty() =~= tokens.deep_view());
                return tokens;
            },
        }
    }
}

} // verus!
