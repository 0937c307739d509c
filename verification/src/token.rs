//! Tokens: the words and operators that a command line is made of.

use vstd::prelude::*;
use crate::command::Sequencer;

verus! {

/// One lexical unit of a command line. Tokens come out of the lexer in the
/// order of the input and are never reordered afterwards.
#[derive(Debug, PartialEq, Eq)]
pub enum Token {
    /// A bare word, after variable substitution.
    Word(String),
    /// The content of a quoted string, and whether the quotes were single.
    Quoted(String, bool),
    /// `|`
    Pipe,
    /// `>`
    RedirectOutTruncate,
    /// `>>`
    RedirectOutAppend,
    /// `2>`
    RedirectErrTruncate,
    /// `2>>`
    RedirectErrAppend,
    /// `&&`
    And,
    /// `||`
    Or,
    /// `;`
    Semicolon,
}

/// The view of a [`Token`]: the same variants over sequences of characters.
pub enum TokenView {
    Word(Seq<char>),
    Quoted(Seq<char>, bool),
    Pipe,
    RedirectOutTruncate,
    RedirectOutAppend,
    RedirectErrTruncate,
    RedirectErrAppend,
    And,
    Or,
    Semicolon,
}

impl TokenView {
    /// The token carries text: it is a word or a quoted string.
    pub open spec fn is_text(self) -> bool {
        self is Word || self is Quoted
    }

    /// The text of a word or quoted string; empty for an operator.
    pub open spec fn text(self) -> Seq<char> {
        match self {
            TokenView::Word(t) => t,
            TokenView::Quoted(t, _) => t,
            _ => Seq::empty(),
        }
    }

    /// The token is one of the four redirect operators.
    pub open spec fn is_redirect(self) -> bool {
        self is RedirectOutTruncate || self is RedirectOutAppend || self is RedirectErrTruncate
            || self is RedirectErrAppend
    }

    /// The redirect operator writes the error stream.
    pub open spec fn redirects_stderr(self) -> bool {
        self is RedirectErrTruncate || self is RedirectErrAppend
    }

    /// The redirect operator appends to its file.
    pub open spec fn redirect_appends(self) -> bool {
        self is RedirectOutAppend || self is RedirectErrAppend
    }

    /// The token ends a segment: `&&`, `||` or `;`.
    pub open spec fn is_sequencer(self) -> bool {
        self is And || self is Or || self is Semicolon
    }

    /// The sequencer that the token stands for; the end of the line for a
    /// token that is no sequencing operator.
    pub open spec fn sequencer(self) -> Sequencer {
        match self {
            TokenView::And => Sequencer::And,
            TokenView::Or => Sequencer::Or,
            TokenView::Semicolon => Sequencer::Semicolon,
            _ => Sequencer::End,
        }
    }
}

impl View for Token {
    type V = TokenView;

    open spec fn view(&self) -> TokenView {
        match self {
            Token::Word(t) => TokenView::Word(t@),
            Token::Quoted(t, single) => TokenView::Quoted(t@, *single),
            Token::Pipe => TokenView::Pipe,
            Token::RedirectOutTruncate => TokenView::RedirectOutTruncate,
            Token::RedirectOutAppend => TokenView::RedirectOutAppend,
            Token::RedirectErrTruncate => TokenView::RedirectErrTruncate,
            Token::RedirectErrAppend => TokenView::RedirectErrAppend,
            Token::And => TokenView::And,
            Token::Or => TokenView::Or,
            Token::Semicolon => TokenView::Semicolon,
        }
    }
}

impl DeepView for Token {
    type V = TokenView;

    open spec fn deep_view(&self) -> TokenView {
        self@
    }
}

impl Clone for Token {
    fn clone(&self) -> (out: Self)
        ensures
            out == *self,
    {
        match self {
            Token::Word(t) => Token::Word(t.clone()),
            Token::Quoted(t, single) => Token::Quoted(t.clone(), *single),
            Token::Pipe => Token::Pipe,
            Token::RedirectOutTruncate => Token::RedirectOutTruncate,
            Token::RedirectOutAppend => Token::RedirectOutAppend,
            Token::RedirectErrTruncate => Token::RedirectErrTruncate,
            Token::RedirectErrAppend => Token::RedirectErrAppend,
            Token::And => Token::And,
            Token::Or => Token::Or,
            Token::Semicolon => Token::Semicolon,
        }
    }
}

impl Token {
    /// The text of a word or quoted string.
    pub fn text(&self) -> (out: Option<&String>)
        ensures
            out is Some <==> self@.is_text(),
            out is Some ==> out->0@ == self@.text(),
    {
        match self {
            Token::Word(t) => Some(t),
            Token::Quoted(t, _) => Some(t),
            _ => None,
        }
    }

    /// Whether the token is a pipe.
    pub fn is_pipe(&self) -> (out: bool)
        ensures
            out == (self@ is Pipe),
    {
        match self {
            Token::Pipe => true,
            _ => false,
        }
    }

    /// The sequencer that the token stands for, if it is `&&`, `||` or `;`.
    pub fn sequencer(&self) -> (out: Option<Sequencer>)
        ensures
            out is Some <==> self@.is_sequencer(),
            out is Some ==> out->0 == self@.sequencer(),
    {
        match self {
            Token::And => Some(Sequencer::And),
            Token::Or => Some(Sequencer::Or),
            Token::Semicolon => Some(Sequencer::Semicolon),
            _ => None,
        }
    }
}

} // verus!
