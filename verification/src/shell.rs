//! From a line of input to its command plan, and what holds of the plan
//! whatever the line is.

use vstd::prelude::*;
use crate::command::{Segment, SegmentView};
use crate::executor::{all_have_stages, ActionView, ExecutorView};
use crate::lexer::{
    is_name_char, is_separator, lemma_name_length, next_token_at, scan_quote, tokenize,
    tokens_from, tokens_of, variable_at, QuoteScan,
};
use crate::parser::{lemma_no_tokens_no_segments, parse_pipeline, segments_of};
use crate::session::{value_of, Variables};
use crate::text::{is_blank, lemma_trim_is_trimmed, trimmed};
use crate::token::TokenView;

verus! {

/// The command plan of a line: nothing for a blank line, else the segments
/// of its tokens.
pub open spec fn plan_of(line: Seq<char>, vars: Map<Seq<char>, Seq<char>>) -> Seq<SegmentView> {
    if is_blank(line) {
        Seq::empty()
    } else {
        segments_of(tokens_of(line, vars))
    }
}

/// Makes the command plan of a line. A line of nothing but whitespace has an
/// empty plan; any other line is lexed and parsed.
pub fn plan_line(line: &str, vars: &Variables) -> (out: Vec<Segment>)
    ensures
        out.deep_view() == plan_of(line@, vars@),
        all_have_stages(out.deep_view()),
{
    proof {
        lemma_trim_is_trimmed(line@);
    }
    if trimmed(line).as_str().is_empty() {
        let out: Vec<Segment> = Vec::new();
        assert(out.deep_view() =~= Seq::<SegmentView>::empty());
        out
    } else {
        let out = parse_pipeline(tokenize(line, vars));
        assert forall|i: int| 0 <= i < out.deep_view().len() implies (
        #[trigger] out.deep_view()[i]).stages.len() > 0 by {
            assert(out.deep_view()[i] == out@[i]@);
            assert(out@[i].stages@.len() > 0);
        }
        out
    }
}

/// The law of the blank line: a line of nothing but whitespace has an empty
/// plan, and the executor has nothing to do for it.
pub proof fn lemma_blank_line_runs_nothing(
    line: Seq<char>,
    vars: Map<Seq<char>, Seq<char>>,
    home: Seq<char>,
    path: Seq<char>,
)
    requires
        is_blank(line),
    ensures
        plan_of(line, vars).len() == 0,
        ExecutorView::start(plan_of(line, vars), home, path).wf(),
        ExecutorView::start(plan_of(line, vars), home, path).finished(),
        ExecutorView::start(plan_of(line, vars), home, path).action() == ActionView::Finished,
{
}

/// From a position with nothing but separators after it, there is no token.
proof fn lemma_separators_from(input: Seq<char>, from: int, vars: Map<Seq<char>, Seq<char>>)
    requires
        0 <= from <= input.len(),
        forall|i: int| from <= i < input.len() ==> is_separator(#[trigger] input[i]),
    ensures
        next_token_at(input, from, vars).token is None,
    decreases input.len() - from,
{
    if from < input.len() {
        assert(is_separator(input[from]));
        lemma_separators_from(input, from + 1, vars);
    }
}

/// The law of separators: a line of nothing but spaces, tabs and newlines
/// has no token, and so no segment.
pub proof fn lemma_separators_give_no_tokens(line: Seq<char>, vars: Map<Seq<char>, Seq<char>>)
    requires
        forall|i: int| 0 <= i < line.len() ==> is_separator(#[trigger] line[i]),
    ensures
        tokens_of(line, vars) == Seq::<TokenView>::empty(),
        segments_of(tokens_of(line, vars)) == Seq::<SegmentView>::empty(),
{
    lemma_separators_from(line, 0, vars);
    lemma_no_tokens_no_segments();
}

/// The text `content` between two quote characters `quote`.
pub open spec fn quoted(quote: char, content: Seq<char>) -> Seq<char> {
    seq![quote] + content + seq![quote]
}

/// Inside single quotes, from any position on, the scan gives the rest of
/// the content as it stands.
proof fn lemma_scan_single_quoted(content: Seq<char>, from: int, vars: Map<Seq<char>, Seq<char>>)
    requires
        !content.contains('\''),
        1 <= from <= content.len() + 1,
    ensures
        scan_quote(quoted('\'', content), from, '\'', vars) == (QuoteScan {
            content: Some(content.skip(from - 1)),
            end: content.len() as int + 2,
        }),
    decreases content.len() + 1 - from,
{
    let input = quoted('\'', content);
    if from == content.len() + 1 {
        assert(input[from] == '\'');
        assert(content.skip(from - 1) =~= Seq::<char>::empty());
    } else {
        assert(input[from] == content[from - 1]);
        assert(content.contains(content[from - 1]));
        lemma_scan_single_quoted(content, from + 1, vars);
        assert(seq![input[from]] + content.skip(from) =~= content.skip(from - 1));
    }
}

/// The law of single quotes: what stands between single quotes is taken as
/// it stands, whatever it holds and whatever the variables are. No `$` in it
/// is substituted and no backslash escapes.
pub proof fn lemma_single_quotes_are_literal(content: Seq<char>, vars: Map<Seq<char>, Seq<char>>)
    requires
        !content.contains('\''),
    ensures
        tokens_of(quoted('\'', content), vars) == seq![TokenView::Quoted(content, true)],
{
    let input = quoted('\'', content);
    let end = content.len() + 2;
    lemma_scan_single_quoted(content, 1, vars);
    assert(content.skip(0) =~= content);
    assert(input[0] == '\'');
    assert(!is_separator('\''));
    let first = next_token_at(input, 0, vars);
    assert(first.token == Some(TokenView::Quoted(content, true)));
    assert(first.end == end);
    assert(next_token_at(input, end as int, vars).token is None);
    assert(tokens_from(input, end as int, vars) =~= Seq::<TokenView>::empty());
    assert(tokens_from(input, 0, vars) =~= seq![TokenView::Quoted(content, true)]);
}

/// The law of the bare variable: `$` and a name make one word, which holds
/// the value of the variable of that name, and is empty if there is none.
pub proof fn lemma_bare_variable_is_substituted(
    name: Seq<char>,
    vars: Map<Seq<char>, Seq<char>>,
)
    requires
        name.len() > 0,
        forall|i: int| 0 <= i < name.len() ==> is_name_char(#[trigger] name[i]),
    ensures
        tokens_of(seq!['$'] + name, vars) == seq![
            TokenView::Word(
                match value_of(vars, name) {
                    Some(value) => value,
                    None => Seq::empty(),
                },
            ),
        ],
{
    let input = seq!['$'] + name;
    let rest = input.skip(1);
    assert(rest =~= name);
    lemma_name_length(rest, name.len() as int);
    assert(input.subrange(1, 1 + name.len() as int) =~= name);
    assert(variable_at(input, 1, vars) == value_of(vars, name));
    assert(input[0] == '$');
    let first = next_token_at(input, 0, vars);
    assert(first.end == input.len());
    assert(next_token_at(input, input.len() as int, vars).token is None);
    assert(tokens_from(input, input.len() as int, vars) =~= Seq::<TokenView>::empty());
    let word = TokenView::Word(
        match value_of(vars, name) {
            Some(value) => value,
            None => Seq::empty(),
        },
    );
    assert(first.token == Some(word));
    assert(tokens_from(input, 0, vars) =~= seq![word]);
}

} // verus!
