//! The parser: groups the tokens of a line into segments of stages.
//!
//! Parsing never fails. A fragment that makes no sense (a redirect operator
//! without a path, a pipe with nothing before it, a sequencing operator after
//! nothing) is left out of the plan.

use vstd::prelude::*;
use vstd::slice::slice_subrange;
use crate::command::{
    Redirection, RedirectionView, Segment, SegmentView, Sequencer, Stage, StageView,
};
use crate::seqs::{lemma_deep_view_push, lemma_deep_view_subrange};
use crate::token::{Token, TokenView};

verus! {

/// Token `i` is the path of a redirect operator: a word or quoted string that
/// directly follows one.
pub open spec fn is_redirect_path(tokens: Seq<TokenView>, i: int) -> bool {
    0 < i < tokens.len() && tokens[i - 1].is_redirect() && tokens[i].is_text()
}

/// The redirection that the redirect operator `operator` makes with `path`.
pub open spec fn redirection_to(operator: TokenView, path: Seq<char>) -> RedirectionView {
    if operator.redirects_stderr() {
        RedirectionView::WriteStderr(path, operator.redirect_appends())
    } else {
        RedirectionView::WriteStdout(path, operator.redirect_appends())
    }
}

/// The words of a stage: the texts of its words and quoted strings that are
/// not redirect paths, in order. The first is the program, the rest are its
/// arguments.
pub open spec fn stage_words(tokens: Seq<TokenView>) -> Seq<Seq<char>>
    decreases tokens.len(),
{
    if tokens.len() == 0 {
        Seq::empty()
    } else {
        let before = stage_words(tokens.drop_last());
        if tokens.last().is_text() && !is_redirect_path(tokens, tokens.len() - 1) {
            before.push(tokens.last().text())
        } else {
            before
        }
    }
}

/// The redirection of a stage: that of its last pipe or redirect operator
/// with a path, whichever comes later. A redirect operator without a path
/// counts for nothing.
pub open spec fn stage_redirection(tokens: Seq<TokenView>) -> RedirectionView
    decreases tokens.len(),
{
    if tokens.len() == 0 {
        RedirectionView::Inherit
    } else if tokens.last() is Pipe {
        RedirectionView::PipeToNext
    } else if is_redirect_path(tokens, tokens.len() - 1) {
        redirection_to(tokens[tokens.len() - 2], tokens.last().text())
    } else {
        stage_redirection(tokens.drop_last())
    }
}

/// The stage that a run of tokens makes, if it names a program.
pub open spec fn stage_of(tokens: Seq<TokenView>) -> Option<StageView> {
    let words = stage_words(tokens);
    if words.len() == 0 {
        None
    } else {
        Some(
            StageView {
                program: words[0],
                args: words.skip(1),
                redirection: stage_redirection(tokens),
            },
        )
    }
}

/// How many tokens stand before the first pipe, or in all if there is none.
pub open spec fn first_pipe(tokens: Seq<TokenView>) -> nat
    decreases tokens.len(),
{
    if tokens.len() == 0 || tokens[0] is Pipe {
        0
    } else {
        1 + first_pipe(tokens.drop_first())
    }
}

/// How many tokens stand before the first sequencing operator, or in all if
/// there is none.
pub open spec fn first_sequencer(tokens: Seq<TokenView>) -> nat
    decreases tokens.len(),
{
    if tokens.len() == 0 || tokens[0].is_sequencer() {
        0
    } else {
        1 + first_sequencer(tokens.drop_first())
    }
}

/// The stages of one segment: the tokens are cut at each pipe, and each part
/// that names a program makes a stage.
pub open spec fn stages_of(tokens: Seq<TokenView>) -> Seq<StageView>
    decreases tokens.len(),
{
    let cut = first_pipe(tokens) as int;
    let head = match stage_of(tokens.take(cut)) {
        Some(stage) => seq![stage],
        None => Seq::empty(),
    };
    if cut >= tokens.len() {
        head
    } else {
        head + stages_of(tokens.skip(cut + 1))
    }
}

/// The segments of a line: the tokens are cut at each sequencing operator,
/// and each part that has a stage makes a segment, ended by that operator or
/// by the end of the line.
pub open spec fn segments_of(tokens: Seq<TokenView>) -> Seq<SegmentView>
    decreases tokens.len(),
{
    let cut = first_sequencer(tokens) as int;
    let stages = stages_of(tokens.take(cut));
    let terminator = if cut < tokens.len() {
        tokens[cut].sequencer()
    } else {
        Sequencer::End
    };
    let head = if stages.len() > 0 {
        seq![SegmentView { stages, terminator }]
    } else {
        Seq::empty()
    };
    if cut >= tokens.len() {
        head
    } else {
        head + segments_of(tokens.skip(cut + 1))
    }
}

/// What one more token adds to the words and the redirection of a stage.
proof fn lemma_stage_extend(tokens: Seq<TokenView>, i: int)
    requires
        0 <= i < tokens.len(),
    ensures
        stage_words(tokens.take(i + 1)) == if tokens[i].is_text() && !is_redirect_path(tokens, i) {
            stage_words(tokens.take(i)).push(tokens[i].text())
        } else {
            stage_words(tokens.take(i))
        },
        stage_redirection(tokens.take(i + 1)) == if tokens[i] is Pipe {
            RedirectionView::PipeToNext
        } else if is_redirect_path(tokens, i) {
            redirection_to(tokens[i - 1], tokens[i].text())
        } else {
            stage_redirection(tokens.take(i))
        },
{
    let upto = tokens.take(i + 1);
    assert(upto.drop_last() =~= tokens.take(i));
    assert(upto.last() == tokens[i]);
    assert(is_redirect_path(upto, i) == is_redirect_path(tokens, i)) by {
        if i > 0 {
            assert(upto[i - 1] == tokens[i - 1]);
        }
    }
}

/// Makes a stage of a run of tokens. The first word or quoted string is the
/// program and the others are its arguments, but for those that directly
/// follow a redirect operator: such a one is the operator's path. Of several
/// redirections the last one holds. Without a program there is no stage.
pub fn parse_command(tokens: &[Token]) -> (out: Option<Stage>)
    ensures
        match out {
            Some(stage) => stage_of(tokens.deep_view()) == Some(stage@),
            None => stage_of(tokens.deep_view()) is None,
        },
{
    let ghost all = tokens.deep_view();
    let mut program: Option<String> = None;
    let mut args: Vec<String> = Vec::new();
    let mut redirection = Redirection::Inherit;
    let mut i: usize = 0;
    assert(all.take(0) =~= Seq::<TokenView>::empty());
    while i < tokens.len()
        invariant
            i <= tokens.len(),
            all == tokens.deep_view(),
            all.len() == tokens.len(),
            0 < i < tokens.len() ==> !is_redirect_path(all, i as int),
            redirection@ == stage_redirection(all.take(i as int)),
            match program {
                Some(name) => stage_words(all.take(i as int)) == seq![name@] + args.deep_view(),
                None => stage_words(all.take(i as int)).len() == 0 && args@.len() == 0,
            },
        decreases tokens.len() - i,
    {
        proof {
            lemma_stage_extend(all, i as int);
            assert(all[i as int] == tokens@[i as int]@);
        }
        match &tokens[i] {
            Token::Word(word) | Token::Quoted(word, _) => {
                if program.is_none() {
                    program = Some(word.clone());
                    assert(Seq::<Seq<char>>::empty().push(word@) =~= seq![word@]
                        + args.deep_view());
                } else {
                    let ghost before = args;
                    args.push(word.clone());
                    proof {
                        lemma_deep_view_push(before, args, args@.last());
                        assert((seq![program->0@] + before.deep_view()).push(word@) =~= seq![
                            program->0@,
                        ] + args.deep_view());
                    }
                }
                i = i + 1;
            },
            Token::RedirectOutTruncate
            | Token::RedirectOutAppend
            | Token::RedirectErrTruncate
            | Token::RedirectErrAppend => {
                let path = if i + 1 < tokens.len() {
                    tokens[i + 1].text()
                } else {
                    None
                };
                match path {
                    Some(path) => {
                        proof {
                            lemma_stage_extend(all, i + 1);
                            assert(all[i + 1] == tokens@[i + 1]@);
                        }
                        redirection = match &tokens[i] {
                            Token::RedirectOutTruncate => Redirection::WriteStdout(
                                path.clone(),
                                false,
                            ),
                            Token::RedirectOutAppend => Redirection::WriteStdout(
                                path.clone(),
                                true,
                            ),
                            Token::RedirectErrTruncate => Redirection::WriteStderr(
                                path.clone(),
                                false,
                            ),
                            _ => Redirection::WriteStderr(path.clone(), true),
                        };
                        i = i + 2;
                    },
                    None => {
                        i = i + 1;
                    },
                }
            },
            Token::Pipe => {
                redirection = Redirection::PipeToNext;
                i = i + 1;
            },
            _ => {
                i = i + 1;
            },
        }
    }
    assert(all.take(tokens.len() as int) =~= all);
    match program {
        Some(name) => {
            let stage = Stage { program: name, args, redirection };
            proof {
                let words = stage_words(all);
                assert(words.skip(1) =~= stage.args.deep_view());
            }
            Some(stage)
        },
        None => None,
    }
}

/// The first pipe is where a pipe stands with none before it.
proof fn lemma_first_pipe(tokens: Seq<TokenView>, cut: int)
    requires
        0 <= cut <= tokens.len(),
        forall|j: int| 0 <= j < cut ==> !(#[trigger] tokens[j] is Pipe),
        cut < tokens.len() ==> tokens[cut] is Pipe,
    ensures
        first_pipe(tokens) == cut,
    decreases cut,
{
    if cut > 0 {
        let rest = tokens.drop_first();
        assert(!(tokens[0] is Pipe));
        assert forall|j: int| 0 <= j < cut - 1 implies !(#[trigger] rest[j] is Pipe) by {
            assert(rest[j] == tokens[j + 1]);
        }
        lemma_first_pipe(rest, cut - 1);
    }
}

/// The first sequencing operator is where one stands with none before it.
proof fn lemma_first_sequencer(tokens: Seq<TokenView>, cut: int)
    requires
        0 <= cut <= tokens.len(),
        forall|j: int| 0 <= j < cut ==> !(#[trigger] tokens[j]).is_sequencer(),
        cut < tokens.len() ==> tokens[cut].is_sequencer(),
    ensures
        first_sequencer(tokens) == cut,
    decreases cut,
{
    if cut > 0 {
        let rest = tokens.drop_first();
        assert(!tokens[0].is_sequencer());
        assert forall|j: int| 0 <= j < cut - 1 implies !(#[trigger] rest[j]).is_sequencer() by {
            assert(rest[j] == tokens[j + 1]);
        }
        lemma_first_sequencer(rest, cut - 1);
    }
}

/// Makes the stages of one segment: cuts the tokens at each pipe and makes a
/// stage of each part that names a program.
pub fn parse_stages(tokens: &[Token]) -> (out: Vec<Stage>)
    ensures
        out.deep_view() == stages_of(tokens.deep_view()),
{
    let ghost all = tokens.deep_view();
    let mut stages: Vec<Stage> = Vec::new();
    let mut start: usize = 0;
    assert(all.skip(0) =~= all);
    assert(stages.deep_view() + stages_of(all) =~= stages_of(all));
    while start < tokens.len()
        invariant
            start <= tokens.len(),
            all == tokens.deep_view(),
            all.len() == tokens.len(),
            stages_of(all) == stages.deep_view() + stages_of(all.skip(start as int)),
        decreases tokens.len() - start,
    {
        let mut cut: usize = start;
        while cut < tokens.len() && !tokens[cut].is_pipe()
            invariant
                start <= cut <= tokens.len(),
                all == tokens.deep_view(),
                forall|j: int| start <= j < cut ==> !(#[trigger] all[j] is Pipe),
            decreases tokens.len() - cut,
        {
            cut = cut + 1;
        }
        let part = slice_subrange(tokens, start, cut);
        let ghost rest = all.skip(start as int);
        let ghost before = stages;
        proof {
            assert forall|j: int| 0 <= j < cut - start implies !(#[trigger] rest[j] is Pipe) by {
                assert(rest[j] == all[start + j]);
            }
            lemma_first_pipe(rest, cut - start);
            lemma_deep_view_subrange(tokens, part, start as int, cut as int);
            assert(rest.take(cut - start) =~= all.subrange(start as int, cut as int));
        }
        match parse_command(part) {
            Some(stage) => {
                stages.push(stage);
                proof {
                    lemma_deep_view_push(before, stages, stages@.last());
                }
            },
            None => {},
        }
        if cut < tokens.len() {
            proof {
                assert(rest.skip(cut - start + 1) =~= all.skip(cut + 1));
                assert(stages_of(all) =~= stages.deep_view() + stages_of(all.skip(cut + 1)));
            }
            start = cut + 1;
        } else {
            proof {
                assert(all.skip(tokens.len() as int) =~= Seq::<TokenView>::empty());
                assert(first_pipe(Seq::<TokenView>::empty()) == 0);
                assert(Seq::<TokenView>::empty().take(0) =~= Seq::<TokenView>::empty());
                assert(stages_of(Seq::<TokenView>::empty()) =~= Seq::<StageView>::empty());
                assert(stages_of(all) =~= stages.deep_view() + stages_of(
                    all.skip(tokens.len() as int),
                ));
            }
            start = tokens.len();
        }
    }
    proof {
        assert(all.skip(tokens.len() as int) =~= Seq::<TokenView>::empty());
        assert(Seq::<TokenView>::empty().take(0) =~= Seq::<TokenView>::empty());
        assert(stages_of(Seq::<TokenView>::empty()) =~= Seq::<StageView>::empty());
        assert(stages.deep_view() + Seq::<StageView>::empty() =~= stages.deep_view());
    }
    stages
}

/// Makes the command plan of a line: cuts the tokens at each `&&`, `||` and
/// `;`, and makes a segment of each part that has a stage, ended by that
/// operator or by the end of the line. An operator with no stage before it
/// is left out.
pub fn parse_pipeline(tokens: Vec<Token>) -> (out: Vec<Segment>)
    ensures
        out.deep_view() == segments_of(tokens.deep_view()),
        forall|i: int| 0 <= i < out@.len() ==> (#[trigger] out@[i]).stages@.len() > 0,
{
    let ghost all = tokens.deep_view();
    let mut segments: Vec<Segment> = Vec::new();
    let mut start: usize = 0;
    assert(all.skip(0) =~= all);
    assert(segments.deep_view() + segments_of(all) =~= segments_of(all));
    while start < tokens.len()
        invariant
            start <= tokens.len(),
            all == tokens.deep_view(),
            all.len() == tokens.len(),
            segments_of(all) == segments.deep_view() + segments_of(all.skip(start as int)),
            forall|i: int| 0 <= i < segments@.len() ==> (#[trigger] segments@[i]).stages@.len() > 0,
        decreases tokens.len() - start,
    {
        let mut cut: usize = start;
        while cut < tokens.len() && tokens[cut].sequencer().is_none()
            invariant
                start <= cut <= tokens.len(),
                all == tokens.deep_view(),
                forall|j: int| start <= j < cut ==> !(#[trigger] all[j]).is_sequencer(),
            decreases tokens.len() - cut,
        {
            cut = cut + 1;
        }
        let whole = tokens.as_slice();
        let part = slice_subrange(whole, start, cut);
        let ghost rest = all.skip(start as int);
        let ghost before = segments;
        proof {
            assert forall|j: int| 0 <= j < cut - start implies !(
            #[trigger] rest[j]).is_sequencer() by {
                assert(rest[j] == all[start + j]);
            }
            lemma_first_sequencer(rest, cut - start);
            lemma_deep_view_subrange(whole, part, start as int, cut as int);
            assert(whole.deep_view() =~= all);
            assert(rest.take(cut - start) =~= all.subrange(start as int, cut as int));
        }
        let stages = parse_stages(part);
        let terminator = if cut < tokens.len() {
            match tokens[cut].sequencer() {
                Some(sequencer) => sequencer,
                None => Sequencer::End,
            }
        } else {
            Sequencer::End
        };
        if stages.len() > 0 {
            segments.push(Segment { stages, terminator });
            proof {
                lemma_deep_view_push(before, segments, segments@.last());
            }
        }
        if cut < tokens.len() {
            proof {
                assert(rest.skip(cut - start + 1) =~= all.skip(cut + 1));
                assert(rest[cut - start] == all[cut as int]);
                assert(segments_of(all) =~= segments.deep_view() + segments_of(all.skip(cut + 1)));
            }
            start = cut + 1;
        } else {
            proof {
                lemma_no_tokens_no_segments();
                assert(all.skip(tokens.len() as int) =~= Seq::<TokenView>::empty());
                assert(segments_of(all) =~= segments.deep_view() + segments_of(
                    all.skip(tokens.len() as int),
                ));
            }
            start = tokens.len();
        }
    }
    proof {
        lemma_no_tokens_no_segments();
        assert(all.skip(tokens.len() as int) =~= Seq::<TokenView>::empty());
        assert(segments.deep_view() + Seq::<SegmentView>::empty() =~= segments.deep_view());
    }
    segments
}

/// A line without tokens has no stage and no segment.
pub proof fn lemma_no_tokens_no_segments()
    ensures
        stages_of(Seq::<TokenView>::empty()) == Seq::<StageView>::empty(),
        segments_of(Seq::<TokenView>::empty()) == Seq::<SegmentView>::empty(),
{
    let none = Seq::<TokenView>::empty();
    assert(none.take(0) =~= none);
    assert(stages_of(none) =~= Seq::<StageView>::empty());
    assert(segments_of(none) =~= Seq::<SegmentView>::empty());
}

} // verus!
