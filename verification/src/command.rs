//! The command plan of one input line: segments made of stages, each stage
//! one command with its arguments and its redirection.

use vstd::prelude::*;

verus! {

/// Where the output of a stage goes. Exactly one applies to a stage.
#[derive(Debug, PartialEq, Eq)]
pub enum Redirection {
    /// Both output streams go where the shell's own go.
    Inherit,
    /// Standard output is written to the file at the path; the flag says
    /// whether it is appended to the file or replaces it.
    WriteStdout(String, bool),
    /// Standard error is written to the file at the path; the flag says
    /// whether it is appended to the file or replaces it.
    WriteStderr(String, bool),
    /// Standard output feeds the next stage of the segment.
    PipeToNext,
}

/// The view of a [`Redirection`].
pub enum RedirectionView {
    Inherit,
    WriteStdout(Seq<char>, bool),
    WriteStderr(Seq<char>, bool),
    PipeToNext,
}

impl View for Redirection {
    type V = RedirectionView;

    open spec fn view(&self) -> RedirectionView {
        match self {
            Redirection::Inherit => RedirectionView::Inherit,
            Redirection::WriteStdout(path, append) => RedirectionView::WriteStdout(path@, *append),
            Redirection::WriteStderr(path, append) => RedirectionView::WriteStderr(path@, *append),
            Redirection::PipeToNext => RedirectionView::PipeToNext,
        }
    }
}

impl DeepView for Redirection {
    type V = RedirectionView;

    open spec fn deep_view(&self) -> RedirectionView {
        self@
    }
}

impl Clone for Redirection {
    fn clone(&self) -> (out: Self)
        ensures
            out == *self,
    {
        match self {
            Redirection::Inherit => Redirection::Inherit,
            Redirection::WriteStdout(path, append) => Redirection::WriteStdout(
                path.clone(),
                *append,
            ),
            Redirection::WriteStderr(path, append) => Redirection::WriteStderr(
                path.clone(),
                *append,
            ),
            Redirection::PipeToNext => Redirection::PipeToNext,
        }
    }
}

/// One command of a pipeline: a program, its arguments in order, and where
/// its output goes.
#[derive(Debug, PartialEq, Eq)]
pub struct Stage {
    pub program: String,
    pub args: Vec<String>,
    pub redirection: Redirection,
}

/// The view of a [`Stage`].
pub struct StageView {
    pub program: Seq<char>,
    pub args: Seq<Seq<char>>,
    pub redirection: RedirectionView,
}

impl View for Stage {
    type V = StageView;

    open spec fn view(&self) -> StageView {
        StageView {
            program: self.program@,
            args: self.args.deep_view(),
            redirection: self.redirection@,
        }
    }
}

impl DeepView for Stage {
    type V = StageView;

    open spec fn deep_view(&self) -> StageView {
        self@
    }
}

/// A copy of `texts`.
pub fn clone_strings(texts: &Vec<String>) -> (out: Vec<String>)
    ensures
        out@ == texts@,
{
    let mut out: Vec<String> = Vec::new();
    let mut i: usize = 0;
    while i < texts.len()
        invariant
            i <= texts.len(),
            out@ == texts@.take(i as int),
        decreases texts.len() - i,
    {
        out.push(texts[i].clone());
        assert(texts@.take(i + 1) =~= texts@.take(i as int).push(texts@[i as int]));
        i = i + 1;
    }
    assert(texts@.take(texts.len() as int) =~= texts@);
    out
}

impl Clone for Stage {
    fn clone(&self) -> (out: Self)
        ensures
            out@ == self@,
    {
        Stage {
            program: self.program.clone(),
            args: clone_strings(&self.args),
            redirection: self.redirection.clone(),
        }
    }
}

/// What ends a segment, and so decides whether the segments after it run.
#[derive(Debug, Clone, Copy, PartialEq, Eq, Structural)]
pub enum Sequencer {
    /// `&&`: go on only if the segment succeeded.
    And,
    /// `||`: go on only if the segment failed.
    Or,
    /// `;`: go on whatever happened.
    Semicolon,
    /// The end of the line.
    End,
}

/// One unit of a line between sequencing operators: a pipeline of one or more
/// stages, and the operator that ends it.
#[derive(Debug, PartialEq, Eq)]
pub struct Segment {
    pub stages: Vec<Stage>,
    pub terminator: Sequencer,
}

/// The view of a [`Segment`].
pub struct SegmentView {
    pub stages: Seq<StageView>,
    pub terminator: Sequencer,
}

impl View for Segment {
    type V = SegmentView;

    open spec fn view(&self) -> SegmentView {
        SegmentView { stages: self.stages.deep_view(), terminator: self.terminator }
    }
}

impl DeepView for Segment {
    type V = SegmentView;

    open spec fn deep_view(&self) -> SegmentView {
        self@
    }
}

} // verus!
