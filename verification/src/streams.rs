//! How the output streams of a launched program are connected, and what is
//! written to a file that captures its error stream.

use vstd::prelude::*;
use vstd::string::StringExecFns;
use crate::command::{Redirection, RedirectionView};
use crate::text::{chars_of, push_char};

verus! {

/// What becomes of one output stream of a launched program.
#[derive(Debug, PartialEq, Eq)]
pub enum Disposition {
    /// The stream is the shell's own: it shows on the terminal.
    Inherit,
    /// The stream is captured and becomes the input of the next stage.
    ToNextStage,
    /// The stream is captured and, once the program has ended, written to the
    /// file at the path; the flag says whether it is appended to the file or
    /// replaces it.
    ToFile(String, bool),
}

/// The view of a [`Disposition`].
pub enum DispositionView {
    Inherit,
    ToNextStage,
    ToFile(Seq<char>, bool),
}

impl View for Disposition {
    type V = DispositionView;

    open spec fn view(&self) -> DispositionView {
        match self {
            Disposition::Inherit => DispositionView::Inherit,
            Disposition::ToNextStage => DispositionView::ToNextStage,
            Disposition::ToFile(path, append) => DispositionView::ToFile(path@, *append),
        }
    }
}

/// The connections of both output streams of one launched program.
#[derive(Debug, PartialEq, Eq)]
pub struct StreamPlan {
    pub stdout: Disposition,
    pub stderr: Disposition,
}

/// The view of a [`StreamPlan`].
pub struct StreamPlanView {
    pub stdout: DispositionView,
    pub stderr: DispositionView,
}

impl View for StreamPlan {
    type V = StreamPlanView;

    open spec fn view(&self) -> StreamPlanView {
        StreamPlanView { stdout: self.stdout@, stderr: self.stderr@ }
    }
}

/// The stream connections that a redirection asks for. At most one stream is
/// captured; the other one is inherited.
pub open spec fn stream_plan_of(redirection: RedirectionView) -> StreamPlanView {
    match redirection {
        RedirectionView::Inherit => StreamPlanView {
            stdout: DispositionView::Inherit,
            stderr: DispositionView::Inherit,
        },
        RedirectionView::PipeToNext => StreamPlanView {
            stdout: DispositionView::ToNextStage,
            stderr: DispositionView::Inherit,
        },
        RedirectionView::WriteStdout(path, append) => StreamPlanView {
            stdout: DispositionView::ToFile(path, append),
            stderr: DispositionView::Inherit,
        },
        RedirectionView::WriteStderr(path, append) => StreamPlanView {
            stdout: DispositionView::Inherit,
            stderr: DispositionView::ToFile(path, append),
        },
    }
}

/// Decides how the output streams of a program are connected when it is
/// launched under `redirection`.
pub fn stream_plan(redirection: &Redirection) -> (out: StreamPlan)
    ensures
        out@ == stream_plan_of(redirection@),
{
    match redirection {
        Redirection::Inherit => StreamPlan {
            stdout: Disposition::Inherit,
            stderr: Disposition::Inherit,
        },
        Redirection::PipeToNext => StreamPlan {
            stdout: Disposition::ToNextStage,
            stderr: Disposition::Inherit,
        },
        Redirection::WriteStdout(path, append) => StreamPlan {
            stdout: Disposition::ToFile(path.clone(), *append),
            stderr: Disposition::Inherit,
        },
        Redirection::WriteStderr(path, append) => StreamPlan {
            stdout: Disposition::Inherit,
            stderr: Disposition::ToFile(path.clone(), *append),
        },
    }
}

/// `pattern` occurs in `text` at position `at`.
pub open spec fn occurs_at(text: Seq<char>, pattern: Seq<char>, at: int) -> bool {
    0 <= at && at + pattern.len() <= text.len() && text.subrange(at, at + pattern.len())
        == pattern
}

/// `text` with every occurrence of `pattern` replaced by `with`, the
/// occurrences taken from left to right without overlap. An empty pattern
/// replaces nothing.
pub open spec fn replace_all(text: Seq<char>, pattern: Seq<char>, with: Seq<char>) -> Seq<char>
    decreases text.len(),
{
    if pattern.len() == 0 || text.len() == 0 {
        text
    } else if occurs_at(text, pattern, 0) {
        with + replace_all(text.skip(pattern.len() as int), pattern, with)
    } else {
        seq![text[0]] + replace_all(text.skip(1), pattern, with)
    }
}

/// The directory that the names of launched programs are stripped of in a
/// captured error stream.
pub const SYSTEM_BIN_PREFIX: &'static str = "/usr/bin/";

/// The error text of `command` as it is written to a file: every
/// `/usr/bin/<command>` in it reads `<command>`.
pub open spec fn normalized_stderr(text: Seq<char>, command: Seq<char>) -> Seq<char> {
    replace_all(text, SYSTEM_BIN_PREFIX@ + command, command)
}

/// Whether `pattern` occurs in `text` at position `at`.
fn matches_at(text: &Vec<char>, pattern: &Vec<char>, at: usize) -> (out: bool)
    requires
        at <= text.len(),
    ensures
        out == occurs_at(text@, pattern@, at as int),
{
    if pattern.len() > text.len() - at {
        return false;
    }
    let mut k: usize = 0;
    while k < pattern.len()
        invariant
            at + pattern.len() <= text.len(),
            k <= pattern.len(),
            forall|j: int| 0 <= j < k ==> text@[at + j] == pattern@[j],
        decreases pattern.len() - k,
    {
        if text[at + k] != pattern[k] {
            proof {
                let window = text@.subrange(at as int, at + pattern.len());
                assert(window[k as int] == text@[at + k]);
            }
            return false;
        }
        k = k + 1;
    }
    assert(text@.subrange(at as int, at + pattern.len()) =~= pattern@);
    true
}

/// Replaces every occurrence of `pattern` in `text` by `with`.
pub fn replace(text: &str, pattern: &str, with: &str) -> (out: String)
    ensures
        out@ == replace_all(text@, pattern@, with@),
{
    let chars = chars_of(text);
    let wanted = chars_of(pattern);
    if wanted.len() == 0 {
        return String::from_str(text);
    }
    let mut out = String::new();
    let mut i: usize = 0;
    assert(chars@.skip(0) =~= chars@);
    while i < chars.len()
        invariant
            i <= chars.len(),
            wanted.len() > 0,
            chars@ == text@,
            wanted@ == pattern@,
            replace_all(text@, pattern@, with@) == out@ + replace_all(
                chars@.skip(i as int),
                pattern@,
                with@,
            ),
        decreases chars.len() - i,
    {
        let ghost rest = chars@.skip(i as int);
        let ghost before = out@;
        let hit = matches_at(&chars, &wanted, i);
        proof {
            assert(rest.len() == chars.len() - i);
            if i + wanted.len() <= chars.len() {
                assert(rest.subrange(0, wanted.len() as int) =~= chars@.subrange(
                    i as int,
                    i + wanted.len(),
                ));
            }
            assert(hit == occurs_at(rest, pattern@, 0));
        }
        if hit {
            out.append(with);
            proof {
                assert(rest.skip(wanted.len() as int) =~= chars@.skip(i + wanted.len()));
                assert(before + (with@ + replace_all(
                    rest.skip(wanted.len() as int),
                    pattern@,
                    with@,
                )) =~= out@ + replace_all(chars@.skip(i + wanted.len()), pattern@, with@));
            }
            i = i + wanted.len();
        } else {
            push_char(&mut out, chars[i]);
            proof {
                assert(rest.skip(1) =~= chars@.skip(i + 1));
                assert(rest[0] == chars@[i as int]);
                assert(before + (seq![rest[0]] + replace_all(rest.skip(1), pattern@, with@))
                    =~= out@ + replace_all(chars@.skip(i + 1), pattern@, with@));
            }
            i = i + 1;
        }
    }
    assert(chars@.skip(chars.len() as int).len() == 0);
    assert(out@ + Seq::<char>::empty() =~= out@);
    out
}

/// What is written to a file that captures the error stream of `command`:
/// the captured text, in which the program's path under `/usr/bin/` is cut
/// down to the command's name as it was typed.
pub fn normalize_stderr(text: &str, command: &str) -> (out: String)
    ensures
        out@ == normalized_stderr(text@, command@),
{
    let mut pattern = String::from_str(SYSTEM_BIN_PREFIX);
    pattern.append(command);
    replace(text, pattern.as_str(), command)
}

} // verus!
