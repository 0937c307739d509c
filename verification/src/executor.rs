//! The executor: walks the segments of a line and decides, step by step,
//! what is to be done.
//!
//! The executor does nothing itself. It names the next action, the caller
//! performs it and reports how it went, and the executor moves on: to the
//! next candidate for the program, to the next stage of the pipeline, to the
//! next segment, or to the end of the line when `&&` or `||` cuts it short.
//! With each report it says what, if anything, the user is to be told.

use vstd::prelude::*;
use vstd::string::StringExecFns;
use crate::builtin::{
    builtin_named, builtin_of, cd_error_message, cd_error_text, directory_change,
    directory_change_of, execution_error_message, execution_error_text, exit_code, exit_code_of,
    not_found_message, not_found_text, Builtin,
};
use crate::command::{
    clone_strings, Redirection, RedirectionView, Segment, SegmentView, Sequencer, StageView,
};
use crate::resolver::{
    candidates_of, first_executable_at, lemma_candidates_not_empty, lemma_first_executable_at,
    resolve, PathSearch, PathSearchView,
};
use crate::streams::{stream_plan_of, DispositionView};

verus! {

/// What the caller is to do next.
#[derive(Debug, PartialEq, Eq)]
pub enum Action {
    /// Nothing: the line is done.
    Finished,
    /// End the shell with this exit code.
    Exit(i32),
    /// Change the working directory to `target`.
    ChangeDirectory { target: String },
    /// Find out whether `candidate` is a regular file that may be executed.
    Probe { candidate: String },
    /// Launch the file `program` with `args`, its output streams connected
    /// as `redirection` says. `piped_input` says that its input is the
    /// captured output of the stage before it; else it reads what the shell
    /// reads. `command` is the program's name as the user gave it.
    Launch {
        command: String,
        program: String,
        args: Vec<String>,
        redirection: Redirection,
        piped_input: bool,
    },
}

/// The view of an [`Action`].
pub enum ActionView {
    Finished,
    Exit(i32),
    ChangeDirectory { target: Seq<char> },
    Probe { candidate: Seq<char> },
    Launch {
        command: Seq<char>,
        program: Seq<char>,
        args: Seq<Seq<char>>,
        redirection: RedirectionView,
        piped_input: bool,
    },
}

impl View for Action {
    type V = ActionView;

    open spec fn view(&self) -> ActionView {
        match self {
            Action::Finished => ActionView::Finished,
            Action::Exit(code) => ActionView::Exit(*code),
            Action::ChangeDirectory { target } => ActionView::ChangeDirectory { target: target@ },
            Action::Probe { candidate } => ActionView::Probe { candidate: candidate@ },
            Action::Launch {
                command,
                program,
                args,
                redirection,
                piped_input,
            } => ActionView::Launch {
                command: command@,
                program: program@,
                args: args.deep_view(),
                redirection: redirection@,
                piped_input: *piped_input,
            },
        }
    }
}

/// How an action went.
#[derive(Debug, PartialEq, Eq)]
pub enum Outcome {
    /// The answer to a probe: whether the candidate is a regular file that
    /// may be executed.
    Probed(bool),
    /// The program ran to its end, or the directory change was tried; the
    /// flag says whether it succeeded (for a program: whether it ended with
    /// exit code 0).
    Completed(bool),
    /// The program could not be started, or its output could not be written.
    /// The text is the cause, in the system's words.
    Failed(String),
}

/// The view of an [`Outcome`].
pub enum OutcomeView {
    Probed(bool),
    Completed(bool),
    Failed(Seq<char>),
}

impl OutcomeView {
    /// The outcome is a yes: the candidate may be executed, or the action
    /// succeeded.
    pub open spec fn positive(self) -> bool {
        self == OutcomeView::Probed(true) || self == OutcomeView::Completed(true)
    }
}

impl View for Outcome {
    type V = OutcomeView;

    open spec fn view(&self) -> OutcomeView {
        match self {
            Outcome::Probed(yes) => OutcomeView::Probed(*yes),
            Outcome::Completed(yes) => OutcomeView::Completed(*yes),
            Outcome::Failed(cause) => OutcomeView::Failed(cause@),
        }
    }
}

/// Where a line of report goes.
#[derive(Debug, Clone, Copy, PartialEq, Eq, Structural)]
pub enum Channel {
    /// To standard output.
    Stdout,
    /// To standard error.
    Stderr,
}

/// One line that the user is to be told, without the newline that ends it.
#[derive(Debug, PartialEq, Eq)]
pub struct Notice {
    pub channel: Channel,
    pub text: String,
}

/// The view of a [`Notice`].
pub struct NoticeView {
    pub channel: Channel,
    pub text: Seq<char>,
}

impl View for Notice {
    type V = NoticeView;

    open spec fn view(&self) -> NoticeView {
        NoticeView { channel: self.channel, text: self.text@ }
    }
}

impl DeepView for Notice {
    type V = NoticeView;

    open spec fn deep_view(&self) -> NoticeView {
        self@
    }
}

/// How a stage ended.
#[derive(Debug, Clone, Copy, PartialEq, Eq, Structural)]
pub enum StageEnd {
    /// Its program ran to its end, or its built-in was tried; the flag says
    /// whether it succeeded.
    Ran(bool),
    /// Its program was not found.
    NotFound,
    /// Its program could not be started, or its output could not be written.
    Aborted,
}

impl StageEnd {
    /// The stage succeeded.
    pub open spec fn is_success(self) -> bool {
        self == StageEnd::Ran(true)
    }
}

/// The state of the walk over one line: the segments; the home directory
/// and the search path of the session; the stage that is next, by the index
/// of its segment and its index in it; whether the last stage succeeded;
/// whether the captured output of the stage before is there to be read; and
/// the search for the program of the next stage.
pub struct Executor {
    segments: Vec<Segment>,
    home: String,
    path: String,
    segment: usize,
    stage: usize,
    success: bool,
    piped: bool,
    search: PathSearch,
}

/// The view of an [`Executor`].
pub struct ExecutorView {
    pub segments: Seq<SegmentView>,
    pub home: Seq<char>,
    pub path: Seq<char>,
    pub segment: nat,
    pub stage: nat,
    pub success: bool,
    pub piped: bool,
    pub search: PathSearchView,
}

/// Every segment has a stage.
pub open spec fn all_have_stages(segments: Seq<SegmentView>) -> bool {
    forall|i: int| 0 <= i < segments.len() ==> (#[trigger] segments[i]).stages.len() > 0
}

impl ExecutorView {
    /// The walk at the start of a line.
    pub open spec fn start(
        segments: Seq<SegmentView>,
        home: Seq<char>,
        path: Seq<char>,
    ) -> ExecutorView {
        (ExecutorView {
            segments,
            home,
            path,
            segment: 0,
            stage: 0,
            success: true,
            piped: false,
            search: PathSearchView::start(Seq::empty()),
        }).arrive()
    }

    /// Nothing is left to run.
    pub open spec fn finished(self) -> bool {
        self.segment >= self.segments.len()
    }

    /// The segment that the next stage is in.
    pub open spec fn current_segment(self) -> SegmentView {
        self.segments[self.segment as int]
    }

    /// The next stage.
    pub open spec fn current_stage(self) -> StageView {
        self.current_segment().stages[self.stage as int]
    }

    /// The next stage is the last one of its segment.
    pub open spec fn at_last_stage(self) -> bool {
        self.stage + 1 >= self.current_segment().stages.len()
    }

    /// The built-in that the next stage runs: a segment of a single stage
    /// whose program is the name of a built-in runs that built-in.
    pub open spec fn builtin(self) -> Option<Builtin> {
        if self.finished() || self.current_segment().stages.len() != 1 {
            None
        } else {
            builtin_named(self.current_stage().program)
        }
    }

    /// The next stage launches an external program.
    pub open spec fn is_external(self) -> bool {
        !self.finished() && self.builtin() is None
    }

    /// The walk as it arrives at a stage: the search for the program of an
    /// external stage begins with the first candidate.
    pub open spec fn arrive(self) -> ExecutorView {
        ExecutorView {
            search: if self.is_external() {
                PathSearchView::start(candidates_of(self.current_stage().program, self.path))
            } else {
                PathSearchView::start(Seq::empty())
            },
            ..self
        }
    }

    /// The position of the walk is within the segments, each of which has a
    /// stage.
    pub open spec fn positioned(self) -> bool {
        &&& all_have_stages(self.segments)
        &&& self.segment <= self.segments.len()
        &&& !self.finished() ==> self.stage < self.current_segment().stages.len()
    }

    /// The invariant of the walk: it is positioned, and the search is the
    /// one for the program of the next stage, with a candidate under its
    /// cursor.
    pub open spec fn wf(self) -> bool {
        &&& self.positioned()
        &&& self.search.wf()
        &&& self.search.candidates == self.arrive().search.candidates
        &&& self.is_external() ==> self.search.cursor < self.search.candidates.len()
        &&& !self.is_external() ==> self.search == PathSearchView::start(Seq::empty())
    }

    /// The redirection that the next stage runs under: a stage that is not
    /// the last of its segment feeds the next one, whatever redirection of
    /// its own it has.
    pub open spec fn effective_redirection(self) -> RedirectionView {
        if self.at_last_stage() {
            self.current_stage().redirection
        } else {
            RedirectionView::PipeToNext
        }
    }

    /// The launch of the next stage, once its program is found.
    pub open spec fn launch(self) -> ActionView {
        ActionView::Launch {
            command: self.current_stage().program,
            program: match self.search.result() {
                Some(program) => program,
                None => self.current_stage().program,
            },
            args: self.current_stage().args,
            redirection: self.effective_redirection(),
            piped_input: self.piped,
        }
    }

    /// What is to be done next. A built-in is run by the caller itself. For
    /// an external program the candidates are probed one by one, and the
    /// first that may be executed is launched.
    pub open spec fn action(self) -> ActionView {
        if self.finished() {
            ActionView::Finished
        } else {
            match self.builtin() {
                Some(Builtin::Exit) => ActionView::Exit(exit_code_of(self.current_stage().args)),
                Some(Builtin::ChangeDirectory) => ActionView::ChangeDirectory {
                    target: directory_change_of(self.current_stage().args, self.home).target,
                },
                None => match self.search.pending() {
                    Some(candidate) => ActionView::Probe { candidate },
                    None => self.launch(),
                },
            }
        }
    }

    /// The segment ends with this stage: it is its last stage, or it could
    /// not be run.
    pub open spec fn ends_segment(self, end: StageEnd) -> bool {
        self.at_last_stage() || end == StageEnd::Aborted
    }

    /// The segments after this one are skipped: it ends with `&&` and
    /// failed, or it ends with `||` and succeeded.
    pub open spec fn skips_rest(self, end: StageEnd) -> bool {
        ||| self.current_segment().terminator == Sequencer::And && !end.is_success()
        ||| self.current_segment().terminator == Sequencer::Or && end.is_success()
    }

    /// The walk after the next stage ended.
    ///
    /// Within a segment the walk goes on to the stage after it, which reads
    /// the output of this one if its program ran. At the end of a segment it
    /// goes on to the next segment, or to the end of the line if the rest is
    /// skipped. A stage whose program was not found has failed; a stage that
    /// could not be run ends its segment as failed.
    pub open spec fn settle(self, end: StageEnd) -> ExecutorView {
        if self.finished() {
            self
        } else if !self.ends_segment(end) {
            (ExecutorView {
                stage: self.stage + 1,
                success: end.is_success(),
                piped: end is Ran,
                ..self
            }).arrive()
        } else {
            (ExecutorView {
                segment: if self.skips_rest(end) {
                    self.segments.len()
                } else {
                    self.segment + 1
                },
                stage: 0,
                success: end.is_success(),
                piped: false,
                ..self
            }).arrive()
        }
    }

    /// The search after the answer `outcome` leaves no candidate: the
    /// program of the next stage is not found.
    pub open spec fn gives_up(self, outcome: OutcomeView) -> bool {
        let search = self.search.report(outcome.positive());
        search.pending() is None && search.result() is None
    }

    /// The walk after the action was performed with the given outcome.
    ///
    /// After `exit` nothing changes. A directory change ends its stage. An
    /// answer to a probe moves the search on: the candidate is accepted, or
    /// the next one is up, or none is left and the stage ends with its
    /// program not found. A launch ends its stage. An outcome of another
    /// sort than the action asks for counts by its flag, and a failure
    /// counts as a no.
    pub open spec fn step(self, outcome: OutcomeView) -> ExecutorView {
        if self.finished() {
            self
        } else {
            match self.builtin() {
                Some(Builtin::Exit) => self,
                Some(Builtin::ChangeDirectory) => self.settle(StageEnd::Ran(outcome.positive())),
                None => if self.search.pending() is Some {
                    if self.gives_up(outcome) {
                        self.settle(StageEnd::NotFound)
                    } else {
                        ExecutorView { search: self.search.report(outcome.positive()), ..self }
                    }
                } else if outcome is Failed {
                    self.settle(StageEnd::Aborted)
                } else {
                    self.settle(StageEnd::Ran(outcome.positive()))
                },
            }
        }
    }

    /// The walk after the probes for the program of the next stage were
    /// answered, each from the set of the files that may be executed: the
    /// walk is ready to launch the program, or has moved on from a stage
    /// whose program was not found.
    pub open spec fn after_probes(self, executable: Set<Seq<char>>) -> ExecutorView
        decreases
            self.search.candidates.len() - self.search.cursor,
            if self.search.found {
                0int
            } else {
                1int
            },
    {
        if self.is_external() && self.search.pending() is Some {
            let answer = OutcomeView::Probed(executable.contains(self.search.pending()->0));
            if self.gives_up(answer) {
                self.step(answer)
            } else {
                self.step(answer).after_probes(executable)
            }
        } else {
            self
        }
    }

    /// What the user is told after the action was performed with the given
    /// outcome.
    ///
    /// A directory change that fails is reported on standard output, with
    /// the path as the user gave it. A program that is not found is reported
    /// on standard output, by its name. A program that could not be run is
    /// reported on standard error, with the cause. Nothing else is reported.
    pub open spec fn notice(self, outcome: OutcomeView) -> Option<NoticeView> {
        if self.finished() {
            None
        } else {
            match self.builtin() {
                Some(Builtin::Exit) => None,
                Some(Builtin::ChangeDirectory) => if outcome.positive() {
                    None
                } else {
                    Some(
                        NoticeView {
                            channel: Channel::Stdout,
                            text: cd_error_text(
                                directory_change_of(self.current_stage().args, self.home).shown,
                            ),
                        },
                    )
                },
                None => if self.search.pending() is Some {
                    if self.gives_up(outcome) {
                        Some(
                            NoticeView {
                                channel: Channel::Stdout,
                                text: not_found_text(self.current_stage().program),
                            },
                        )
                    } else {
                        None
                    }
                } else {
                    match outcome {
                        OutcomeView::Failed(cause) => Some(
                            NoticeView {
                                channel: Channel::Stderr,
                                text: execution_error_text(cause),
                            },
                        ),
                        _ => None,
                    }
                },
            }
        }
    }
}

impl View for Executor {
    type V = ExecutorView;

    closed spec fn view(&self) -> ExecutorView {
        ExecutorView {
            segments: self.segments.deep_view(),
            home: self.home@,
            path: self.path@,
            segment: self.segment as nat,
            stage: self.stage as nat,
            success: self.success,
            piped: self.piped,
            search: self.search@,
        }
    }
}

impl Executor {
    /// The walk over the segments of one line, at its start. `home` is the
    /// home directory of the session, where `cd` goes without an argument
    /// and what `~` stands for; `path` is its search path, a list of
    /// directories separated by colons.
    pub fn new(segments: Vec<Segment>, home: &str, path: &str) -> (out: Self)
        requires
            all_have_stages(segments.deep_view()),
        ensures
            out@.wf(),
            out@ == ExecutorView::start(segments.deep_view(), home@, path@),
    {
        let mut out = Executor {
            segments,
            home: String::from_str(home),
            path: String::from_str(path),
            segment: 0,
            stage: 0,
            success: true,
            piped: false,
            search: PathSearch::idle(),
        };
        out.arrive();
        out
    }

    /// Begins the search for the program of the stage that the walk has
    /// arrived at.
    fn arrive(&mut self)
        requires
            old(self)@.positioned(),
        ensures
            final(self)@.wf(),
            final(self)@ == old(self)@.arrive(),
    {
        let mut search = PathSearch::idle();
        if self.segment < self.segments.len() {
            let segment = &self.segments[self.segment];
            let stage = &segment.stages[self.stage];
            proof {
                assert(self@.current_segment() == segment@);
                assert(self@.current_stage() == stage@);
                lemma_candidates_not_empty(stage.program@, self.path@);
            }
            if segment.stages.len() != 1 || builtin_of(stage.program.as_str()).is_none() {
                search = PathSearch::new(stage.program.as_str(), self.path.as_str());
            }
        }
        self.search = search;
    }

    /// Whether nothing is left to run.
    pub fn is_finished(&self) -> (out: bool)
        ensures
            out == self@.finished(),
    {
        self.segment >= self.segments.len()
    }

    /// Whether the stage that ended last succeeded. True before any stage
    /// ended.
    pub fn last_success(&self) -> (out: bool)
        ensures
            out == self@.success,
    {
        self.success
    }

    /// Names what is to be done next.
    pub fn action(&self) -> (out: Action)
        requires
            self@.wf(),
        ensures
            out@ == self@.action(),
    {
        if self.segment >= self.segments.len() {
            return Action::Finished;
        }
        let segment = &self.segments[self.segment];
        let stage = &segment.stages[self.stage];
        proof {
            assert(self@.current_segment() == segment@);
            assert(self@.current_stage() == stage@);
        }
        if segment.stages.len() == 1 {
            match builtin_of(stage.program.as_str()) {
                Some(Builtin::Exit) => {
                    return Action::Exit(exit_code(&stage.args));
                },
                Some(Builtin::ChangeDirectory) => {
                    let change = directory_change(&stage.args, self.home.as_str());
                    return Action::ChangeDirectory { target: change.target };
                },
                None => {},
            }
        }
        match self.search.pending() {
            Some(candidate) => {
                return Action::Probe { candidate: candidate.clone() };
            },
            None => {},
        }
        let program = match self.search.result() {
            Some(program) => program.clone(),
            None => stage.program.clone(),
        };
        let redirection = if self.stage + 1 >= segment.stages.len() {
            stage.redirection.clone()
        } else {
            Redirection::PipeToNext
        };
        let args = clone_strings(&stage.args);
        assert(args.deep_view() =~= stage.args.deep_view());
        Action::Launch {
            command: stage.program.clone(),
            program,
            args,
            redirection,
            piped_input: self.piped,
        }
    }

    /// Moves on from a stage that ended.
    fn settle(&mut self, end: StageEnd)
        requires
            old(self)@.positioned(),
            !old(self)@.finished(),
        ensures
            final(self)@.wf(),
            final(self)@ == old(self)@.settle(end),
    {
        let total = self.segments.len();
        let count = self.segments[self.segment].stages.len();
        let terminator = self.segments[self.segment].terminator;
        proof {
            assert(self@.current_segment() == self.segments@[self.segment as int]@);
        }
        let success = match end {
            StageEnd::Ran(success) => success,
            _ => false,
        };
        let ran = match end {
            StageEnd::Ran(_) => true,
            _ => false,
        };
        let aborted = match end {
            StageEnd::Aborted => true,
            _ => false,
        };
        self.success = success;
        if !aborted && self.stage + 1 < count {
            self.stage = self.stage + 1;
            self.piped = ran;
        } else {
            let skip = match terminator {
                Sequencer::And => !success,
                Sequencer::Or => success,
                _ => false,
            };
            self.segment = if skip {
                total
            } else {
                self.segment + 1
            };
            self.stage = 0;
            self.piped = false;
        }
        self.arrive();
    }

    /// Takes the outcome of the action that was named last, moves on, and
    /// gives the line that the user is to be told, if there is one.
    pub fn report(&mut self, outcome: Outcome) -> (out: Option<Notice>)
        requires
            old(self)@.wf(),
        ensures
            final(self)@.wf(),
            final(self)@ == old(self)@.step(outcome@),
            out.deep_view() == old(self)@.notice(outcome@),
    {
        if self.segment >= self.segments.len() {
            return None;
        }
        let positive = match &outcome {
            Outcome::Probed(yes) => *yes,
            Outcome::Completed(yes) => *yes,
            Outcome::Failed(_) => false,
        };
        let segment = &self.segments[self.segment];
        let stage = &segment.stages[self.stage];
        proof {
            assert(self@.current_segment() == segment@);
            assert(self@.current_stage() == stage@);
        }
        let builtin = if segment.stages.len() == 1 {
            builtin_of(stage.program.as_str())
        } else {
            None
        };
        match builtin {
            Some(Builtin::Exit) => None,
            Some(Builtin::ChangeDirectory) => {
                let notice = if positive {
                    None
                } else {
                    let change = directory_change(&stage.args, self.home.as_str());
                    Some(
                        Notice {
                            channel: Channel::Stdout,
                            text: cd_error_message(change.shown.as_str()),
                        },
                    )
                };
                self.settle(StageEnd::Ran(positive));
                notice
            },
            None => {
                if self.search.pending().is_some() {
                    self.search.report(positive);
                    if self.search.pending().is_none() && self.search.result().is_none() {
                        let text = not_found_message(stage.program.as_str());
                        self.settle(StageEnd::NotFound);
                        Some(Notice { channel: Channel::Stdout, text })
                    } else {
                        None
                    }
                } else {
                    match outcome {
                        Outcome::Failed(cause) => {
                            let text = execution_error_message(cause.as_str());
                            self.settle(StageEnd::Aborted);
                            Some(Notice { channel: Channel::Stderr, text })
                        },
                        _ => {
                            self.settle(StageEnd::Ran(positive));
                            None
                        },
                    }
                }
            },
        }
    }
}

/// Every step keeps the invariant of the walk, and leaves the segments, the
/// home directory and the search path as they are.
pub proof fn lemma_step_keeps_invariant(walk: ExecutorView, outcome: OutcomeView)
    requires
        walk.wf(),
    ensures
        walk.step(outcome).wf(),
        walk.step(outcome).segments == walk.segments,
        walk.step(outcome).home == walk.home,
        walk.step(outcome).path == walk.path,
{
    if !walk.finished() {
        lemma_settle_keeps_invariant(walk, StageEnd::NotFound);
        lemma_settle_keeps_invariant(walk, StageEnd::Aborted);
        lemma_settle_keeps_invariant(walk, StageEnd::Ran(outcome.positive()));
    }
}

/// The end of a stage keeps the invariant of the walk.
pub proof fn lemma_settle_keeps_invariant(walk: ExecutorView, end: StageEnd)
    requires
        walk.positioned(),
        walk.finished() ==> walk.wf(),
    ensures
        walk.settle(end).wf(),
        walk.settle(end).segments == walk.segments,
        walk.settle(end).home == walk.home,
        walk.settle(end).path == walk.path,
{
    let next = walk.settle(end);
    if next.is_external() {
        lemma_candidates_not_empty(next.current_stage().program, next.path);
    }
}

/// How each action ends: after `exit` the walk stays; a directory change
/// ends its stage as run; a launch ends its stage as run, or as aborted if
/// the program could not be run; the answer to a probe moves the search on,
/// or ends the stage as not found when no candidate is left.
pub proof fn lemma_step_by_action(walk: ExecutorView, outcome: OutcomeView)
    requires
        walk.wf(),
    ensures
        walk.action() is Finished || walk.action() is Exit ==> walk.step(outcome) == walk,
        walk.action() is ChangeDirectory ==> walk.step(outcome) == walk.settle(
            StageEnd::Ran(outcome.positive()),
        ),
        walk.action() is Launch && outcome is Failed ==> walk.step(outcome) == walk.settle(
            StageEnd::Aborted,
        ),
        walk.action() is Launch && !(outcome is Failed) ==> walk.step(outcome) == walk.settle(
            StageEnd::Ran(outcome.positive()),
        ),
        walk.action() is Probe && walk.gives_up(outcome) ==> walk.step(outcome) == walk.settle(
            StageEnd::NotFound,
        ),
        walk.action() is Probe && !walk.gives_up(outcome) ==> walk.step(outcome) == (ExecutorView {
            search: walk.search.report(outcome.positive()),
            ..walk
        }),
{
}

/// The law of `&&`: when a segment that ends with `&&` fails, nothing more
/// of the line is run.
pub proof fn lemma_and_stops_after_failure(walk: ExecutorView, end: StageEnd)
    requires
        walk.wf(),
        !walk.finished(),
        walk.ends_segment(end),
        walk.current_segment().terminator == Sequencer::And,
        !end.is_success(),
    ensures
        walk.settle(end).finished(),
        walk.settle(end).action() == ActionView::Finished,
        forall|later: OutcomeView| walk.settle(end).step(later) == walk.settle(end),
{
}

/// The law of `&&` after success: the next segment is run.
pub proof fn lemma_and_goes_on_after_success(walk: ExecutorView, end: StageEnd)
    requires
        walk.wf(),
        !walk.finished(),
        walk.ends_segment(end),
        walk.current_segment().terminator == Sequencer::And,
        end.is_success(),
    ensures
        walk.settle(end).segment == walk.segment + 1,
        walk.settle(end).stage == 0,
{
}

/// The law of `||`: when a segment that ends with `||` succeeds, nothing
/// more of the line is run; when it fails, the next segment is run.
pub proof fn lemma_or_stops_after_success(walk: ExecutorView, end: StageEnd)
    requires
        walk.wf(),
        !walk.finished(),
        walk.ends_segment(end),
        walk.current_segment().terminator == Sequencer::Or,
    ensures
        end.is_success() ==> walk.settle(end).finished() && walk.settle(end).action()
            == ActionView::Finished,
        !end.is_success() ==> walk.settle(end).segment == walk.segment + 1 && walk.settle(
            end,
        ).stage == 0,
{
}

/// The law of `;`: the segment after a `;` is run whatever became of the
/// segment before it, and it starts with its first stage, which reads what
/// the shell reads.
pub proof fn lemma_semicolon_always_goes_on(walk: ExecutorView, end: StageEnd)
    requires
        walk.wf(),
        !walk.finished(),
        walk.ends_segment(end),
        walk.current_segment().terminator == Sequencer::Semicolon
            || walk.current_segment().terminator == Sequencer::End,
    ensures
        walk.settle(end).segment == walk.segment + 1,
        walk.settle(end).stage == 0,
        !walk.settle(end).piped,
{
}

/// The law of the pipe: a stage that is not the last of its segment is
/// launched with its standard output captured for the next stage and its
/// standard error left on the terminal, whatever redirection it has of its
/// own; and once it has run, the walk is at the stage after it, which is
/// launched with that output as its input.
pub proof fn lemma_pipe_feeds_next_stage(walk: ExecutorView, success: bool)
    requires
        walk.wf(),
        !walk.finished(),
        !walk.at_last_stage(),
    ensures
        walk.is_external(),
        walk.launch() matches ActionView::Launch { redirection, .. } && redirection
            == RedirectionView::PipeToNext,
        stream_plan_of(walk.effective_redirection()).stdout == DispositionView::ToNextStage,
        stream_plan_of(walk.effective_redirection()).stderr == DispositionView::Inherit,
        walk.settle(StageEnd::Ran(success)).segment == walk.segment,
        walk.settle(StageEnd::Ran(success)).stage == walk.stage + 1,
        walk.settle(StageEnd::Ran(success)).is_external(),
        walk.settle(StageEnd::Ran(success)).launch() matches ActionView::Launch {
            piped_input,
            ..
        } && piped_input,
{
}

/// Probing keeps the walk at its stage: an answer that does not end the
/// search changes nothing but the search.
pub proof fn lemma_probe_keeps_stage(walk: ExecutorView, outcome: OutcomeView)
    requires
        walk.wf(),
        walk.action() is Probe,
        !walk.gives_up(outcome),
    ensures
        walk.step(outcome).segment == walk.segment,
        walk.step(outcome).stage == walk.stage,
        walk.step(outcome).piped == walk.piped,
        walk.step(outcome).success == walk.success,
        walk.notice(outcome) is None,
{
}

/// The walk with the candidate under the cursor of its search accepted.
pub open spec fn with_program_at(walk: ExecutorView, at: int) -> ExecutorView {
    ExecutorView {
        search: PathSearchView { cursor: at as nat, found: true, ..walk.search },
        ..walk
    }
}

/// The probes of a stage end at the first candidate that may be executed,
/// or with the stage not found.
proof fn lemma_after_probes(walk: ExecutorView, executable: Set<Seq<char>>)
    requires
        walk.wf(),
        walk.is_external(),
        !walk.search.found,
    ensures
        walk.after_probes(executable) == if first_executable_at(
            walk.search.candidates,
            executable,
            walk.search.cursor as int,
        ) < walk.search.candidates.len() {
            with_program_at(
                walk,
                first_executable_at(walk.search.candidates, executable, walk.search.cursor as int),
            )
        } else {
            walk.settle(StageEnd::NotFound)
        },
    decreases walk.search.candidates.len() - walk.search.cursor,
{
    let candidates = walk.search.candidates;
    let cursor = walk.search.cursor as int;
    let candidate = candidates[cursor];
    let answer = OutcomeView::Probed(executable.contains(candidate));
    let next = walk.step(answer);
    assert(walk.search.pending() == Some(candidate));
    if executable.contains(candidate) {
        assert(!walk.gives_up(answer));
        assert(next == with_program_at(walk, cursor));
        assert(next.search.pending() is None);
        assert(next.after_probes(executable) == next);
        assert(walk.after_probes(executable) == next.after_probes(executable));
        assert(first_executable_at(candidates, executable, cursor) == cursor);
    } else if walk.gives_up(answer) {
        assert(cursor + 1 == candidates.len());
        assert(first_executable_at(candidates, executable, cursor + 1) == candidates.len());
        assert(first_executable_at(candidates, executable, cursor) == candidates.len());
        assert(walk.after_probes(executable) == walk.settle(StageEnd::NotFound));
    } else {
        assert(next.wf());
        lemma_after_probes(next, executable);
        let at = first_executable_at(candidates, executable, cursor + 1);
        assert(first_executable_at(candidates, executable, cursor) == at);
        assert(with_program_at(next, at) == with_program_at(walk, at));
        assert(next.settle(StageEnd::NotFound) == walk.settle(StageEnd::NotFound));
        assert(walk.after_probes(executable) == next.after_probes(executable));
    }
}

/// The law of resolution: when the walk arrives at a stage that launches an
/// external program, and every probe is answered truthfully, the program
/// that is launched is the one that its name resolves to along the search
/// path, with the arguments, the redirection and the input of the stage; and
/// if the name resolves to nothing, the stage ends as not found.
pub proof fn lemma_probes_resolve_program(walk: ExecutorView, executable: Set<Seq<char>>)
    requires
        walk.wf(),
        walk.is_external(),
        walk.search.cursor == 0,
        !walk.search.found,
    ensures
        match resolve(walk.current_stage().program, walk.path, executable) {
            Some(program) => walk.after_probes(executable).action() == (ActionView::Launch {
                command: walk.current_stage().program,
                program,
                args: walk.current_stage().args,
                redirection: walk.effective_redirection(),
                piped_input: walk.piped,
            }),
            None => walk.after_probes(executable) == walk.settle(StageEnd::NotFound),
        },
{
    lemma_after_probes(walk, executable);
    lemma_first_executable_at(walk.search.candidates, executable, 0);
    assert(walk.search.candidates.skip(0) =~= walk.search.candidates);
}

} // verus!
