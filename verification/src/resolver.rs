//! The path resolver: finds the file that a command name stands for.
//!
//! A name with a `/` in it is a path and is its own and only candidate. Any
//! other name is looked for in each directory of the search path, in the
//! order in which the path lists them, and the first candidate that is an
//! executable regular file wins. Whether a candidate is one is for the caller
//! to find out: a [`PathSearch`] hands out the candidates one by one and is
//! told the answer for each.

use vstd::prelude::*;
use vstd::string::StringExecFns;
use crate::seqs::lemma_deep_view_push;
use crate::text::{contains_char, lemma_split_has_a_part, split, split_at};

verus! {

/// What separates the directories of a search path.
pub const PATH_LIST_SEPARATOR: char = ':';

/// What separates the components of a file path.
pub const PATH_SEPARATOR: char = '/';

/// The command is itself a path: it has a separator in it.
pub open spec fn is_direct(command: Seq<char>) -> bool {
    command.contains(PATH_SEPARATOR)
}

/// The path of `name` in the directory `dir`. In the empty directory it is
/// the name alone.
pub open spec fn join_path(dir: Seq<char>, name: Seq<char>) -> Seq<char> {
    if dir.len() == 0 {
        name
    } else if dir.last() == PATH_SEPARATOR {
        dir + name
    } else {
        dir.push(PATH_SEPARATOR) + name
    }
}

/// The paths of `name` in each of the directories, in their order.
pub open spec fn join_each(dirs: Seq<Seq<char>>, name: Seq<char>) -> Seq<Seq<char>> {
    Seq::new(dirs.len(), |i: int| join_path(dirs[i], name))
}

/// The paths at which a command may be found, in the order in which they
/// are tried.
pub open spec fn candidates_of(command: Seq<char>, path_list: Seq<char>) -> Seq<Seq<char>> {
    if is_direct(command) {
        seq![command]
    } else {
        join_each(split(path_list, PATH_LIST_SEPARATOR), command)
    }
}

/// The first of the candidates that is in the set, if any is.
pub open spec fn first_executable(
    candidates: Seq<Seq<char>>,
    executable: Set<Seq<char>>,
) -> Option<Seq<char>>
    decreases candidates.len(),
{
    if candidates.len() == 0 {
        None
    } else if executable.contains(candidates[0]) {
        Some(candidates[0])
    } else {
        first_executable(candidates.drop_first(), executable)
    }
}

/// The path that a command resolves to, where `executable` is the set of the
/// paths of all executable regular files.
pub open spec fn resolve(
    command: Seq<char>,
    path_list: Seq<char>,
    executable: Set<Seq<char>>,
) -> Option<Seq<char>> {
    first_executable(candidates_of(command, path_list), executable)
}

/// The path of `name` in the directory `dir`.
pub fn join(dir: &str, name: &str) -> (out: String)
    ensures
        out@ == join_path(dir@, name@),
{
    let mut out = String::from_str(dir);
    let length = dir.unicode_len();
    if length > 0 && dir.get_char(length - 1) != PATH_SEPARATOR {
        out.append("/");
        proof {
            reveal_strlit("/");
            assert("/"@ =~= seq![PATH_SEPARATOR]);
            assert(dir@ + seq![PATH_SEPARATOR] =~= dir@.push(PATH_SEPARATOR));
        }
    }
    out.append(name);
    assert(Seq::<char>::empty() + name@ =~= name@);
    out
}

/// The paths at which `command` may be found: the command itself if it is a
/// path, else its path in each directory of `path_list`.
pub fn candidates(command: &str, path_list: &str) -> (out: Vec<String>)
    ensures
        out.deep_view() == candidates_of(command@, path_list@),
{
    let mut out: Vec<String> = Vec::new();
    if contains_char(command, PATH_SEPARATOR) {
        out.push(String::from_str(command));
        assert(out.deep_view() =~= seq![command@]);
        return out;
    }
    let dirs = split_at(path_list, PATH_LIST_SEPARATOR);
    let mut i: usize = 0;
    while i < dirs.len()
        invariant
            i <= dirs.len(),
            out.deep_view() == join_each(dirs.deep_view(), command@).take(i as int),
        decreases dirs.len() - i,
    {
        let ghost before = out;
        out.push(join(dirs[i].as_str(), command));
        proof {
            lemma_deep_view_push(before, out, out@.last());
            assert(out.deep_view() =~= join_each(dirs.deep_view(), command@).take(i + 1));
        }
        i = i + 1;
    }
    assert(join_each(dirs.deep_view(), command@).take(dirs.len() as int) =~= join_each(
        dirs.deep_view(),
        command@,
    ));
    out
}

/// The search for one command: the candidates, how many of them were turned
/// down, and whether the one after those was accepted.
pub struct PathSearch {
    candidates: Vec<String>,
    cursor: usize,
    found: bool,
}

/// The view of a [`PathSearch`].
pub struct PathSearchView {
    pub candidates: Seq<Seq<char>>,
    pub cursor: nat,
    pub found: bool,
}

impl PathSearchView {
    /// The search over `candidates` before any probe.
    pub open spec fn start(candidates: Seq<Seq<char>>) -> PathSearchView {
        PathSearchView { candidates, cursor: 0, found: false }
    }

    /// The cursor is within the candidates, and on one if that one was
    /// accepted.
    pub open spec fn wf(self) -> bool {
        &&& self.cursor <= self.candidates.len()
        &&& self.found ==> self.cursor < self.candidates.len()
    }

    /// The candidate that is to be probed next; none once the search is over.
    pub open spec fn pending(self) -> Option<Seq<char>> {
        if !self.found && self.cursor < self.candidates.len() {
            Some(self.candidates[self.cursor as int])
        } else {
            None
        }
    }

    /// The candidate that was accepted, if one was.
    pub open spec fn result(self) -> Option<Seq<char>> {
        if self.found {
            Some(self.candidates[self.cursor as int])
        } else {
            None
        }
    }

    /// The search after the answer for the pending candidate: an executable
    /// one is accepted, another one is passed over. A search that is over
    /// stays as it is.
    pub open spec fn report(self, executable: bool) -> PathSearchView {
        if self.pending() is None {
            self
        } else if executable {
            PathSearchView { found: true, ..self }
        } else {
            PathSearchView { cursor: self.cursor + 1, ..self }
        }
    }

    /// Where the search ends when each probe is answered from the set of the
    /// executable files.
    pub open spec fn outcome(self, executable: Set<Seq<char>>) -> Option<Seq<char>>
        decreases self.candidates.len() - self.cursor, if self.found { 0int } else { 1int },
    {
        match self.pending() {
            None => self.result(),
            Some(candidate) => self.report(executable.contains(candidate)).outcome(executable),
        }
    }
}

impl View for PathSearch {
    type V = PathSearchView;

    closed spec fn view(&self) -> PathSearchView {
        PathSearchView {
            candidates: self.candidates.deep_view(),
            cursor: self.cursor as nat,
            found: self.found,
        }
    }
}

impl PathSearch {
    /// Starts the search for `command` along `path_list`, a list of
    /// directories separated by colons.
    pub fn new(command: &str, path_list: &str) -> (out: Self)
        ensures
            out@.wf(),
            out@ == PathSearchView::start(candidates_of(command@, path_list@)),
    {
        PathSearch { candidates: candidates(command, path_list), cursor: 0, found: false }
    }

    /// A search without candidates, which is over from the start.
    pub fn idle() -> (out: Self)
        ensures
            out@.wf(),
            out@ == PathSearchView::start(Seq::empty()),
    {
        let out = PathSearch { candidates: Vec::new(), cursor: 0, found: false };
        assert(out@.candidates =~= Seq::<Seq<char>>::empty());
        out
    }

    /// The candidate that the caller is to probe now: is it a regular file
    /// with an executable bit set? None once the search is over.
    pub fn pending(&self) -> (out: Option<&String>)
        requires
            self@.wf(),
        ensures
            out.deep_view() == self@.pending(),
    {
        if !self.found && self.cursor < self.candidates.len() {
            Some(&self.candidates[self.cursor])
        } else {
            None
        }
    }

    /// Takes the answer for the pending candidate.
    pub fn report(&mut self, executable: bool)
        requires
            old(self)@.wf(),
        ensures
            final(self)@.wf(),
            final(self)@ == old(self)@.report(executable),
    {
        if !self.found && self.cursor < self.candidates.len() {
            if executable {
                self.found = true;
            } else {
                self.cursor = self.cursor + 1;
            }
        }
    }

    /// The path that the command resolved to, if a candidate was accepted.
    pub fn result(&self) -> (out: Option<&String>)
        requires
            self@.wf(),
        ensures
            out.deep_view() == self@.result(),
    {
        if self.found {
            Some(&self.candidates[self.cursor])
        } else {
            None
        }
    }
}

/// Every command has a candidate.
pub proof fn lemma_candidates_not_empty(command: Seq<char>, path_list: Seq<char>)
    ensures
        candidates_of(command, path_list).len() > 0,
{
    lemma_split_has_a_part(path_list, PATH_LIST_SEPARATOR);
}

/// A search that is answered from the set of the executable files ends at
/// the first candidate, from the cursor on, that is in the set.
pub proof fn lemma_outcome_is_first_executable(search: PathSearchView, executable: Set<Seq<char>>)
    requires
        search.wf(),
        !search.found,
    ensures
        search.outcome(executable) == first_executable(
            search.candidates.skip(search.cursor as int),
            executable,
        ),
    decreases search.candidates.len() - search.cursor,
{
    let rest = search.candidates.skip(search.cursor as int);
    if search.cursor < search.candidates.len() {
        let candidate = search.candidates[search.cursor as int];
        assert(rest[0] == candidate);
        if executable.contains(candidate) {
            let next = search.report(true);
            assert(next.pending() is None);
            assert(next.outcome(executable) == next.result());
            assert(search.outcome(executable) == next.outcome(executable));
        } else {
            let next = search.report(false);
            lemma_outcome_is_first_executable(next, executable);
            assert(rest.drop_first() =~= search.candidates.skip(search.cursor as int + 1));
            assert(search.outcome(executable) == next.outcome(executable));
        }
    } else {
        assert(search.pending() is None);
        assert(rest.len() == 0);
    }
}

/// The law of the search: a search for a command, with every probe answered
/// truthfully, ends at the path that the command resolves to.
pub proof fn lemma_search_resolves(
    command: Seq<char>,
    path_list: Seq<char>,
    executable: Set<Seq<char>>,
)
    ensures
        PathSearchView::start(candidates_of(command, path_list)).outcome(executable) == resolve(
            command,
            path_list,
            executable,
        ),
{
    let search = PathSearchView::start(candidates_of(command, path_list));
    lemma_outcome_is_first_executable(search, executable);
    assert(search.candidates.skip(0) =~= search.candidates);
}

/// Where the first executable candidate stands: it is the one at `at` when
/// that one is executable and none before it is; there is none when no
/// candidate is executable.
pub proof fn lemma_first_executable(
    candidates: Seq<Seq<char>>,
    executable: Set<Seq<char>>,
    at: int,
)
    requires
        0 <= at <= candidates.len(),
        forall|j: int| 0 <= j < at ==> !executable.contains(#[trigger] candidates[j]),
        at < candidates.len() ==> executable.contains(candidates[at]),
    ensures
        first_executable(candidates, executable) == if at < candidates.len() {
            Some(candidates[at])
        } else {
            None
        },
    decreases at,
{
    if at > 0 {
        let rest = candidates.drop_first();
        assert(!executable.contains(candidates[0]));
        assert forall|j: int| 0 <= j < at - 1 implies !executable.contains(#[trigger] rest[j]) by {
            assert(rest[j] == candidates[j + 1]);
        }
        lemma_first_executable(rest, executable, at - 1);
    }
}

/// Where the first candidate that may be executed stands, from `from` on;
/// the number of candidates if there is none.
pub open spec fn first_executable_at(
    candidates: Seq<Seq<char>>,
    executable: Set<Seq<char>>,
    from: int,
) -> int
    decreases candidates.len() - from,
{
    if from < 0 || from >= candidates.len() {
        candidates.len() as int
    } else if executable.contains(candidates[from]) {
        from
    } else {
        first_executable_at(candidates, executable, from + 1)
    }
}

/// Where the first candidate that may be executed stands, and that it is
/// the one that the search path resolves to.
pub proof fn lemma_first_executable_at(
    candidates: Seq<Seq<char>>,
    executable: Set<Seq<char>>,
    from: int,
)
    requires
        0 <= from <= candidates.len(),
    ensures
        from <= first_executable_at(candidates, executable, from) <= candidates.len(),
        first_executable(candidates.skip(from), executable) == if first_executable_at(
            candidates,
            executable,
            from,
        ) < candidates.len() {
            Some(candidates[first_executable_at(candidates, executable, from)])
        } else {
            None
        },
    decreases candidates.len() - from,
{
    let rest = candidates.skip(from);
    if from < candidates.len() {
        assert(rest[0] == candidates[from]);
        if !executable.contains(candidates[from]) {
            lemma_first_executable_at(candidates, executable, from + 1);
            assert(rest.drop_first() =~= candidates.skip(from + 1));
        }
    }
}

/// The law of the search path: a command name without a separator resolves
/// to its path in the first directory of the search path that holds an
/// executable file of that name, and to nothing if no directory does. A file
/// of that name that is not executable does not count.
pub proof fn lemma_resolve_bare_name(
    command: Seq<char>,
    path_list: Seq<char>,
    executable: Set<Seq<char>>,
    at: int,
)
    requires
        !is_direct(command),
        0 <= at <= split(path_list, PATH_LIST_SEPARATOR).len(),
        forall|j: int|
            0 <= j < at ==> !executable.contains(
                join_path(#[trigger] split(path_list, PATH_LIST_SEPARATOR)[j], command),
            ),
        at < split(path_list, PATH_LIST_SEPARATOR).len() ==> executable.contains(
            join_path(split(path_list, PATH_LIST_SEPARATOR)[at], command),
        ),
    ensures
        resolve(command, path_list, executable) == if at < split(
            path_list,
            PATH_LIST_SEPARATOR,
        ).len() {
            Some(join_path(split(path_list, PATH_LIST_SEPARATOR)[at], command))
        } else {
            None
        },
{
    let dirs = split(path_list, PATH_LIST_SEPARATOR);
    let candidates = candidates_of(command, path_list);
    assert forall|j: int| 0 <= j < at implies !executable.contains(#[trigger] candidates[j]) by {
        assert(candidates[j] == join_path(dirs[j], command));
    }
    lemma_first_executable(candidates, executable, at);
}

} // verus!
