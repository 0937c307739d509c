//! The command history: the lines that were accepted, oldest first, with a
//! cursor for going back and forth through them.
//!
//! The history is bounded: once it is full, a new entry drives out the oldest
//! one. No entry is blank, none has whitespace at either end, and no entry
//! equals the one before it.

use vstd::prelude::*;
use vstd::string::StringExecFns;
use crate::seqs::lemma_deep_view_push;
use crate::text::{
    is_trimmed, lemma_split_first, lemma_trim_of_trimmed, lemma_trim_is_trimmed, push_char, split,
    split_at, trim, trimmed,
};

verus! {

/// The name of the file, in the user's home directory, that keeps the
/// history from one run of the shell to the next.
pub const HISTORY_FILE_NAME: &'static str = ".rush_history";

/// How many entries the history of a shell holds.
pub const MAX_HISTORY: usize = 1000;

/// What ends each entry in the history file.
pub const LINE_END: char = '\n';

/// A bounded history with its cursor.
pub struct History {
    entries: Vec<String>,
    position: usize,
    limit: usize,
}

/// The view of a [`History`]: the entries, oldest first; the
/// cursor, which is the index of the entry that was last shown, or the
/// number of entries while none is shown; and the bound.
pub struct HistoryView {
    pub entries: Seq<Seq<char>>,
    pub position: nat,
    pub limit: nat,
}

/// What a step through the history gives: the history after it and the entry
/// to show, if there is one.
pub struct Browse {
    pub history: HistoryView,
    pub shown: Option<Seq<char>>,
}

impl HistoryView {
    /// The empty history with the bound `limit`.
    pub open spec fn empty(limit: nat) -> HistoryView {
        HistoryView { entries: Seq::empty(), position: 0, limit }
    }

    /// The invariant of a history.
    pub open spec fn wf(self) -> bool {
        &&& self.position <= self.entries.len()
        &&& self.entries.len() <= self.limit
        &&& forall|i: int|
            0 <= i < self.entries.len() ==> (#[trigger] self.entries[i]).len() > 0 && is_trimmed(
                self.entries[i],
            )
        &&& forall|i: int|
            0 < i < self.entries.len() ==> self.entries[i - 1] != #[trigger] self.entries[i]
    }

    /// The line makes a new entry: it is not blank, and trimmed it differs
    /// from the newest entry.
    pub open spec fn accepts(self, line: Seq<char>) -> bool {
        trim(line).len() > 0 && (self.entries.len() == 0 || self.entries.last() != trim(line))
    }

    /// The history after `line` was offered to it. A line that is accepted
    /// is trimmed and becomes the newest entry, the oldest entry leaves if
    /// the bound is exceeded, and the cursor goes past the end. Any other
    /// line changes nothing.
    pub open spec fn add(self, line: Seq<char>) -> HistoryView {
        if self.accepts(line) {
            let grown = self.entries.push(trim(line));
            let entries = if grown.len() > self.limit {
                grown.drop_first()
            } else {
                grown
            };
            HistoryView { entries, position: entries.len(), limit: self.limit }
        } else {
            self
        }
    }

    /// The history after each of the lines was offered to it, in order.
    pub open spec fn replay(self, lines: Seq<Seq<char>>) -> HistoryView
        decreases lines.len(),
    {
        if lines.len() == 0 {
            self
        } else {
            self.replay(lines.drop_last()).add(lines.last())
        }
    }

    /// One step towards older entries: the cursor moves back by one, but not
    /// below the oldest entry, and the entry under it is shown. An empty
    /// history shows nothing.
    pub open spec fn previous(self) -> Browse {
        if self.entries.len() == 0 {
            Browse { history: self, shown: None }
        } else if self.position > 0 {
            Browse {
                history: HistoryView { position: (self.position - 1) as nat, ..self },
                shown: Some(self.entries[self.position - 1]),
            }
        } else {
            Browse { history: self, shown: Some(self.entries[0]) }
        }
    }

    /// One step towards newer entries: the cursor moves forward by one and
    /// the entry under it is shown. Past the newest entry nothing is shown,
    /// and the cursor stands past the end.
    pub open spec fn next(self) -> Browse {
        if self.position + 1 < self.entries.len() {
            Browse {
                history: HistoryView { position: self.position + 1, ..self },
                shown: Some(self.entries[self.position as int + 1]),
            }
        } else {
            Browse {
                history: HistoryView { position: self.entries.len(), ..self },
                shown: None,
            }
        }
    }

    /// The history with the cursor past the end: no entry is shown.
    pub open spec fn reset(self) -> HistoryView {
        HistoryView { position: self.entries.len(), ..self }
    }
}

/// The text of the history file: each entry followed by a newline.
pub open spec fn file_text(entries: Seq<Seq<char>>) -> Seq<char>
    decreases entries.len(),
{
    if entries.len() == 0 {
        Seq::empty()
    } else {
        file_text(entries.drop_last()) + entries.last().push(LINE_END)
    }
}

impl View for History {
    type V = HistoryView;

    closed spec fn view(&self) -> HistoryView {
        HistoryView {
            entries: self.entries.deep_view(),
            position: self.position as nat,
            limit: self.limit as nat,
        }
    }
}

impl History {
    /// An empty history that holds up to `limit` entries.
    pub fn new(limit: usize) -> (out: Self)
        ensures
            out@.wf(),
            out@ == HistoryView::empty(limit as nat),
    {
        let out = History { entries: Vec::new(), position: 0, limit };
        assert(out@.entries =~= Seq::<Seq<char>>::empty());
        out
    }

    /// Offers a line to the history. The line is trimmed. If it is then empty,
    /// or equal to the newest entry, nothing changes. Otherwise it becomes
    /// the newest entry, the oldest entry leaves if the bound is exceeded,
    /// and the cursor goes past the end. Says whether the history changed,
    /// which is when its file is to be written anew.
    pub fn add(&mut self, command: String) -> (stored: bool)
        requires
            old(self)@.wf(),
        ensures
            final(self)@.wf(),
            final(self)@ == old(self)@.add(command@),
            stored == old(self)@.accepts(command@),
    {
        let line = trimmed(command.as_str());
        let count = self.entries.len();
        if line.as_str().is_empty() || (count > 0 && self.entries[count - 1] == line) {
            return false;
        }
        proof {
            lemma_trim_is_trimmed(command@);
        }
        let ghost before = self.entries;
        self.entries.push(line);
        proof {
            lemma_deep_view_push(before, self.entries, self.entries@.last());
        }
        if self.entries.len() > self.limit {
            let ghost grown = self.entries;
            self.entries.remove(0);
            assert(self.entries.deep_view() =~= grown.deep_view().drop_first());
        }
        self.position = self.entries.len();
        true
    }

    /// Steps to the entry before the one under the cursor and gives it. At
    /// the oldest entry the cursor stays and that entry is given again. An
    /// empty history gives nothing.
    pub fn get_previous(&mut self) -> (out: Option<&String>)
        requires
            old(self)@.wf(),
        ensures
            final(self)@.wf(),
            final(self)@ == old(self)@.previous().history,
            out.deep_view() == old(self)@.previous().shown,
    {
        if self.position > 0 && self.entries.len() > 0 {
            self.position = self.position - 1;
            Some(&self.entries[self.position])
        } else if self.entries.len() > 0 {
            Some(&self.entries[0])
        } else {
            None
        }
    }

    /// Steps to the entry after the one under the cursor and gives it. Past
    /// the newest entry it gives nothing and leaves the cursor past the end.
    pub fn get_next(&mut self) -> (out: Option<&String>)
        requires
            old(self)@.wf(),
        ensures
            final(self)@.wf(),
            final(self)@ == old(self)@.next().history,
            out.deep_view() == old(self)@.next().shown,
    {
        if self.position < self.entries.len() && self.position + 1 < self.entries.len() {
            self.position = self.position + 1;
            Some(&self.entries[self.position])
        } else {
            self.position = self.entries.len();
            None
        }
    }

    /// Puts the cursor past the end.
    pub fn reset_position(&mut self)
        requires
            old(self)@.wf(),
        ensures
            final(self)@.wf(),
            final(self)@ == old(self)@.reset(),
    {
        self.position = self.entries.len();
    }

    /// The entries, oldest first.
    pub fn entries(&self) -> (out: &Vec<String>)
        ensures
            out.deep_view() == self@.entries,
    {
        &self.entries
    }

    /// The cursor.
    pub fn position(&self) -> (out: usize)
        ensures
            out == self@.position,
    {
        self.position
    }

    /// The bound.
    pub fn limit(&self) -> (out: usize)
        ensures
            out == self@.limit,
    {
        self.limit
    }

    /// The history that the text of a history file stands for: each line of
    /// the text is offered to an empty history, in order.
    pub fn load(contents: &str, limit: usize) -> (out: Self)
        ensures
            out@.wf(),
            out@ == HistoryView::empty(limit as nat).replay(split(contents@, LINE_END)),
    {
        let lines = split_at(contents, LINE_END);
        let mut history = History::new(limit);
        let ghost all = lines.deep_view();
        let mut i: usize = 0;
        assert(all.take(0) =~= Seq::<Seq<char>>::empty());
        while i < lines.len()
            invariant
                i <= lines.len(),
                all == lines.deep_view(),
                history@.wf(),
                history@ == HistoryView::empty(limit as nat).replay(all.take(i as int)),
            decreases lines.len() - i,
        {
            proof {
                assert(all.take(i + 1).drop_last() =~= all.take(i as int));
                assert(all.take(i + 1).last() == lines@[i as int]@);
            }
            history.add(lines[i].clone());
            i = i + 1;
        }
        assert(all.take(lines.len() as int) =~= all);
        history
    }

    /// The text of the history file: each entry followed by a newline.
    pub fn serialize(&self) -> (out: String)
        ensures
            out@ == file_text(self@.entries),
    {
        let mut out = String::new();
        let ghost all = self.entries.deep_view();
        let mut i: usize = 0;
        assert(all.take(0) =~= Seq::<Seq<char>>::empty());
        while i < self.entries.len()
            invariant
                i <= self.entries.len(),
                all == self.entries.deep_view(),
                out@ == file_text(all.take(i as int)),
            decreases self.entries.len() - i,
        {
            proof {
                assert(all.take(i + 1).drop_last() =~= all.take(i as int));
                assert(all.take(i + 1).last() == self.entries@[i as int]@);
            }
            let ghost before = out@;
            out.append(self.entries[i].as_str());
            push_char(&mut out, LINE_END);
            assert(out@ =~= before + self.entries@[i as int]@.push(LINE_END));
            i = i + 1;
        }
        assert(all.take(self.entries.len() as int) =~= all);
        out
    }

    /// The path of the history file of a user whose home directory is `home`.
    pub fn file_path(home: &str) -> (out: String)
        ensures
            out@ == home@.push('/') + HISTORY_FILE_NAME@,
    {
        let mut out = String::from_str(home);
        push_char(&mut out, '/');
        out.append(HISTORY_FILE_NAME);
        out
    }
}

/// The lines, each trimmed.
pub open spec fn trim_each(lines: Seq<Seq<char>>) -> Seq<Seq<char>> {
    Seq::new(lines.len(), |i: int| trim(lines[i]))
}

/// Each of the lines makes an entry when they are offered in order: none is
/// blank, and none equals, once trimmed, the one before it.
pub open spec fn all_distinct_commands(lines: Seq<Seq<char>>) -> bool {
    &&& forall|i: int| 0 <= i < lines.len() ==> trim(#[trigger] lines[i]).len() > 0
    &&& forall|i: int| 0 < i < lines.len() ==> trim(lines[i - 1]) != trim(#[trigger] lines[i])
}

/// Offering a line keeps the invariant of the history.
pub proof fn lemma_add_keeps_invariant(history: HistoryView, line: Seq<char>)
    requires
        history.wf(),
    ensures
        history.add(line).wf(),
{
    lemma_trim_is_trimmed(line);
}

/// The law of repetition: a line that is offered twice in a row is stored
/// once. The second offer changes nothing.
pub proof fn lemma_add_twice_stores_once(history: HistoryView, line: Seq<char>)
    requires
        history.wf(),
    ensures
        history.add(line).add(line) == history.add(line),
        history.limit > 0 ==> !history.add(line).accepts(line),
{
    let once = history.add(line);
    if history.accepts(line) {
        let grown = history.entries.push(trim(line));
        if grown.len() > history.limit {
            if history.limit > 0 {
                assert(grown.drop_first().last() == trim(line));
            } else {
                assert(once.entries =~= Seq::<Seq<char>>::empty());
                assert(Seq::<Seq<char>>::empty().push(trim(line)).drop_first() =~= Seq::<
                    Seq<char>,
                >::empty());
            }
        } else {
            assert(grown.last() == trim(line));
        }
    }
}

/// The law of the bound, one step: a new entry in a full history drives out
/// the oldest entry and leaves the others in their order.
pub proof fn lemma_full_history_evicts_oldest(history: HistoryView, line: Seq<char>)
    requires
        history.wf(),
        history.entries.len() == history.limit,
        history.accepts(line),
    ensures
        history.add(line).entries == history.entries.push(trim(line)).drop_first(),
        history.add(line).entries.len() == history.limit,
        history.limit > 0 ==> history.add(line).entries =~= history.entries.drop_first().push(
            trim(line),
        ),
{
}

/// The law of the bound: after any number of distinct commands were offered
/// to an empty history, the history holds the newest of them, as many as the
/// bound allows, in their order. One command more than the bound drives out
/// the first one.
pub proof fn lemma_replay_keeps_newest(limit: nat, lines: Seq<Seq<char>>)
    requires
        all_distinct_commands(lines),
    ensures
        HistoryView::empty(limit).replay(lines).wf(),
        HistoryView::empty(limit).replay(lines).limit == limit,
        HistoryView::empty(limit).replay(lines).position == HistoryView::empty(limit).replay(
            lines,
        ).entries.len(),
        HistoryView::empty(limit).replay(lines).entries == trim_each(lines).skip(
            if lines.len() > limit {
                lines.len() - limit
            } else {
                0
            },
        ),
        lines.len() == limit + 1 ==> HistoryView::empty(limit).replay(lines).entries == trim_each(
            lines,
        ).drop_first(),
    decreases lines.len(),
{
    let start = HistoryView::empty(limit);
    if lines.len() == 0 {
        assert(trim_each(lines).skip(0) =~= Seq::<Seq<char>>::empty());
    } else {
        let earlier = lines.drop_last();
        let count = lines.len() as int;
        assert forall|i: int| 0 < i < earlier.len() implies trim(earlier[i - 1]) != trim(
            #[trigger] earlier[i],
        ) by {
            assert(earlier[i] == lines[i]);
            assert(earlier[i - 1] == lines[i - 1]);
        }
        assert forall|i: int| 0 <= i < earlier.len() implies trim(#[trigger] earlier[i]).len()
            > 0 by {
            assert(earlier[i] == lines[i]);
        }
        lemma_replay_keeps_newest(limit, earlier);
        let before = start.replay(earlier);
        let line = lines.last();
        let skipped = if earlier.len() > limit {
            earlier.len() - limit
        } else {
            0
        };
        assert(before.entries == trim_each(earlier).skip(skipped));
        if before.entries.len() > 0 {
            assert(before.entries.last() == trim_each(earlier)[count - 2]);
            assert(earlier[count - 2] == lines[count - 2]);
            assert(trim(lines[count - 2]) != trim(lines[count - 1]));
        }
        assert(before.accepts(line));
        lemma_add_keeps_invariant(before, line);
        let grown = before.entries.push(trim(line));
        assert(grown =~= trim_each(lines).skip(skipped));
        let after = before.add(line);
        assert(start.replay(lines) == after);
        if grown.len() > limit {
            assert(grown.drop_first() =~= trim_each(lines).skip(count - limit));
            assert(after.entries == grown.drop_first());
        } else {
            assert(after.entries == grown);
        }
    }
    if lines.len() == limit + 1 {
        assert(trim_each(lines).skip(1) =~= trim_each(lines).drop_first());
    }
}

/// What stepping back twice and then forward once gives.
pub open spec fn back_back_forth(history: HistoryView) -> Browse {
    history.previous().history.previous().history.next()
}

/// The law of navigation: two steps back and one step forward end one entry
/// before the one that the cursor began at, and show that entry. From a
/// cursor on the newest entry this is the entry one step older than the
/// newest; from a cursor past the end it is the newest entry.
pub proof fn lemma_previous_previous_next(history: HistoryView)
    requires
        history.wf(),
        history.position >= 2,
    ensures
        back_back_forth(history).shown == Some(history.entries[history.position - 1]),
        back_back_forth(history).history == (HistoryView {
            position: (history.position - 1) as nat,
            ..history
        }),
        history.position == history.entries.len() - 1 ==> back_back_forth(history).shown == Some(
            history.entries[history.entries.len() - 2],
        ),
        history.position == history.entries.len() ==> back_back_forth(history).shown == Some(
            history.entries.last(),
        ),
{
}

/// The text of the history file begins with the oldest entry and its
/// newline.
proof fn lemma_file_text_front(entries: Seq<Seq<char>>)
    requires
        entries.len() > 0,
    ensures
        file_text(entries) == entries[0].push(LINE_END) + file_text(entries.drop_first()),
    decreases entries.len(),
{
    if entries.len() == 1 {
        assert(entries.drop_last() =~= Seq::<Seq<char>>::empty());
        assert(entries.drop_first() =~= Seq::<Seq<char>>::empty());
        assert(file_text(entries.drop_last()) =~= Seq::<char>::empty());
        assert(file_text(entries.drop_first()) =~= Seq::<char>::empty());
        assert(file_text(entries) =~= entries[0].push(LINE_END) + Seq::<char>::empty());
    } else {
        let earlier = entries.drop_last();
        lemma_file_text_front(earlier);
        assert(earlier.drop_first() =~= entries.drop_first().drop_last());
        assert(earlier[0] == entries[0]);
        assert(entries.drop_first().last() == entries.last());
        assert(file_text(entries) =~= entries[0].push(LINE_END) + file_text(
            entries.drop_first(),
        ));
    }
}

/// The lines of the text of the history file are the entries, and an empty
/// line after the last newline.
proof fn lemma_split_file_text(entries: Seq<Seq<char>>)
    requires
        forall|i: int| 0 <= i < entries.len() ==> !(#[trigger] entries[i]).contains(LINE_END),
    ensures
        split(file_text(entries), LINE_END) == entries.push(Seq::empty()),
    decreases entries.len(),
{
    if entries.len() == 0 {
        assert(split(file_text(entries), LINE_END) =~= entries.push(Seq::empty()));
    } else {
        let rest = entries.drop_first();
        lemma_file_text_front(entries);
        assert forall|i: int| 0 <= i < rest.len() implies !(#[trigger] rest[i]).contains(
            LINE_END,
        ) by {
            assert(rest[i] == entries[i + 1]);
        }
        lemma_split_file_text(rest);
        lemma_split_first(entries[0], LINE_END, file_text(rest));
        assert(seq![entries[0]] + rest.push(Seq::empty()) =~= entries.push(Seq::empty()));
    }
}

/// The law of persistence: the history that is read back from the text
/// written for a history has the same entries and the same bound, and its
/// cursor past the end, as long as no entry holds a newline.
pub proof fn lemma_load_restores_saved_history(history: HistoryView)
    requires
        history.wf(),
        forall|i: int|
            0 <= i < history.entries.len() ==> !(#[trigger] history.entries[i]).contains(LINE_END),
    ensures
        HistoryView::empty(history.limit).replay(split(file_text(history.entries), LINE_END))
            == history.reset(),
{
    let entries = history.entries;
    let lines = split(file_text(entries), LINE_END);
    let start = HistoryView::empty(history.limit);
    lemma_split_file_text(entries);
    assert(lines.drop_last() =~= entries);
    assert(lines.last() == Seq::<char>::empty());
    lemma_trim_is_trimmed(Seq::<char>::empty());
    assert forall|i: int| 0 <= i < entries.len() implies trim(#[trigger] entries[i])
        == entries[i] by {
        lemma_trim_of_trimmed(entries[i]);
    }
    assert forall|i: int| 0 < i < entries.len() implies trim(entries[i - 1]) != trim(
        #[trigger] entries[i],
    ) by {
        assert(trim(entries[i - 1]) == entries[i - 1]);
    }
    lemma_replay_keeps_newest(history.limit, entries);
    assert(trim_each(entries).skip(0) =~= entries);
    let restored = start.replay(entries);
    assert(!restored.accepts(Seq::<char>::empty()));
    assert(start.replay(lines) == restored);
}

} // verus!
