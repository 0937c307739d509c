//! Characters and text: the character classes that the shell's grammar speaks
//! of, conversions between strings and character vectors, and trimming.

use vstd::prelude::*;
use crate::seqs::lemma_deep_view_push;

verus! {

/// Whether `c` is whitespace in Unicode's terms, as `char::is_whitespace`
/// reports it.
pub uninterp spec fn is_whitespace(c: char) -> bool;

/// Whether `c` is alphabetic or numeric in Unicode's terms, as
/// `char::is_alphanumeric` reports it.
pub uninterp spec fn is_alphanumeric(c: char) -> bool;

/// Calls `char::is_whitespace`. Trusted: its answer is what [`is_whitespace`]
/// stands for.
#[verifier::external_body]
pub(crate) fn char_is_whitespace(c: char) -> (out: bool)
    ensures
        out == is_whitespace(c),
{
    c.is_whitespace()
}

/// Calls `char::is_alphanumeric`. Trusted: its answer is what
/// [`is_alphanumeric`] stands for.
#[verifier::external_body]
pub(crate) fn char_is_alphanumeric(c: char) -> (out: bool)
    ensures
        out == is_alphanumeric(c),
{
    c.is_alphanumeric()
}

/// Calls `String::push`. Trusted: the string afterwards is the string before
/// with `c` appended as its last character.
#[verifier::external_body]
pub(crate) fn push_char(s: &mut String, c: char)
    ensures
        final(s)@ == old(s)@.push(c),
{
    s.push(c)
}

/// The characters of `s`, in order.
pub fn chars_of(s: &str) -> (out: Vec<char>)
    ensures
        out@ == s@,
{
    let mut out: Vec<char> = Vec::new();
    for c in it: s.chars()
        invariant
            out@ == it.seq().take(it.index()),
    {
        out.push(c);
    }
    out
}

/// The string made of `chars[from..to]`.
pub(crate) fn string_of(chars: &Vec<char>, from: usize, to: usize) -> (out: String)
    requires
        from <= to <= chars.len(),
    ensures
        out@ == chars@.subrange(from as int, to as int),
{
    let mut out = String::new();
    let mut i: usize = from;
    while i < to
        invariant
            from <= i <= to <= chars.len(),
            out@ == chars@.subrange(from as int, i as int),
        decreases to - i,
    {
        push_char(&mut out, chars[i]);
        i = i + 1;
    }
    out
}

/// A string of `n` spaces.
pub fn spaces(n: usize) -> (out: String)
    ensures
        out@ == Seq::new(n as nat, |i: int| ' '),
{
    let mut out = String::new();
    let mut i: usize = 0;
    while i < n
        invariant
            i <= n,
            out@ == Seq::new(i as nat, |j: int| ' '),
        decreases n - i,
    {
        push_char(&mut out, ' ');
        i = i + 1;
    }
    out
}

/// Every character of `s` is whitespace.
pub open spec fn is_blank(s: Seq<char>) -> bool {
    forall|i: int| 0 <= i < s.len() ==> is_whitespace(#[trigger] s[i])
}

/// How many whitespace characters `s` begins with.
pub open spec fn leading_whitespace(s: Seq<char>) -> nat
    decreases s.len(),
{
    if s.len() > 0 && is_whitespace(s[0]) {
        1 + leading_whitespace(s.drop_first())
    } else {
        0
    }
}

/// How many whitespace characters `s` ends with.
pub open spec fn trailing_whitespace(s: Seq<char>) -> nat
    decreases s.len(),
{
    if s.len() > 0 && is_whitespace(s.last()) {
        1 + trailing_whitespace(s.drop_last())
    } else {
        0
    }
}

/// `s` without its leading whitespace.
pub open spec fn trim_start(s: Seq<char>) -> Seq<char> {
    s.skip(leading_whitespace(s) as int)
}

/// `s` without its trailing whitespace.
pub open spec fn trim_end(s: Seq<char>) -> Seq<char> {
    s.take(s.len() - trailing_whitespace(s))
}

/// `s` without its leading and trailing whitespace.
pub open spec fn trim(s: Seq<char>) -> Seq<char> {
    trim_end(trim_start(s))
}

/// `s` neither starts nor ends with whitespace.
pub open spec fn is_trimmed(s: Seq<char>) -> bool {
    s.len() > 0 ==> !is_whitespace(s[0]) && !is_whitespace(s.last())
}

/// The leading whitespace of `s` is its longest prefix of whitespace
/// characters: `a` is its length exactly when the first `a` characters are
/// whitespace and the next one, if any, is not.
pub proof fn lemma_leading_whitespace(s: Seq<char>, a: int)
    requires
        0 <= a <= s.len(),
    ensures
        leading_whitespace(s) <= s.len(),
        leading_whitespace(s) == a <==> {
            &&& forall|i: int| 0 <= i < a ==> is_whitespace(#[trigger] s[i])
            &&& a < s.len() ==> !is_whitespace(s[a])
        },
    decreases s.len(),
{
    if s.len() > 0 && is_whitespace(s[0]) {
        let rest = s.drop_first();
        if a > 0 {
            lemma_leading_whitespace(rest, a - 1);
            assert(a < s.len() ==> rest[a - 1] == s[a]);
            if leading_whitespace(s) == a {
                assert forall|i: int| 0 <= i < a implies is_whitespace(#[trigger] s[i]) by {
                    if i > 0 {
                        assert(rest[i - 1] == s[i]);
                    }
                }
            }
            if forall|i: int| 0 <= i < a ==> is_whitespace(#[trigger] s[i]) {
                assert forall|i: int| 0 <= i < a - 1 implies is_whitespace(#[trigger] rest[i]) by {
                    assert(rest[i] == s[i + 1]);
                }
            }
        } else {
            lemma_leading_whitespace(rest, 0);
        }
    }
}

/// The trailing whitespace of `s` is its longest suffix of whitespace
/// characters: it starts at `b` exactly when every character from `b` on is
/// whitespace and the one before, if any, is not.
pub proof fn lemma_trailing_whitespace(s: Seq<char>, b: int)
    requires
        0 <= b <= s.len(),
    ensures
        trailing_whitespace(s) <= s.len(),
        s.len() - trailing_whitespace(s) == b <==> {
            &&& forall|i: int| b <= i < s.len() ==> is_whitespace(#[trigger] s[i])
            &&& b > 0 ==> !is_whitespace(s[b - 1])
        },
    decreases s.len(),
{
    if s.len() > 0 && is_whitespace(s.last()) {
        let rest = s.drop_last();
        if b < s.len() {
            lemma_trailing_whitespace(rest, b);
            assert(b > 0 ==> rest[b - 1] == s[b - 1]);
            if s.len() - trailing_whitespace(s) == b {
                assert forall|i: int| b <= i < s.len() implies is_whitespace(#[trigger] s[i]) by {
                    if i < rest.len() {
                        assert(rest[i] == s[i]);
                    }
                }
            }
            if forall|i: int| b <= i < s.len() ==> is_whitespace(#[trigger] s[i]) {
                assert forall|i: int| b <= i < rest.len() implies is_whitespace(
                    #[trigger] rest[i],
                ) by {
                    assert(rest[i] == s[i]);
                }
            }
        } else {
            lemma_trailing_whitespace(rest, rest.len() as int);
        }
    }
}

/// `s` without its leading and trailing whitespace.
pub fn trimmed(s: &str) -> (out: String)
    ensures
        out@ == trim(s@),
{
    let chars = chars_of(s);
    let mut a: usize = 0;
    while a < chars.len() && char_is_whitespace(chars[a])
        invariant
            a <= chars.len(),
            forall|i: int| 0 <= i < a ==> is_whitespace(#[trigger] chars@[i]),
        decreases chars.len() - a,
    {
        a = a + 1;
    }
    let mut b: usize = chars.len();
    while b > a && char_is_whitespace(chars[b - 1])
        invariant
            a <= b <= chars.len(),
            forall|i: int| b <= i < chars.len() ==> is_whitespace(#[trigger] chars@[i]),
        decreases b,
    {
        b = b - 1;
    }
    proof {
        lemma_leading_whitespace(chars@, a as int);
        let t = chars@.skip(a as int);
        assert forall|i: int| b - a <= i < t.len() implies is_whitespace(#[trigger] t[i]) by {
            assert(t[i] == chars@[i + a]);
        }
        lemma_trailing_whitespace(t, b - a);
        assert(t.take(b - a) =~= chars@.subrange(a as int, b as int));
    }
    string_of(&chars, a, b)
}

/// A trimmed text is what trimming leaves of itself.
pub proof fn lemma_trim_of_trimmed(s: Seq<char>)
    requires
        is_trimmed(s),
    ensures
        trim(s) == s,
{
    lemma_leading_whitespace(s, 0);
    assert(s.skip(0) =~= s);
    lemma_trailing_whitespace(s, s.len() as int);
    assert(s.take(s.len() as int) =~= s);
}

/// Trimming leaves a trimmed text, which is empty exactly when the text was
/// blank; trimming twice changes nothing more.
pub proof fn lemma_trim_is_trimmed(s: Seq<char>)
    ensures
        is_trimmed(trim(s)),
        trim(trim(s)) == trim(s),
        trim(s).len() == 0 <==> is_blank(s),
        trim(s).len() <= s.len(),
{
    let a = leading_whitespace(s) as int;
    lemma_leading_whitespace(s, 0);
    lemma_leading_whitespace(s, a);
    let t = s.skip(a);
    let b = t.len() - trailing_whitespace(t);
    lemma_trailing_whitespace(t, 0);
    lemma_trailing_whitespace(t, b);
    let r = t.take(b);
    assert(trim(s) == r);
    if r.len() > 0 {
        assert(r.last() == t[b - 1]);
        assert(r[0] == t[0]);
        assert(t[0] == s[a]);
    } else {
        assert forall|i: int| 0 <= i < s.len() implies is_whitespace(#[trigger] s[i]) by {
            if i >= a {
                assert(t[i - a] == s[i]);
            }
        }
    }
    lemma_trim_of_trimmed(r);
}

/// How many characters of `text` stand before the first `mark`, or in all if
/// there is none.
pub open spec fn first_index_of(text: Seq<char>, mark: char) -> nat
    decreases text.len(),
{
    if text.len() == 0 || text[0] == mark {
        0
    } else {
        1 + first_index_of(text.drop_first(), mark)
    }
}

/// The parts of `text` between the occurrences of `mark`, in order. A text
/// with n marks has n + 1 parts, some of which may be empty.
pub open spec fn split(text: Seq<char>, mark: char) -> Seq<Seq<char>>
    decreases text.len(),
{
    let cut = first_index_of(text, mark) as int;
    if cut >= text.len() {
        seq![text]
    } else {
        seq![text.take(cut)] + split(text.skip(cut + 1), mark)
    }
}

/// The first mark is where a mark stands with none before it.
pub proof fn lemma_first_index_of(text: Seq<char>, mark: char, cut: int)
    requires
        0 <= cut <= text.len(),
        forall|j: int| 0 <= j < cut ==> #[trigger] text[j] != mark,
        cut < text.len() ==> text[cut] == mark,
    ensures
        first_index_of(text, mark) == cut,
    decreases cut,
{
    if cut > 0 {
        let rest = text.drop_first();
        assert(text[0] != mark);
        assert forall|j: int| 0 <= j < cut - 1 implies #[trigger] rest[j] != mark by {
            assert(rest[j] == text[j + 1]);
        }
        lemma_first_index_of(rest, mark, cut - 1);
    }
}

/// A text always has at least one part.
pub proof fn lemma_split_has_a_part(text: Seq<char>, mark: char)
    ensures
        split(text, mark).len() > 0,
{
}

/// A text that begins with a part without marks, followed by a mark, splits
/// into that part and the parts of what follows the mark.
pub proof fn lemma_split_first(head: Seq<char>, mark: char, rest: Seq<char>)
    requires
        !head.contains(mark),
    ensures
        split(head.push(mark) + rest, mark) == seq![head] + split(rest, mark),
{
    let text = head.push(mark) + rest;
    let cut = head.len() as int;
    assert forall|j: int| 0 <= j < cut implies #[trigger] text[j] != mark by {
        assert(text[j] == head[j]);
        assert(head.contains(head[j]));
    }
    assert(text[cut] == mark);
    lemma_first_index_of(text, mark, cut);
    assert(text.take(cut) =~= head);
    assert(text.skip(cut + 1) =~= rest);
}

/// Cuts `text` at each occurrence of `mark`.
pub fn split_at(text: &str, mark: char) -> (out: Vec<String>)
    ensures
        out.deep_view() == split(text@, mark),
{
    let chars = chars_of(text);
    let mut parts: Vec<String> = Vec::new();
    let mut start: usize = 0;
    let mut done = false;
    assert(chars@.skip(0) =~= chars@);
    assert(parts.deep_view() + split(chars@, mark) =~= split(chars@, mark));
    while !done
        invariant
            start <= chars.len(),
            chars@ == text@,
            done ==> split(text@, mark) == parts.deep_view(),
            !done ==> split(text@, mark) == parts.deep_view() + split(
                chars@.skip(start as int),
                mark,
            ),
        decreases chars.len() - start + if done { 0int } else { 1int },
    {
        let mut cut: usize = start;
        while cut < chars.len() && chars[cut] != mark
            invariant
                start <= cut <= chars.len(),
                forall|j: int| start <= j < cut ==> #[trigger] chars@[j] != mark,
            decreases chars.len() - cut,
        {
            cut = cut + 1;
        }
        let ghost rest = chars@.skip(start as int);
        let ghost before = parts;
        proof {
            assert forall|j: int| 0 <= j < cut - start implies #[trigger] rest[j] != mark by {
                assert(rest[j] == chars@[start + j]);
            }
            lemma_first_index_of(rest, mark, cut - start);
            assert(rest.take(cut - start) =~= chars@.subrange(start as int, cut as int));
        }
        parts.push(string_of(&chars, start, cut));
        proof {
            lemma_deep_view_push(before, parts, parts@.last());
        }
        if cut < chars.len() {
            proof {
                assert(rest.skip(cut - start + 1) =~= chars@.skip(cut + 1));
                assert(split(text@, mark) =~= parts.deep_view() + split(
                    chars@.skip(cut + 1),
                    mark,
                ));
            }
            start = cut + 1;
        } else {
            proof {
                assert(rest.take(cut - start) =~= rest);
                assert(split(text@, mark) =~= parts.deep_view());
            }
            done = true;
        }
    }
    parts
}

/// Whether `mark` occurs in `text`.
pub fn contains_char(text: &str, mark: char) -> (out: bool)
    ensures
        out == text@.contains(mark),
{
    let chars = chars_of(text);
    let mut i: usize = 0;
    while i < chars.len()
        invariant
            i <= chars.len(),
            chars@ == text@,
            forall|j: int| 0 <= j < i ==> #[trigger] chars@[j] != mark,
        decreases chars.len() - i,
    {
        if chars[i] == mark {
            return true;
        }
        i = i + 1;
    }
    false
}

} // verus!
