//! The commands that the shell runs itself, and the texts that it prints
//! about commands.

use vstd::prelude::*;
use vstd::string::StringExecFns;
use crate::text::chars_of;

verus! {

/// A command that the shell runs in its own process.
#[derive(Debug, Clone, Copy, PartialEq, Eq, Structural)]
pub enum Builtin {
    /// `exit [code]`: ends the shell.
    Exit,
    /// `cd [path]`: changes the working directory.
    ChangeDirectory,
}

/// The name of the built-in that ends the shell.
pub const EXIT_NAME: &'static str = "exit";

/// The name of the built-in that changes the working directory.
pub const CD_NAME: &'static str = "cd";

/// What the shell writes before it reads a line.
pub const PROMPT: &'static str = "$ ";

/// The built-in that a program name stands for, if it is the name of one.
pub open spec fn builtin_named(name: Seq<char>) -> Option<Builtin> {
    if name == EXIT_NAME@ {
        Some(Builtin::Exit)
    } else if name == CD_NAME@ {
        Some(Builtin::ChangeDirectory)
    } else {
        None
    }
}

/// Whether two texts are the same.
pub fn same_text(left: &str, right: &str) -> (out: bool)
    ensures
        out == (left@ == right@),
{
    String::from_str(left) == String::from_str(right)
}

/// Looks a program name up among the built-ins.
pub fn builtin_of(name: &str) -> (out: Option<Builtin>)
    ensures
        out == builtin_named(name@),
{
    if same_text(name, EXIT_NAME) {
        Some(Builtin::Exit)
    } else if same_text(name, CD_NAME) {
        Some(Builtin::ChangeDirectory)
    } else {
        None
    }
}

/// The character is a decimal digit.
pub open spec fn is_digit(c: char) -> bool {
    '0' <= c <= '9'
}

/// The number that a sequence of decimal digits stands for.
pub open spec fn decimal_value(digits: Seq<char>) -> nat
    decreases digits.len(),
{
    if digits.len() == 0 {
        0
    } else {
        (10 * decimal_value(digits.drop_last()) + (digits.last() as int - '0' as int)) as nat
    }
}

/// The text is one or more decimal digits.
pub open spec fn is_number(digits: Seq<char>) -> bool {
    digits.len() > 0 && forall|i: int| 0 <= i < digits.len() ==> is_digit(#[trigger] digits[i])
}

/// The text begins with a sign.
pub open spec fn is_signed(text: Seq<char>) -> bool {
    text.len() > 0 && (text[0] == '-' || text[0] == '+')
}

/// The integer that a text stands for: an optional `+` or `-` followed by
/// one or more decimal digits and nothing else.
pub open spec fn integer_value(text: Seq<char>) -> Option<int> {
    let digits = if is_signed(text) {
        text.drop_first()
    } else {
        text
    };
    if !is_number(digits) {
        None
    } else if text[0] == '-' {
        Some(-(decimal_value(digits) as int))
    } else {
        Some(decimal_value(digits) as int)
    }
}

/// The exit code that a text stands for: its integer value, if it has one
/// that fits 32 bits.
pub open spec fn exit_code_value(text: Seq<char>) -> Option<i32> {
    match integer_value(text) {
        Some(value) => if i32::MIN <= value <= i32::MAX {
            Some(value as i32)
        } else {
            None
        },
        None => None,
    }
}

/// The code that `exit` ends the shell with: the value of its first
/// argument, or 0 if it has none or the argument is no exit code.
pub open spec fn exit_code_of(args: Seq<Seq<char>>) -> i32 {
    if args.len() == 0 {
        0
    } else {
        match exit_code_value(args[0]) {
            Some(code) => code,
            None => 0,
        }
    }
}

/// The value of a number is at least the value of each of its prefixes.
proof fn lemma_decimal_value_grows(digits: Seq<char>, length: int)
    requires
        0 <= length <= digits.len(),
        forall|i: int| 0 <= i < digits.len() ==> is_digit(#[trigger] digits[i]),
    ensures
        decimal_value(digits.take(length)) <= decimal_value(digits),
    decreases digits.len() - length,
{
    if length < digits.len() {
        let longer = digits.take(length + 1);
        assert(longer.drop_last() =~= digits.take(length));
        assert(is_digit(digits[length]));
        assert(longer.last() == digits[length]);
        lemma_decimal_value_grows(digits, length + 1);
    } else {
        assert(digits.take(length) =~= digits);
    }
}

/// Reads a text as an exit code.
pub fn parse_exit_code(text: &str) -> (out: Option<i32>)
    ensures
        out == exit_code_value(text@),
{
    let chars = chars_of(text);
    let signed = chars.len() > 0 && (chars[0] == '-' || chars[0] == '+');
    let negative = chars.len() > 0 && chars[0] == '-';
    let start: usize = if signed { 1 } else { 0 };
    if start >= chars.len() {
        return None;
    }
    let ghost digits = if signed { chars@.drop_first() } else { chars@ };
    let mut value: i64 = 0;
    let mut i: usize = start;
    assert(digits.take(0) =~= Seq::<char>::empty());
    assert(digits =~= chars@.skip(start as int));
    while i < chars.len()
        invariant
            start <= i <= chars.len(),
            start < chars.len(),
            chars@ == text@,
            signed == is_signed(text@),
            negative == (text@[0] == '-'),
            digits == if is_signed(text@) { text@.drop_first() } else { text@ },
            digits == chars@.skip(start as int),
            0 <= value <= 2147483648,
            value == decimal_value(digits.take(i - start)),
            forall|j: int| 0 <= j < i - start ==> is_digit(#[trigger] digits[j]),
        decreases chars.len() - i,
    {
        let c = chars[i];
        assert(digits[i - start] == c);
        if c < '0' || c > '9' {
            return None;
        }
        let digit = (c as u32 - '0' as u32) as i64;
        proof {
            let longer = digits.take(i - start + 1);
            assert(longer.drop_last() =~= digits.take(i - start));
            assert(longer.last() == c);
        }
        value = value * 10 + digit;
        if value > 2147483648 {
            proof {
                if is_number(digits) {
                    lemma_decimal_value_grows(digits, i - start + 1);
                }
            }
            return None;
        }
        i = i + 1;
    }
    assert(digits.take(digits.len() as int) =~= digits);
    if negative {
        Some((0 - value) as i32)
    } else if value <= 2147483647 {
        Some(value as i32)
    } else {
        None
    }
}

/// The code that `exit` ends the shell with.
pub fn exit_code(args: &Vec<String>) -> (out: i32)
    ensures
        out == exit_code_of(args.deep_view()),
{
    if args.len() == 0 {
        0
    } else {
        match parse_exit_code(args[0].as_str()) {
            Some(code) => code,
            None => 0,
        }
    }
}

/// `path` with a leading `~` replaced by the home directory, where the `~`
/// is the whole path or is followed by `/`.
pub open spec fn expand_tilde_of(path: Seq<char>, home: Seq<char>) -> Seq<char> {
    if path.len() == 1 && path[0] == '~' {
        home
    } else if path.len() >= 2 && path[0] == '~' && path[1] == '/' {
        home + path.skip(1)
    } else {
        path
    }
}

/// Expands a leading `~` or `~/` of `path` to the home directory.
pub fn expand_tilde(path: &str, home: &str) -> (out: String)
    ensures
        out@ == expand_tilde_of(path@, home@),
{
    let length = path.unicode_len();
    if length >= 1 && path.get_char(0) == '~' && (length == 1 || path.get_char(1) == '/') {
        let mut out = String::from_str(home);
        if length > 1 {
            out.append(path.substring_char(1, length));
        } else {
            assert(out@ + Seq::<char>::empty() =~= out@);
        }
        assert(path@.subrange(1, length as int) =~= path@.skip(1));
        out
    } else {
        String::from_str(path)
    }
}

/// Where `cd` goes, and the path that it names if it fails to get there.
#[derive(Debug, PartialEq, Eq)]
pub struct DirectoryChange {
    /// The directory to change to.
    pub target: String,
    /// The path as the user gave it.
    pub shown: String,
}

/// The view of a [`DirectoryChange`].
pub struct DirectoryChangeView {
    pub target: Seq<char>,
    pub shown: Seq<char>,
}

impl View for DirectoryChange {
    type V = DirectoryChangeView;

    open spec fn view(&self) -> DirectoryChangeView {
        DirectoryChangeView { target: self.target@, shown: self.shown@ }
    }
}

/// Where `cd` goes with the arguments `args`: home, if it has no argument or
/// an empty one; else where its first argument says, a leading `~` standing
/// for home.
pub open spec fn directory_change_of(args: Seq<Seq<char>>, home: Seq<char>) -> DirectoryChangeView {
    if args.len() == 0 || args[0].len() == 0 {
        DirectoryChangeView { target: home, shown: home }
    } else {
        DirectoryChangeView { target: expand_tilde_of(args[0], home), shown: args[0] }
    }
}

/// Decides where `cd` goes.
pub fn directory_change(args: &Vec<String>, home: &str) -> (out: DirectoryChange)
    ensures
        out@ == directory_change_of(args.deep_view(), home@),
{
    if args.len() == 0 || args[0].as_str().is_empty() {
        DirectoryChange { target: String::from_str(home), shown: String::from_str(home) }
    } else {
        DirectoryChange {
            target: expand_tilde(args[0].as_str(), home),
            shown: args[0].clone(),
        }
    }
}

/// What follows the command's name in the report of a command that was not
/// found.
pub const NOT_FOUND_SUFFIX: &'static str = ": command not found";

/// What precedes the path in the report of a failed `cd`.
pub const CD_ERROR_PREFIX: &'static str = "cd: ";

/// What follows the path in the report of a failed `cd`.
pub const CD_ERROR_SUFFIX: &'static str = ": No such file or directory";

/// What precedes the cause in the report of a command that could not be run.
pub const EXECUTION_ERROR_PREFIX: &'static str = "Error executing command: ";

/// The report of a command that was not found: `<command>: command not
/// found`.
pub open spec fn not_found_text(command: Seq<char>) -> Seq<char> {
    command + NOT_FOUND_SUFFIX@
}

/// The report of a `cd` that failed: `cd: <path>: No such file or
/// directory`, with the path as the user gave it.
pub open spec fn cd_error_text(shown: Seq<char>) -> Seq<char> {
    CD_ERROR_PREFIX@ + shown + CD_ERROR_SUFFIX@
}

/// The report of a command that could not be started, or whose output could
/// not be written: `Error executing command: <cause>`.
pub open spec fn execution_error_text(cause: Seq<char>) -> Seq<char> {
    EXECUTION_ERROR_PREFIX@ + cause
}

/// Makes the report of a command that was not found.
pub fn not_found_message(command: &str) -> (out: String)
    ensures
        out@ == not_found_text(command@),
{
    let mut out = String::from_str(command);
    out.append(NOT_FOUND_SUFFIX);
    out
}

/// Makes the report of a `cd` that failed.
pub fn cd_error_message(shown: &str) -> (out: String)
    ensures
        out@ == cd_error_text(shown@),
{
    let mut out = String::from_str(CD_ERROR_PREFIX);
    out.append(shown);
    out.append(CD_ERROR_SUFFIX);
    out
}

/// Makes the report of a command that could not be run.
pub fn execution_error_message(cause: &str) -> (out: String)
    ensures
        out@ == execution_error_text(cause@),
{
    let mut out = String::from_str(EXECUTION_ERROR_PREFIX);
    out.append(cause);
    out
}

} // verus!
