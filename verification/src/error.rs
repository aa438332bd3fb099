//! Diagnostics.

use crate::span::Span;
use vstd::prelude::*;
use vstd::string::StringExecFns;

verus! {

/// The mathematical reading of a diagnostic: the byte range it points at
/// and its message.
pub struct Diagnostic {
    pub start: int,
    pub end: int,
    pub message: Seq<char>,
}

/// A diagnostic: a byte range of the source and a message about it.
#[derive(Debug, Clone, PartialEq, Eq, Hash)]
pub struct Error {
    pub range: Span,
    pub message: String,
}

impl View for Error {
    type V = Diagnostic;

    open spec fn view(&self) -> Diagnostic {
        Diagnostic {
            start: self.range.start as int,
            end: self.range.end as int,
            message: self.message@,
        }
    }
}

/// The readings of a sequence of diagnostics.
pub open spec fn diagnostics_of(errors: Seq<Error>) -> Seq<Diagnostic> {
    Seq::new(errors.len(), |k: int| errors[k]@)
}

/// The character for the digit `d`.
pub open spec fn digit_char(d: int) -> char {
    if d == 0 {
        '0'
    } else if d == 1 {
        '1'
    } else if d == 2 {
        '2'
    } else if d == 3 {
        '3'
    } else if d == 4 {
        '4'
    } else if d == 5 {
        '5'
    } else if d == 6 {
        '6'
    } else if d == 7 {
        '7'
    } else if d == 8 {
        '8'
    } else {
        '9'
    }
}

/// The decimal digits of `n`, most significant first, without leading
/// zeros.
pub open spec fn decimal_digits(n: nat) -> Seq<char>
    decreases n,
{
    if n < 10 {
        seq![digit_char(n as int)]
    } else {
        decimal_digits(n / 10).push(digit_char((n % 10) as int))
    }
}

/// The digit `d` as a string.
fn digit(d: usize) -> (s: &'static str)
    requires
        d < 10,
    ensures
        s@ == seq![digit_char(d as int)],
{
    proof {
        reveal_strlit("0");
        reveal_strlit("1");
        reveal_strlit("2");
        reveal_strlit("3");
        reveal_strlit("4");
        reveal_strlit("5");
        reveal_strlit("6");
        reveal_strlit("7");
        reveal_strlit("8");
        reveal_strlit("9");
    }
    let s = if d == 0 {
        "0"
    } else if d == 1 {
        "1"
    } else if d == 2 {
        "2"
    } else if d == 3 {
        "3"
    } else if d == 4 {
        "4"
    } else if d == 5 {
        "5"
    } else if d == 6 {
        "6"
    } else if d == 7 {
        "7"
    } else if d == 8 {
        "8"
    } else {
        "9"
    };
    assert(s@ =~= seq![digit_char(d as int)]);
    s
}

/// Writes `n` in decimal.
pub fn decimal(n: usize) -> (s: String)
    ensures
        s@ == decimal_digits(n as nat),
    decreases n,
{
    if n < 10 {
        digit(n).to_owned()
    } else {
        let mut s = decimal(n / 10);
        s.append(digit(n % 10));
        assert(s@ =~= decimal_digits(n as nat));
        s
    }
}

impl Default for Error {
    /// The diagnostic without a message about the empty range at the start
    /// of a text.
    fn default() -> (error: Error)
        ensures
            error.range.start == 0,
            error.range.end == 0,
            error.message@ == Seq::<char>::empty(),
    {
        Error { range: Span { start: 0, end: 0 }, message: String::new() }
    }
}

impl Error {
    /// A diagnostic with the given range and message.
    pub fn new(range: Span, message: &str) -> (error: Error)
        ensures
            error.range == range,
            error.message@ == message@,
    {
        Error { range, message: message.to_owned() }
    }

    /// What [`Error::to_string`] returns: the message, ` at:` and the
    /// range as `start..end`.
    pub open spec fn rendered(&self) -> Seq<char> {
        self.message@ + " at:"@ + decimal_digits(self.range.start as nat) + ".."@
            + decimal_digits(self.range.end as nat)
    }

    /// The diagnostic as a line of text.
    pub fn to_string(&self) -> (s: String)
        ensures
            s@ == self.rendered(),
    {
        let mut s = self.message.clone();
        s.append(" at:");
        s.append(decimal(self.range.start).as_str());
        s.append("..");
        s.append(decimal(self.range.end).as_str());
        s
    }
}

} // verus!
