//! The one failure a render can report: a well-formed placeholder whose key
//! has no entry in the store.  The error carries the key and the 1-based
//! line and column of the placeholder's opening `{`.

use vstd::arithmetic::div_mod::lemma_div_decreases;
use vstd::prelude::*;
use vstd::string::*;

verus! {

/// The mathematical image of an [`Error`].
pub ghost struct ErrorModel {
    pub key: Seq<char>,
    pub line: int,
    pub col: int,
}

/// Unknown key in input string.
#[derive(Debug, Clone, PartialEq, Eq)]
pub struct Error {
    pub key: String,
    pub line: usize,
    pub col: usize,
}

impl View for Error {
    type V = ErrorModel;

    open spec fn view(&self) -> ErrorModel {
        ErrorModel { key: self.key@, line: self.line as int, col: self.col as int }
    }
}

/// The decimal digit character for `d`.
pub open spec fn spec_digit(d: int) -> char {
    if d == 0 {
        '0'
    } else if d == 1 {
        '1'
    } else if d == 2 {
        '2'
    } else if d == 3 {
        '3'
    } else if d == 4 {
        '4'
    } else if d == 5 {
        '5'
    } else if d == 6 {
        '6'
    } else if d == 7 {
        '7'
    } else if d == 8 {
        '8'
    } else {
        '9'
    }
}

/// The decimal digits of `n`, most significant first.
pub open spec fn spec_decimal(n: int) -> Seq<char>
    decreases n,
{
    if n < 10 {
        seq![spec_digit(n)]
    } else {
        spec_decimal(n / 10).push(spec_digit(n % 10))
    }
}

/// The text of an error: `<line>:<column> unknown variable '<key>'`.
pub open spec fn spec_message(e: ErrorModel) -> Seq<char> {
    spec_decimal(e.line) + ":"@ + spec_decimal(e.col) + " unknown variable '"@ + e.key + "'"@
}

/// Appends the decimal digits of `n` to `out`.
fn push_decimal(out: &mut String, n: usize)
    ensures
        final(out)@ == old(out)@ + spec_decimal(n as int),
    decreases n,
{
    if n >= 10 {
        proof {
            lemma_div_decreases(n as int, 10);
        }
        push_decimal(out, n / 10);
    }
    let d = n % 10;
    let digits = "0123456789";
    proof {
        reveal_strlit("0123456789");
    }
    let ds = digits.substring_char(d, d + 1);
    out.append(ds);
    proof {
        assert(ds@ =~= seq![spec_digit(d as int)]);
        if n >= 10 {
            assert(old(out)@ + spec_decimal((n / 10) as int) + ds@ =~= old(out)@ + spec_decimal(
                n as int,
            ));
        } else {
            assert(old(out)@ + ds@ =~= old(out)@ + spec_decimal(n as int));
        }
    }
}

impl Error {
    /// The error as text, in the shape `<line>:<column> unknown variable '<key>'`.
    pub fn message(&self) -> (r: String)
        ensures
            r@ == spec_message(self@),
    {
        let mut out = String::new();
        push_decimal(&mut out, self.line);
        out.append(":");
        push_decimal(&mut out, self.col);
        out.append(" unknown variable '");
        out.append(self.key.as_str());
        out.append("'");
        proof {
            assert(out@ =~= spec_message(self@));
        }
        out
    }
}

} // verus!
