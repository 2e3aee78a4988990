//! Line handling of the JSON Lines file store: which lines hold entries
//! and how a line that does not parse is reported. Reading, locking and
//! writing the file is the application's.

use vstd::prelude::*;

use crate::error::LibroError;
use crate::text::{chars_of, decimal, push_decimal, push_str, string_of};

verus! {

/// Whether `c` is Unicode white space (as `char::is_whitespace` tests it).
pub open spec fn is_space(c: char) -> bool {
    ||| c == '\t' || c == '\n' || c == '\u{0B}' || c == '\u{0C}' || c == '\r' || c == ' '
    ||| c == '\u{85}' || c == '\u{A0}' || c == '\u{1680}'
    ||| ('\u{2000}' <= c && c <= '\u{200A}')
    ||| c == '\u{2028}' || c == '\u{2029}' || c == '\u{202F}' || c == '\u{205F}' || c == '\u{3000}'
}

fn space(c: char) -> (b: bool)
    ensures
        b == is_space(c),
{
    c == '\t' || c == '\n' || c == '\u{0B}' || c == '\u{0C}' || c == '\r' || c == ' ' || c
        == '\u{85}' || c == '\u{A0}' || c == '\u{1680}' || ('\u{2000}' <= c && c <= '\u{200A}')
        || c == '\u{2028}' || c == '\u{2029}' || c == '\u{202F}' || c == '\u{205F}' || c
        == '\u{3000}'
}

/// Whether a line holds nothing but white space (and is skipped).
pub fn is_blank(line: &str) -> (b: bool)
    ensures
        b == forall|i: int| 0 <= i < line@.len() ==> is_space(#[trigger] line@[i]),
{
    let v = chars_of(line);
    let n = v.len();
    for i in 0..n
        invariant
            n == v@.len(),
            v@ == line@,
            forall|j: int| 0 <= j < i ==> is_space(#[trigger] line@[j]),
    {
        if !space(v[i]) {
            return false;
        }
    }
    true
}

/// The store error for a line (numbered from 1) that does not parse.
pub fn line_error(line_number: u64, message: &str) -> (e: LibroError)
    ensures
        e matches LibroError::Store(m) && m@ == "line "@ + decimal(line_number as nat) + ": "@
            + message@,
{
    let mut m = string_of("line ");
    push_decimal(&mut m, line_number);
    push_str(&mut m, ": ");
    push_str(&mut m, message);
    LibroError::Store(m)
}

} // verus!
