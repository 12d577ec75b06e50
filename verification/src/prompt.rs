//! Answers typed at a prompt, one line each.
use crate::text::{chars_of, parse_unsigned, unsigned_of};
use vstd::prelude::*;

verus! {

/// A line as it was typed: without the line feed that ends it, if one does.
pub open spec fn without_line_end(line: Seq<char>) -> Seq<char> {
    if line.len() > 0 && line.last() == '\n' {
        line.drop_last()
    } else {
        line
    }
}

/// What an answer to a yes-or-no question says: `y` is yes and `n` is no, in
/// either case of the letter. Anything else is no answer.
pub open spec fn yes_or_no(answer: Seq<char>) -> Option<bool> {
    if answer.len() == 1 && (answer[0] == 'y' || answer[0] == 'Y') {
        Some(true)
    } else if answer.len() == 1 && (answer[0] == 'n' || answer[0] == 'N') {
        Some(false)
    } else {
        None
    }
}

/// The count that an answer writes, if it is an unsigned numeral that a
/// `usize` holds.
pub open spec fn count(answer: Seq<char>) -> Option<usize> {
    match unsigned_of(answer, usize::MAX as nat) {
        Some(n) => Some(n as usize),
        None => None,
    }
}

/// The line without the line feed that ends it.
pub fn strip_line_end(line: &str) -> (r: &str)
    ensures
        r@ == without_line_end(line@),
{
    let n = line.unicode_len();
    if n > 0 && line.get_char(n - 1) == '\n' {
        proof {
            assert(line@.subrange(0, n - 1) =~= line@.drop_last());
        }
        line.substring_char(0, n - 1)
    } else {
        line
    }
}

/// Reads the answer to a yes-or-no question from the line that was typed.
pub fn read_yes_or_no(line: &str) -> (r: Option<bool>)
    ensures
        r == yes_or_no(without_line_end(line@)),
{
    let answer = strip_line_end(line);
    if answer.unicode_len() != 1 {
        return None;
    }
    let c = answer.get_char(0);
    if c == 'y' || c == 'Y' {
        Some(true)
    } else if c == 'n' || c == 'N' {
        Some(false)
    } else {
        None
    }
}

/// Reads a count from the line that was typed.
pub fn read_count(line: &str) -> (r: Option<usize>)
    ensures
        r == count(without_line_end(line@)),
{
    let answer = chars_of(strip_line_end(line));
    match parse_unsigned(answer.as_slice(), usize::MAX as u64) {
        Some(n) => Some(n as usize),
        None => None,
    }
}

} // verus!
