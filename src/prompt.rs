use vstd::prelude::*;

use crate::decimal::{decimal_string, decimal_text, parse_number, parsed_i32};
use crate::incrementer::increment;

verus! {

/// A character of Unicode's `White_Space` property.
pub open spec fn is_white_space(c: char) -> bool {
    ||| '\t' <= c && c <= '\r'
    ||| c == ' '
    ||| c == '\u{85}'
    ||| c == '\u{a0}'
    ||| c == '\u{1680}'
    ||| '\u{2000}' <= c && c <= '\u{200a}'
    ||| c == '\u{2028}'
    ||| c == '\u{2029}'
    ||| c == '\u{202f}'
    ||| c == '\u{205f}'
    ||| c == '\u{3000}'
}

/// `s` without the white space at its start.
pub open spec fn trim_start_of(s: Seq<char>) -> Seq<char>
    decreases s.len(),
{
    if s.len() > 0 && is_white_space(s[0]) {
        trim_start_of(s.drop_first())
    } else {
        s
    }
}

/// `s` without the white space at its end.
pub open spec fn trim_end_of(s: Seq<char>) -> Seq<char>
    decreases s.len(),
{
    if s.len() > 0 && is_white_space(s.last()) {
        trim_end_of(s.drop_last())
    } else {
        s
    }
}

/// `s` without the white space at either end.
pub open spec fn trimmed(s: Seq<char>) -> Seq<char> {
    trim_end_of(trim_start_of(s))
}

/// Relies on `str::trim`: the text with leading and trailing `White_Space`
/// characters removed.
#[verifier::external_body]
fn trim_text(text: &str) -> (r: &str)
    ensures
        r@ == trimmed(text@),
{
    text.trim()
}

/// The line printed in answer to a line of input: the number and its successor,
/// or a fixed message when no number was read.
pub open spec fn report_text(parsed: Option<i32>) -> Seq<char> {
    match parsed {
        Some(v) => decimal_text(v as int) + " + 1 = "@ + decimal_text(v + 1),
        None => "Failed to read a number"@,
    }
}

/// The number that a line of input holds: the line, white space around it
/// removed, read as a decimal `i32`.
pub fn read_number(line: &str) -> (r: Option<i32>)
    ensures
        r == parsed_i32(trimmed(line@)),
{
    parse_number(trim_text(line))
}

/// The answer to what was read: `"<v> + 1 = <v + 1>"` for a number `v`, else
/// the failure message.
pub fn report(parsed: Option<i32>) -> (r: String)
    requires
        parsed != Some(i32::MAX),
    ensures
        r@ == report_text(parsed),
{
    match parsed {
        Some(v) => {
            let next = increment(v);
            let text = decimal_string(v).concat(" + 1 = ");
            text.concat(decimal_string(next).as_str())
        },
        None => String::from_str("Failed to read a number"),
    }
}

} // verus!
