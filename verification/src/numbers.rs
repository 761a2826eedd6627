//! JSON numbers, carried as text: a number token keeps its numeral exactly
//! as scanned, and the printer renders it back verbatim, so no precision is
//! ever lost between reading and printing. The scan is permissive (digits,
//! `.` and `-`, with at most one `.`); whether the numeral then denotes a
//! number is decided by [`valid_number_text`]: the grammar that std
//! documents for reading a 64-bit float from a string, cut down to the
//! characters the scan admits — an optional leading `-`, then digits with
//! at most one `.` and at least one digit. No exponent, no infinity and no
//! NaN arise, since the scan never passes a letter through.

use vstd::prelude::*;

use crate::text::is_digit;
use crate::text::is_number_char;

verus! {

/// The numerals the numeric conversion accepts: nonempty, made of digits,
/// `.` and `-` only, with `-` at the front alone, at most one `.`, and at
/// least one digit.
pub open spec fn valid_number_text(s: Seq<char>) -> bool {
    &&& s.len() > 0
    &&& forall|k: int| 0 <= k < s.len() ==> is_number_char(#[trigger] s[k])
    &&& forall|k: int| 0 < k < s.len() ==> #[trigger] s[k] != '-'
    &&& forall|a: int, b: int|
        0 <= a < s.len() && 0 <= b < s.len() && s[a] == '.' && s[b] == '.' ==> a == b
    &&& exists|k: int| 0 <= k < s.len() && is_digit(#[trigger] s[k])
}

/// Decides [`valid_number_text`] for a scanned numeral.
pub fn number_text_ok(text: &[char]) -> (r: bool)
    ensures
        r == valid_number_text(text@),
{
    if text.len() == 0 {
        return false;
    }
    let mut saw_digit = false;
    let mut saw_dot = false;
    let mut k: usize = 0;
    while k < text.len()
        invariant
            0 <= k <= text@.len(),
            forall|j: int| 0 <= j < k ==> is_number_char(#[trigger] text@[j]),
            forall|j: int| 0 < j < k ==> #[trigger] text@[j] != '-',
            saw_digit == exists|j: int| 0 <= j < k && is_digit(#[trigger] text@[j]),
            saw_dot == exists|j: int| 0 <= j < k && #[trigger] text@[j] == '.',
            saw_dot ==> forall|a: int, b: int|
                0 <= a < k && 0 <= b < k && text@[a] == '.' && text@[b] == '.' ==> a == b,
        decreases text@.len() - k,
    {
        let c = text[k];
        let code = c as u32;
        if code >= '0' as u32 && code <= '9' as u32 {
            saw_digit = true;
        } else if c == '.' {
            if saw_dot {
                return false;
            }
            saw_dot = true;
        } else if c == '-' {
            if k > 0 {
                return false;
            }
        } else {
            return false;
        }
        k += 1;
    }
    saw_digit
}

} // verus!
