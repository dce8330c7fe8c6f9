//! Recognising a room code in a chat message.
use vstd::prelude::*;

use crate::text::{all_digits, chars_of, digits_in, is_code, is_digit, is_digit_char, opt_view,
    string_of, copy_range, trim, trim_chars};

verus! {

/// The code a message carries.
///
/// Strict (`fuzzy == false`): the whole message must be exactly five ASCII
/// digits.  Fuzzy: after trimming white space, the message must start with
/// five ASCII digits that are not followed by a sixth digit.
pub open spec fn message_code(text: Seq<char>, fuzzy: bool) -> Option<Seq<char>> {
    if !fuzzy {
        if is_code(text) {
            Some(text)
        } else {
            None
        }
    } else {
        let t = trim(text);
        if t.len() >= 5 && all_digits(t.subrange(0, 5)) && !(t.len() > 5 && is_digit(t[5])) {
            Some(t.subrange(0, 5))
        } else {
            None
        }
    }
}

/// Extracts the room code from a message, strictly or fuzzily.
pub fn match_message(text: &str, fuzzy: bool) -> (r: Option<String>)
    ensures
        opt_view(r) == message_code(text@, fuzzy),
        r matches Some(c) ==> is_code(c@),
{
    let v = chars_of(text);
    if !fuzzy {
        if v.len() == 5 && digits_in(&v, 0, 5) {
            assert(v@.subrange(0, 5) =~= v@);
            return Some(string_of(&v));
        }
        return None;
    }
    let t = trim_chars(&v);
    if t.len() >= 5 && digits_in(&t, 0, 5) && !(t.len() > 5 && is_digit_char(t[5])) {
        let code = copy_range(&t, 0, 5);
        Some(string_of(&code))
    } else {
        None
    }
}

} // verus!
