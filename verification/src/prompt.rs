//! Reading what the player typed at a prompt.
//!
//! An answer counts without the white space around it and without regard to
//! the case of its ASCII letters. Whatever is not understood counts as "no".

use crate::text::{
    ascii_lowercase, chars_of, same_chars, string_of, to_ascii_lowercase, trim, trimmed,
};
use vstd::prelude::*;

verus! {

/// What of an answer counts: the text without the white space around it, in
/// lower case.
pub open spec fn answer_core(input: Seq<char>) -> Seq<char> {
    ascii_lowercase(trim(input))
}

/// Whether the answer says yes in so many words.
pub open spec fn says_yes(input: Seq<char>) -> bool {
    answer_core(input) == "y"@ || answer_core(input) == "ye"@ || answer_core(input) == "yes"@
}

/// Whether the answer is empty.
pub open spec fn says_nothing(input: Seq<char>) -> bool {
    answer_core(input) == ""@
}

/// Tests whether the answer says yes in so many words.
fn is_yes(core: &Vec<char>) -> (r: bool)
    ensures
        r == (core@ == "y"@ || core@ == "ye"@ || core@ == "yes"@),
{
    same_chars(core, &chars_of("y")) || same_chars(core, &chars_of("ye")) || same_chars(
        core,
        &chars_of("yes"),
    )
}

/// Reads the answer to a question that is meant to be agreed to: yes where
/// the answer is empty or says yes, no for anything else.
pub fn ask_yes_no(input: &str) -> (yes: bool)
    ensures
        yes == (says_nothing(input@) || says_yes(input@)),
{
    let core = to_ascii_lowercase(&trimmed(&chars_of(input)));
    same_chars(&core, &chars_of("")) || is_yes(&core)
}

/// Reads the answer to a question that is meant to be declined: yes only
/// where the answer says yes, no for anything else.
pub fn ask_no_yes(input: &str) -> (yes: bool)
    ensures
        yes == says_yes(input@),
{
    let core = to_ascii_lowercase(&trimmed(&chars_of(input)));
    is_yes(&core)
}

/// What a line typed at a prompt comes to: the default where there is one
/// and nothing was typed, else what was typed without the white space around it.
pub open spec fn typed_or_default(input: Seq<char>, default: Option<Seq<char>>) -> Seq<char> {
    match default {
        Some(value) => if trim(input).len() == 0 {
            value
        } else {
            trim(input)
        },
        None => trim(input),
    }
}

/// Reads a line typed at a prompt that may offer a default.
pub fn ask_input(input: &str, default: Option<&str>) -> (r: String)
    ensures
        r@ == typed_or_default(
            input@,
            match default {
                Some(value) => Some(value@),
                None => None,
            },
        ),
{
    let typed = trimmed(&chars_of(input));
    match default {
        Some(value) => {
            if typed.len() == 0 {
                string_of(&chars_of(value))
            } else {
                string_of(&typed)
            }
        },
        None => string_of(&typed),
    }
}

} // verus!
