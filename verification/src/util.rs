//! Yes/no answers to interactive questions.
use vstd::prelude::*;
use crate::text::{chars_of, lowercase, str_is, to_lower, trim, trim_string};

verus! {

/// An answer that means yes: `y`, `yes`, `s`, `si`.
pub open spec fn is_yes(t: Seq<char>) -> bool {
    t == "y"@ || t == "yes"@ || t == "s"@ || t == "si"@
}

fn yes_word(t: &str) -> (r: bool)
    ensures
        r == is_yes(t@),
{
    let cs = chars_of(t);
    str_is(&cs, "y") || str_is(&cs, "yes") || str_is(&cs, "s") || str_is(&cs, "si")
}

/// The answer to a question from the line read (`None` at end of input or
/// on a read error): yes words accept, an empty answer takes the default,
/// anything else refuses; no input refuses whatever the default.
pub open spec fn ask_answer(line: Option<Seq<char>>, default: bool) -> bool {
    match line {
        None => false,
        Some(l) => {
            let t = trim(lowercase(l));
            if is_yes(t) {
                true
            } else if t.len() == 0 {
                default
            } else {
                false
            }
        },
    }
}

pub fn ask_from_reader(line: Option<&str>, default: bool) -> (r: bool)
    ensures
        r == ask_answer(
            match line {
                Some(l) => Some(l@),
                None => None,
            },
            default,
        ),
{
    match line {
        None => false,
        Some(l) => {
            let low = to_lower(l);
            let t = trim_string(low.as_str());
            if yes_word(t.as_str()) {
                true
            } else if t.as_str().is_empty() {
                default
            } else {
                false
            }
        },
    }
}

/// A confirmation from the line read: an empty answer or a yes word
/// confirms; no input refuses.
pub open spec fn confirm_answer(line: Option<Seq<char>>) -> bool {
    match line {
        None => false,
        Some(l) => {
            let t = lowercase(trim(l));
            t.len() == 0 || is_yes(t)
        },
    }
}

pub fn confirm_from_reader(line: Option<&str>) -> (r: Result<bool, String>)
    ensures
        r == Ok::<bool, String>(
            confirm_answer(
                match line {
                    Some(l) => Some(l@),
                    None => None,
                },
            ),
        ),
{
    match line {
        None => Ok(false),
        Some(l) => {
            let t0 = trim_string(l);
            let t = to_lower(t0.as_str());
            Ok(t.as_str().is_empty() || yes_word(t.as_str()))
        },
    }
}

/// The answer to a yes/no question: the default under `--noconfirm`
/// (nothing is read), else what the line read says.
pub fn ask(no_confirm: bool, default: bool, line: Option<&str>) -> (r: bool)
    ensures
        no_confirm ==> r == default,
        !no_confirm ==> r == ask_answer(
            match line {
                Some(l) => Some(l@),
                None => None,
            },
            default,
        ),
{
    if no_confirm {
        default
    } else {
        ask_from_reader(line, default)
    }
}

/// A confirmation: granted under `--noconfirm` (nothing is read), else
/// what the line read says.
pub fn confirm(no_confirm: bool, line: Option<&str>) -> (r: Result<bool, String>)
    ensures
        no_confirm ==> r == Ok::<bool, String>(true),
        !no_confirm ==> r == Ok::<bool, String>(
            confirm_answer(
                match line {
                    Some(l) => Some(l@),
                    None => None,
                },
            ),
        ),
{
    if no_confirm {
        Ok(true)
    } else {
        confirm_from_reader(line)
    }
}

} // verus!
