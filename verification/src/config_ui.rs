//! Cleaning what the user types at the configuration prompts.
use vstd::prelude::*;
use crate::text::{any_control, has_control};

verus! {

/// Empties `value` when it holds a control character (such as the escape
/// sequence of an arrow key); leaves it alone otherwise.
pub fn clear_if_corrupt(value: &mut String)
    ensures
        has_control(old(value)@) ==> final(value)@ == Seq::<char>::empty(),
        !has_control(old(value)@) ==> final(value)@ == old(value)@,
{
    if any_control(value.as_str()) {
        *value = String::new();
    }
}

/// The value typed at a prompt: none when nothing was typed or when it holds a
/// control character, else the text as typed.
pub fn normalize_input(raw: &str) -> (r: Option<String>)
    ensures
        raw@.len() == 0 || has_control(raw@) ==> r is None,
        raw@.len() > 0 && !has_control(raw@) ==> (r matches Some(s) && s@ == raw@),
{
    if raw.is_empty() {
        return None;
    }
    let mut cleaned = String::from_str(raw);
    clear_if_corrupt(&mut cleaned);
    let empty = cleaned.as_str().is_empty();
    if empty {
        None
    } else {
        Some(cleaned)
    }
}

/// The answer to a yes/no prompt: `Ok(None)` keeps the current value (nothing
/// typed), `y`/`Y` is yes, `n`/`N` is no; anything else is refused.
pub open spec fn yes_no_answer(raw: Seq<char>) -> Result<Option<bool>, ()> {
    if raw.len() == 0 {
        Ok(None)
    } else if raw == "y"@ || raw == "Y"@ {
        Ok(Some(true))
    } else if raw == "n"@ || raw == "N"@ {
        Ok(Some(false))
    } else {
        Err(())
    }
}

/// Reads the answer to the `Include root` prompt (and the other yes/no prompts).
pub fn normalize_include_root_input(raw: &str) -> (r: Result<Option<bool>, ()>)
    ensures
        r == yes_no_answer(raw@),
{
    if raw.is_empty() {
        return Ok(None);
    }
    if crate::text::str_eq(raw, "y") || crate::text::str_eq(raw, "Y") {
        Ok(Some(true))
    } else if crate::text::str_eq(raw, "n") || crate::text::str_eq(raw, "N") {
        Ok(Some(false))
    } else {
        Err(())
    }
}

} // verus!
