//! Prompting for fields that a command was left without.
//!
//! An omitted field is filled interactively when the terminal supports it; a
//! script without one gets a clear error instead of a hang.

use vstd::prelude::*;

use crate::text::{index_of, lemma_index_of_is, same, texts};

verus! {

/// What is to be done about a field.
#[derive(Debug, PartialEq, Eq)]
pub enum Field<T> {
    /// It is settled.
    Settled(T),
    /// It is to be asked for.
    Ask,
}

/// What is said of a required field that was left empty.
pub open spec fn must_not_be_empty(message: Seq<char>) -> Seq<char> {
    message + " must not be empty"@
}

/// What is said of a required field that nobody can be asked for.
pub open spec fn is_required(message: Seq<char>) -> Seq<char> {
    message + " is required (not an interactive terminal)"@
}

/// A required text: an empty one is as good as none.
pub fn required(value: String, message: &str) -> (r: Result<String, String>)
    ensures
        if value@.len() == 0 {
            r matches Err(error) && error@ == must_not_be_empty(message@)
        } else {
            r == Ok::<String, String>(value)
        },
{
    if value.as_str().is_empty() {
        let mut error = message.to_owned();
        error.append(" must not be empty");
        Err(error)
    } else {
        Ok(value)
    }
}

/// A required text field: what was given, or what is to be asked for; an error
/// naming it where nobody can be asked, so a script never hangs on a missing
/// argument.
pub fn text_or(existing: Option<String>, message: &str, available: bool) -> (r: Result<
    Field<String>,
    String,
>)
    ensures
        match existing {
            Some(value) => if value@.len() == 0 {
                r matches Err(error) && error@ == must_not_be_empty(message@)
            } else {
                r == Ok::<Field<String>, String>(Field::Settled(value))
            },
            None => if available {
                r == Ok::<Field<String>, String>(Field::Ask)
            } else {
                r matches Err(error) && error@ == is_required(message@)
            },
        },
{
    match existing {
        Some(value) => match required(value, message) {
            Ok(value) => Ok(Field::Settled(value)),
            Err(error) => Err(error),
        },
        None => if available {
            Ok(Field::Ask)
        } else {
            let mut error = message.to_owned();
            error.append(" is required (not an interactive terminal)");
            Err(error)
        },
    }
}

/// An optional text field: what was given, or what is to be asked for; none
/// where nobody can be asked.
pub fn optional_text_or(existing: Option<String>, available: bool) -> (r: Field<Option<String>>)
    ensures
        r == (if existing is None && available {
            Field::Ask
        } else {
            Field::Settled(existing)
        }),
{
    if existing.is_none() && available {
        Field::Ask
    } else {
        Field::Settled(existing)
    }
}

/// What a reply to an optional prompt comes to: an empty one is none.
pub fn optional_reply(value: String) -> (r: Option<String>)
    ensures
        r == (if value@.len() == 0 {
            None
        } else {
            Some(value)
        }),
{
    if value.as_str().is_empty() {
        None
    } else {
        Some(value)
    }
}

/// A choice among options: the default where nobody can be asked, or where the
/// reply is none of them.
pub fn select_or(reply: Option<&str>, options: &[String], default: usize) -> (r: usize)
    ensures
        match reply {
            None => r == default,
            Some(choice) => {
                let at = index_of(texts(options@), choice@);
                r == if at < options@.len() {
                    at
                } else {
                    default as int
                }
            },
        },
{
    let choice = match reply {
        None => {
            return default;
        },
        Some(choice) => choice,
    };
    let ghost all = texts(options@);
    let mut i: usize = 0;
    while i < options.len()
        invariant
            i <= options@.len(),
            all == texts(options@),
            reply == Some(choice),
            forall|j: int| 0 <= j < i ==> #[trigger] all[j] != choice@,
        decreases options@.len() - i,
    {
        proof {
            assert(all[i as int] == options@[i as int]@);
        }
        if same(options[i].as_str(), choice) {
            proof {
                lemma_index_of_is(all, choice@, i as int);
            }
            return i;
        }
        i += 1;
    }
    proof {
        lemma_index_of_is(all, choice@, i as int);
    }
    default
}

} // verus!
