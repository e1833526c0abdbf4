//! Configuration read from the environment.

use vstd::prelude::*;

verus! {

/// An environment setting as the framework reads it: an empty value counts as
/// unset, so `FOO=` in a `.env` file does not blank out an in-code default.
pub fn setting(value: Option<String>) -> (r: Option<String>)
    ensures
        match value {
            Some(v) => if v@.len() > 0 {
                r matches Some(s) && s@ == v@
            } else {
                r is None
            },
            None => r is None,
        },
{
    match value {
        Some(v) => {
            if v.as_str().is_empty() {
                None
            } else {
                Some(v)
            }
        },
        None => None,
    }
}

} // verus!
