//! The identity of the operator, as the identity source reports it.

use crate::text::{trim, trimmed};
use vstd::prelude::*;

verus! {

/// The identity source reported no name.
#[derive(Clone, Copy, Debug, PartialEq, Eq)]
pub struct EmptyIdentity;

/// The name in a reply of the identity source: the reply without the
/// whitespace at its ends. A reply of nothing but whitespace holds none.
pub open spec fn identity_of(reply: Seq<char>) -> Option<Seq<char>> {
    if trimmed(reply).len() == 0 {
        None
    } else {
        Some(trimmed(reply))
    }
}

/// Takes the operator's name from the reply of the identity source.
pub fn operator_identity(reply: &str) -> (name: Result<String, EmptyIdentity>)
    ensures
        match name {
            Ok(text) => identity_of(reply@) == Some(text@),
            Err(_) => identity_of(reply@) is None,
        },
{
    let text = trim(reply);
    if text.as_str().is_empty() {
        Err(EmptyIdentity)
    } else {
        Ok(text)
    }
}

} // verus!
