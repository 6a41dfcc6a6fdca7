//! The JSON value type of `serde_json`, carried through the catalog unread.

use vstd::prelude::*;

verus! {

/// `serde_json::Value`, opaque to the proofs: the library only moves it.
#[verifier::external_type_specification]
#[verifier::external_body]
pub struct ExJsonValue(serde_json::Value);

} // verus!
