//! Declares the structured-data decoder's value type so that the trusted
//! conversion into this library's own value tree can mention it. The type is
//! opaque here: nothing is assumed of what such a value holds.

use vstd::prelude::*;

verus! {

#[verifier::external_type_specification]
#[verifier::external_body]
pub struct ExJsonValue(serde_json::Value);

} // verus!
