//! Declaration of the opaque JSON value type carried by payload fields.

use vstd::prelude::*;

verus! {

/// The `embeds`, `components` and `allowed_mentions` fields of a payload
/// hold arbitrary JSON values.  The engine never looks inside them: it
/// moves them whole from inbound payloads into the merged outbound
/// payload.  Declaring `serde_json::Value` lets signatures, fields and
/// views speak of such values while keeping them opaque.
#[verifier::external_type_specification]
#[verifier::external_body]
pub struct ExValue(serde_json::Value);

} // verus!
