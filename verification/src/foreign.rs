//! Types of std and of outside crates that the library carries but never
//! looks inside.
use vstd::prelude::*;

verus! {

/// `std::io::Error`, carried inside error values.
#[verifier::external_type_specification]
#[verifier::external_body]
pub struct ExIoError(std::io::Error);

/// `std::path::PathBuf`, the output directory of a generation run.
#[verifier::external_type_specification]
#[verifier::external_body]
pub struct ExPathBuf(std::path::PathBuf);

/// `serde_json::Value`, the snapshots and events the MCP tools hand on.
#[verifier::external_type_specification]
#[verifier::external_body]
pub struct ExJsonValue(serde_json::Value);

/// `uuid::Uuid`, the adapter's own player id.
#[verifier::external_type_specification]
#[verifier::external_body]
pub struct ExUuid(uuid::Uuid);

} // verus!
