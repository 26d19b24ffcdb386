//! The clock and identifiers from chance.

use vstd::prelude::*;

verus! {

/// Calls `chrono::Local::now` and `timestamp`: the seconds since 1970. Nothing
/// is claimed of the result.
#[verifier::external_body]
pub(crate) fn now_timestamp() -> (r: i64) {
    chrono::Local::now().timestamp()
}

/// Calls `chrono::Local::now` and `timestamp_millis`: the milliseconds since
/// 1970. Nothing is claimed of the result.
#[verifier::external_body]
pub(crate) fn now_millis() -> (r: i64) {
    chrono::Local::now().timestamp_millis()
}

/// Calls `uuid::Uuid::new_v4` and writes it with hyphens. Nothing is claimed of
/// the result.
#[verifier::external_body]
pub(crate) fn new_uuid() -> (r: String) {
    uuid::Uuid::new_v4().to_string()
}

} // verus!
