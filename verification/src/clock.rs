//! The trusted boundary to the wall clock: the timestamps stamped onto
//! extracted records and archive filenames. Nothing is promised of the
//! time itself; verified code treats each timestamp as an opaque text.

use vstd::prelude::*;

verus! {

/// Relies on chrono's Utc::now and its formatter: the current UTC time at
/// second precision, as stamped onto an extracted record.
#[verifier::external_body]
pub fn now_utc_timestamp() -> (r: String) {
    chrono::Utc::now().naive_utc().format("%Y-%m-%dT%H:%M:%SZ").to_string()
}

/// Relies on chrono's Utc::now and its formatter: the current UTC time
/// with hyphenated time separators, as suffixed onto archive filenames.
#[verifier::external_body]
pub fn now_archive_timestamp() -> (r: String) {
    chrono::Utc::now().naive_utc().format("%Y-%m-%dT%H-%M-%SZ").to_string()
}

} // verus!
