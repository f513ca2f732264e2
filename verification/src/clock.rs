//! The current wall-clock time, rendered for commit records.

use vstd::prelude::*;

verus! {

/// Relies on chrono::Local::now and DateTime::format: the current local
/// time rendered as "YYYY-MM-DD HH:MM:SS". The value depends on the clock
/// and the machine's time zone, so nothing is promised of it.
#[verifier::external_body]
pub fn current_timestamp() -> String {
    chrono::Local::now().format("%Y-%m-%d %H:%M:%S").to_string()
}

} // verus!
