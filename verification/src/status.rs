//! The live state the daemon publishes once a second, for the GUI (or anything else) to read
//! without hardware access, is only worth showing while it is recent.

use vstd::prelude::*;

verus! {

/// Where the daemon publishes its status on Linux (a runtime directory, gone at reboot).
pub const LINUX_STATUS_PATH: &'static str = "/run/gpu-fanctl/status.json";

/// A status older than this, in milliseconds, means the daemon isn't running (or hung).
pub const FRESH_FOR_MS: u64 = 4_000;

/// Whether a status written at `updated_ms` is still fresh at `now_ms` (both in milliseconds
/// since the Unix epoch): at most four seconds old. One stamped after `now_ms` counts as fresh.
pub fn is_fresh_at(updated_ms: u64, now_ms: u64) -> (b: bool)
    ensures
        b == (now_ms <= updated_ms || now_ms - updated_ms <= FRESH_FOR_MS),
{
    now_ms.saturating_sub(updated_ms) <= FRESH_FOR_MS
}

} // verus!
