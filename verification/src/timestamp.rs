//! The persisted checkpoint format: a single RFC3339 timestamp string,
//! round-trippable and human-diffable for operational recovery. Inside
//! the library a moment in time is a plain count of milliseconds since
//! the Unix epoch.
use vstd::prelude::*;

verus! {

/// Milliseconds since the Unix epoch at the start of year 10000: the
/// first moment the checkpoint's textual format cannot carry.
pub const CHECKPOINT_MILLIS_LIMIT: u64 = 253_402_300_800_000;

/// What parsing a checkpoint string yields: parsing is a function of
/// the characters alone.
pub uninterp spec fn rfc3339_millis(s: Seq<char>) -> Option<u64>;

/// Relies on humantime::parse_rfc3339: parse an RFC3339 timestamp (UTC
/// only) into milliseconds since the Unix epoch. `None` when the string
/// is not a valid timestamp; a parsed timestamp is never before the
/// epoch, so the subtraction from the epoch cannot fail.
#[verifier::external_body]
pub fn parse_checkpoint(s: &str) -> (r: Option<u64>)
    ensures
        r == rfc3339_millis(s@),
{
    let t = match humantime::parse_rfc3339(s.trim()) {
        Ok(t) => t,
        Err(_) => return None,
    };
    let d = match t.duration_since(std::time::UNIX_EPOCH) {
        Ok(d) => d,
        Err(_) => return None,
    };
    u64::try_from(d.as_millis()).ok()
}

/// Relies on humantime::format_rfc3339_millis: format milliseconds
/// since the Unix epoch as an RFC3339 timestamp with millisecond
/// precision, always UTC, which parse_rfc3339 reads back exactly. The
/// formatter refuses years past 9999, so the moment must lie below the
/// format's limit.
#[verifier::external_body]
pub fn format_checkpoint(t: u64) -> (r: String)
    requires
        t < CHECKPOINT_MILLIS_LIMIT,
    ensures
        rfc3339_millis(r@) == Some(t),
{
    humantime::format_rfc3339_millis(
        std::time::UNIX_EPOCH + std::time::Duration::from_millis(t),
    ).to_string()
}

/// A checkpoint string written by the library is read back as the very
/// moment it was written from: the persisted format round-trips.
pub fn checkpoint_round_trip(t: u64) -> (r: Option<u64>)
    requires
        t < CHECKPOINT_MILLIS_LIMIT,
    ensures
        r == Some(t),
{
    let s = format_checkpoint(t);
    parse_checkpoint(s.as_str())
}

} // verus!
