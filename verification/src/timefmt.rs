use vstd::prelude::*;

verus! {

/// Largest timestamp the core accepts: the last millisecond of year 9999.
pub const MAX_TIMESTAMP_MS: u64 = 253402300799999;

/// The ISO-8601 rendering of a millisecond timestamp.  The rendering is a
/// fixed function of the value alone (UTC, millisecond precision); its exact
/// characters are left to the calendar library that computes it.
pub uninterp spec fn iso_of(ms: u64) -> Seq<char>;

/// Relies on chrono's `DateTime::<Utc>::from_timestamp_millis` and
/// `to_rfc3339_opts(SecondsFormat::Millis, true)`: for a millisecond count
/// within range the conversion succeeds, and the rendering depends on the
/// millisecond value alone.
#[verifier::external_body]
pub(crate) fn iso_timestamp(ms: u64) -> (r: String)
    requires
        ms <= MAX_TIMESTAMP_MS,
    ensures
        r@ == iso_of(ms),
{
    let dt = chrono::DateTime::<chrono::Utc>::from_timestamp_millis(ms as i64)
        .expect("timestamp within supported range");
    dt.to_rfc3339_opts(chrono::SecondsFormat::Millis, true)
}

} // verus!
