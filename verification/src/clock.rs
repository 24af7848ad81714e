//! The local wall-clock time, from the `time` crate.
use vstd::prelude::*;

verus! {

/// `time::OffsetDateTime`, carried through opaquely.
#[verifier::external_type_specification]
#[verifier::external_body]
pub struct ExOffsetDateTime(time::OffsetDateTime);

/// `time::error::IndeterminateOffset`, carried through opaquely.
#[verifier::external_type_specification]
#[verifier::external_body]
pub struct ExIndeterminateOffset(time::error::IndeterminateOffset);

/// Calls `time::OffsetDateTime::now_local`. Nothing is claimed of the result:
/// the instant comes from the clock, and whether the local UTC offset can be
/// found depends on the system.
#[verifier::external_body]
fn now_local() -> (r: Result<time::OffsetDateTime, time::error::IndeterminateOffset>) {
    time::OffsetDateTime::now_local()
}

/// Renders `t` with the `Display` impl of `time::OffsetDateTime` (date, time
/// and UTC offset, separated by spaces). The contract claims only that the
/// text is not empty: that impl always writes the date, a space and the offset.
#[verifier::external_body]
fn render_date_time(t: &time::OffsetDateTime) -> (r: String)
    ensures
        r@.len() > 0,
{
    t.to_string()
}

/// The current local date and time as text, or `None` when the local UTC
/// offset cannot be determined.
pub fn local_date_time() -> (r: Option<String>)
    ensures
        r matches Some(s) ==> s@.len() > 0,
{
    match now_local() {
        Ok(t) => Some(render_date_time(&t)),
        Err(_) => None,
    }
}

} // verus!
