//! The one place where the library reads the time.

use vstd::prelude::*;

verus! {

/// Asks `chrono` for the time that lies `days` days after now, in
/// milliseconds since the Unix epoch: `Utc::now`, moved by
/// `TimeDelta::try_days` through `DateTime::checked_add_signed`, read by
/// `DateTime::timestamp_millis`.
///
/// The result depends on the clock, so nothing is claimed of it. It is `None`
/// where `chrono` cannot represent the span or the moment. `Utc::now` itself
/// gives up on a machine whose clock stands before the epoch.
#[verifier::external_body]
pub(crate) fn millis_days_from_now(days: i64) -> (at: Option<i64>) {
    let span = chrono::TimeDelta::try_days(days)?;
    let then = chrono::Utc::now().checked_add_signed(span)?;
    Some(then.timestamp_millis())
}

/// The moment at which a claim made now stops being valid, where that moment
/// can be told, and the end of time where it cannot.
pub open spec fn expiry_or_never(at: Option<i64>) -> i64 {
    match at {
        Some(moment) => moment,
        None => i64::MAX,
    }
}

/// Turns what the clock gave into the expiry of a claim.
pub fn expiry_from(at: Option<i64>) -> (expiry_at: i64)
    ensures
        expiry_at == expiry_or_never(at),
{
    match at {
        Some(moment) => moment,
        None => i64::MAX,
    }
}

} // verus!
