//! Points in time and the durations between them.
use vstd::prelude::*;

verus! {

/// A point in time: seconds since the Unix epoch and the sub-second nanoseconds.
#[derive(Clone, Copy, Debug, PartialEq, Eq, Structural)]
pub struct Instant {
    pub secs: i64,
    pub nanos: u32,
}

/// The instant an RFC 3339 timestamp denotes, as (seconds, sub-second
/// nanoseconds), or none when the text is not a valid RFC 3339 timestamp.
pub uninterp spec fn rfc3339_instant(s: Seq<char>) -> Option<(i64, u32)>;

/// `chrono::DateTime::parse_from_rfc3339`, read back as seconds and
/// sub-second nanoseconds (`timestamp`, `timestamp_subsec_nanos`).
/// The contract only names the result; the parsing is chrono's.
#[verifier::external_body]
pub(crate) fn parse_rfc3339(s: &str) -> (r: Option<Instant>)
    ensures
        r == match rfc3339_instant(s@) {
            Some(p) => Some(Instant { secs: p.0, nanos: p.1 }),
            None => None,
        },
{
    match chrono::DateTime::parse_from_rfc3339(s) {
        Ok(dt) => Some(Instant { secs: dt.timestamp(), nanos: dt.timestamp_subsec_nanos() }),
        Err(_) => None,
    }
}

/// The system clock (`SystemTime::now().duration_since(UNIX_EPOCH)`), as
/// whole seconds and sub-second nanoseconds since the Unix epoch; none when
/// the clock reads before the epoch. Nothing else is promised of the
/// reading: it is the clock's. Neither call panics.
#[verifier::external_body]
pub(crate) fn system_clock() -> (r: Option<(u64, u32)>)
    ensures
        r matches Some(p) ==> p.1 < 1_000_000_000,
{
    std::time::SystemTime::now().duration_since(std::time::UNIX_EPOCH).ok().map(|d| (d.as_secs(), d.subsec_nanos()))
}

/// The RFC 3339 text chrono writes for an instant given as seconds and
/// sub-second nanoseconds since the epoch, or none when chrono cannot
/// represent it.
pub uninterp spec fn rfc3339_of(secs: i64, nanos: u32) -> Option<Seq<char>>;

/// `chrono::DateTime::<Utc>::from_timestamp(secs, nanos)`, written with
/// `to_rfc3339`. The contract only names the result; the formatting is
/// chrono's.
#[verifier::external_body]
pub(crate) fn rfc3339_text(secs: i64, nanos: u32) -> (r: Option<String>)
    ensures
        r matches Some(t) ==> rfc3339_of(secs, nanos) == Some(t@),
        r is None ==> rfc3339_of(secs, nanos) is None,
{
    chrono::DateTime::<chrono::Utc>::from_timestamp(secs, nanos).map(|dt| dt.to_rfc3339())
}

/// The current time, or none when the clock cannot be read as an instant
/// (before the epoch, or past what `i64` seconds hold).
pub fn now_instant() -> (r: Option<Instant>)
    ensures
        r matches Some(i) ==> i.secs >= 0 && i.nanos < 1_000_000_000,
{
    match system_clock() {
        Some((secs, nanos)) => {
            if secs <= i64::MAX as u64 {
                Some(Instant { secs: secs as i64, nanos })
            } else {
                None
            }
        },
        None => None,
    }
}

/// The current time as RFC 3339 text, or none when the clock cannot be read
/// or written.
pub fn now_rfc3339() -> (r: Option<String>)
    ensures
        r matches Some(t) ==> exists|secs: i64, nanos: u32| secs >= 0 && nanos < 1_000_000_000 && rfc3339_of(secs, nanos) == Some(t@),
{
    match now_instant() {
        Some(i) => rfc3339_text(i.secs, i.nanos),
        None => None,
    }
}

pub const NANOS_PER_SEC: i128 = 1_000_000_000;

pub const NANOS_PER_DAY: i128 = 86_400_000_000_000;

/// Nanoseconds from `then` to `now`.
pub open spec fn elapsed_nanos(now: Instant, then: Instant) -> int {
    (now.secs - then.secs) * 1_000_000_000 + (now.nanos - then.nanos)
}

/// Integer division rounding toward zero.
pub open spec fn div_trunc(a: int, d: int) -> int {
    if a >= 0 {
        a / d
    } else {
        -((-a) / d)
    }
}

/// Whole days in a duration, rounded toward zero.
pub open spec fn whole_days(nanos: int) -> int {
    div_trunc(nanos, 86_400_000_000_000)
}

/// Nanoseconds from `then` to `now`.
pub fn elapsed(now: Instant, then: Instant) -> (r: i128)
    ensures
        r == elapsed_nanos(now, then),
{
    (now.secs as i128 - then.secs as i128) * NANOS_PER_SEC + (now.nanos as i128 - then.nanos as i128)
}

/// Whole days in `nanos`, rounded toward zero.
pub fn days_of(nanos: i128) -> (r: i64)
    requires
        -0x1_0000_0000_0000_0000_0000_0000 < nanos < 0x1_0000_0000_0000_0000_0000_0000,
    ensures
        r == whole_days(nanos as int),
{
    if nanos >= 0 {
        (nanos / NANOS_PER_DAY) as i64
    } else {
        let q = (-nanos) / NANOS_PER_DAY;
        -(q as i64)
    }
}

} // verus!
