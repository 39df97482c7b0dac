use vstd::prelude::*;
use chrono::{DateTime, FixedOffset};

verus! {

/// How far east of UTC, in seconds, the synchronised clock shows its local
/// time: one hour.
pub const ZONE_OFFSET_SECS: i32 = 3600;

/// The text that chrono prints for the instant `secs` seconds and `nanos`
/// nanoseconds after the Unix epoch as a `DateTime<Utc>`, or none where
/// chrono cannot represent that instant.
pub uninterp spec fn utc_text(secs: i64, nanos: u32) -> Option<Seq<char>>;

/// The text that chrono prints for that instant as a `DateTime<FixedOffset>`
/// in the zone `offset_secs` seconds east of UTC, or none where chrono
/// cannot represent the instant or has no such zone.
pub uninterp spec fn zoned_text(secs: i64, nanos: u32, offset_secs: i32) -> Option<Seq<char>>;

/// Prints the instant with chrono: `DateTime::from_timestamp` makes it a
/// `DateTime<Utc>`, whose `Display` writes the text. The contract only names
/// the result; it states nothing of the calendar arithmetic or the format.
#[verifier::external_body]
fn format_utc(secs: i64, nanos: u32) -> (r: Option<String>)
    ensures
        r matches Some(s) ==> utc_text(secs, nanos) == Some(s@),
        r is None ==> utc_text(secs, nanos) is None,
{
    DateTime::from_timestamp(secs, nanos).map(|t| t.to_string())
}

/// Prints the instant with chrono in the zone `offset_secs` seconds east of
/// UTC: `FixedOffset::east_opt` makes the zone, `DateTime::from_timestamp`
/// the instant, `DateTime::with_timezone` moves it into the zone, and its
/// `Display` writes the text. The contract only names the result; it states
/// nothing of the calendar arithmetic or the format.
#[verifier::external_body]
fn format_zoned(secs: i64, nanos: u32, offset_secs: i32) -> (r: Option<String>)
    ensures
        r matches Some(s) ==> zoned_text(secs, nanos, offset_secs) == Some(s@),
        r is None ==> zoned_text(secs, nanos, offset_secs) is None,
{
    let zone = FixedOffset::east_opt(offset_secs)?;
    DateTime::from_timestamp(secs, nanos).map(|t| t.with_timezone(&zone).to_string())
}

/// What the synchronised clock logs for one reading: the time in its local
/// zone and the time in UTC.
pub struct TimeReport {
    pub local: String,
    pub utc: String,
}

/// The two lines that the synchronised clock logs for the instant `secs`
/// seconds and `nanos` nanoseconds after the Unix epoch: the instant in the
/// zone `ZONE_OFFSET_SECS` east of UTC, and in UTC; none where chrono cannot
/// print it.
pub fn time_report(secs: i64, nanos: u32) -> (r: Option<TimeReport>)
    ensures
        r is Some <==> (zoned_text(secs, nanos, ZONE_OFFSET_SECS) is Some && utc_text(
            secs,
            nanos,
        ) is Some),
        r matches Some(report) ==> zoned_text(secs, nanos, ZONE_OFFSET_SECS) == Some(
            report.local@,
        ) && utc_text(secs, nanos) == Some(report.utc@),
{
    let local = match format_zoned(secs, nanos, ZONE_OFFSET_SECS) {
        Some(text) => text,
        None => return None,
    };
    let utc = match format_utc(secs, nanos) {
        Some(text) => text,
        None => return None,
    };
    Some(TimeReport { local, utc })
}

} // verus!
