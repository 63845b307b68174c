//! Rows of the session log: an RFC 3339 wall-clock timestamp and the value.
use vstd::prelude::*;
use crate::clock::NormalizedReading;
use crate::parser::copy_range;

verus! {

/// Instants that the log can show: about 250,000 years either side of 1970.
pub open spec fn representable_millis(millis: int) -> bool {
    -8_000_000_000_000_000 <= millis <= 8_000_000_000_000_000
}

/// The RFC 3339 text of an instant, given in milliseconds since the Unix
/// epoch, shown at a fixed offset from UTC in seconds.
pub uninterp spec fn rfc3339_text(millis: int, offset_seconds: int) -> Seq<char>;

/// Relies on chrono: `DateTime::from_timestamp_millis` (a value for every
/// instant from year -262143 to 262142, which the bound below stays within),
/// `FixedOffset::east_opt` (a value exactly when the offset is under a day
/// either way), `DateTime::with_timezone` and `DateTime::to_rfc3339`.
#[verifier::external_body]
fn rfc3339_at(millis: i64, offset_seconds: i32) -> (r: Option<String>)
    ensures
        r is Some ==> r->0@ == rfc3339_text(millis as int, offset_seconds as int),
        !(-86400 < offset_seconds < 86400) ==> r is None,
        -86400 < offset_seconds < 86400 && representable_millis(millis as int) ==> r is Some,
{
    let offset = chrono::FixedOffset::east_opt(offset_seconds)?;
    let instant = chrono::DateTime::from_timestamp_millis(millis)?;
    Some(instant.with_timezone(&offset).to_rfc3339())
}

/// One row of a session log.
#[derive(Debug, PartialEq, Eq)]
pub struct CsvRow {
    pub timestamp: String,
    pub value: Vec<u8>,
}

/// The log row of an accepted reading, its time shown at `offset_seconds`
/// from UTC. There is a row for every offset under a day and every time
/// within about 250,000 years of 1970; none for an offset of a day or more.
pub fn csv_row(reading: &NormalizedReading, offset_seconds: i32) -> (r: Option<CsvRow>)
    ensures
        r is Some ==> r->0.timestamp@ == rfc3339_text(reading.wall_millis as int, offset_seconds as int),
        r is Some ==> r->0.value@ == reading.value@,
        !(-86400 < offset_seconds < 86400) ==> r is None,
        -86400 < offset_seconds < 86400 && representable_millis(reading.wall_millis as int) ==> r is Some,
{
    match rfc3339_at(reading.wall_millis, offset_seconds) {
        Some(timestamp) => {
            let value = copy_range(reading.value.as_slice(), 0, reading.value.len());
            assert(reading.value@.subrange(0, reading.value@.len() as int) =~= reading.value@);
            Some(CsvRow { timestamp, value })
        },
        None => None,
    }
}

} // verus!
