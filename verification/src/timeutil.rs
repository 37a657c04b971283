//! Timestamp helpers around the calendar library.
//!
//! The gateway's own protocols both use UTC nanosecond timestamps; the two
//! text forms here shift them to the exchange's zone, eight hours east of
//! UTC.

use vstd::prelude::*;

verus! {

/// Nanoseconds added to a UTC timestamp to land in the exchange's zone.
pub const ZONE_OFFSET_NANOS: i64 = 28_800_000_000_000;

/// The `YYYY-MM-DD HH:MM:SS` text of a nanosecond timestamp. The text is a
/// function of the timestamp alone; only the calendar library computes it.
pub uninterp spec fn datestamp_text(ts_nanos: i64) -> Seq<char>;

/// The nanosecond timestamp a `YYYY-MM-DD HH:MM:SS` text denotes, where the
/// calendar library accepts it. Success and value depend on the text alone.
pub uninterp spec fn datestamp_nanos(s: Seq<char>) -> Option<i64>;

/// Relies on chrono's `DateTime::<Utc>::from_timestamp_nanos` and its
/// `%Y-%m-%d %H:%M:%S` formatting: the rendered calendar text of the instant.
#[verifier::external_body]
fn chrono_format_datestamp(ts: i64) -> (r: String)
    ensures
        r@ == datestamp_text(ts),
{
    let dt = chrono::DateTime::<chrono::Utc>::from_timestamp_nanos(ts);
    dt.format("%Y-%m-%d %H:%M:%S").to_string()
}

/// Relies on chrono's `NaiveDateTime::parse_from_str` with
/// `%Y-%m-%d %H:%M:%S` and `timestamp_nanos_opt`: parses the calendar text
/// back to an instant where the text matches the format and the instant fits
/// in nanoseconds.
#[verifier::external_body]
fn chrono_parse_datestamp(s: &str) -> (r: Option<i64>)
    ensures
        r == datestamp_nanos(s@),
{
    match chrono::NaiveDateTime::parse_from_str(s, "%Y-%m-%d %H:%M:%S") {
        Ok(dt) => dt.and_utc().timestamp_nanos_opt(),
        Err(_) => None,
    }
}

/// Relies on chrono's `Utc::now`: the current UTC time in nanoseconds. The
/// result depends on the clock; nothing is promised of it.
#[verifier::external_body]
pub fn get_qadatestamp() -> i64 {
    chrono::Utc::now().timestamp_nanos_opt().unwrap_or(0)
}

/// Formats a UTC nanosecond timestamp as zone-local `YYYY-MM-DD HH:MM:SS`.
pub fn parse_datestamp(ts: i64) -> (r: String)
    requires
        ts <= i64::MAX - ZONE_OFFSET_NANOS,
    ensures
        r@ == datestamp_text((ts + ZONE_OFFSET_NANOS) as i64),
{
    chrono_format_datestamp(ts + ZONE_OFFSET_NANOS)
}

/// Reads a zone-local `YYYY-MM-DD HH:MM:SS` or `YYYY-MM-DD` text back to a
/// UTC nanosecond timestamp; text of any other length, text the calendar
/// library rejects, and values the shift would take out of range all give 0.
/// Returning 0 instead of failing is deliberate: this function is total and
/// never panics, whatever the text.
pub fn parse_fromstr_datestamp(datetime: String) -> (r: i64)
    ensures
        ({
            let full = if datetime@.len() == 19 {
                datestamp_nanos(datetime@)
            } else if datetime@.len() == 10 {
                datestamp_nanos(datetime@ + " 00:00:00"@)
            } else {
                None
            };
            match full {
                Some(n) => r == if n >= i64::MIN + ZONE_OFFSET_NANOS {
                    n - ZONE_OFFSET_NANOS
                } else {
                    0
                },
                None => r == 0,
            }
        }),
{
    let n: usize = datetime.as_str().unicode_len();
    let parsed: Option<i64> = if n == 19 {
        chrono_parse_datestamp(datetime.as_str())
    } else if n == 10 {
        let mut full = datetime;
        full.append(" 00:00:00");
        chrono_parse_datestamp(full.as_str())
    } else {
        None
    };
    match parsed {
        Some(v) => {
            if v >= i64::MIN + ZONE_OFFSET_NANOS {
                v - ZONE_OFFSET_NANOS
            } else {
                0
            }
        },
        None => 0,
    }
}

} // verus!
