//! Calendar helpers: compact date strings in, epoch milliseconds out. The
//! calendar arithmetic itself — leap years, month lengths — is the date
//! library's work behind a trusted call; this module owns the format rule
//! of which compact shapes are accepted and how they are padded.
use crate::errors::DateError;
use vstd::prelude::*;
use vstd::string::StringSliceAdditionalSpecFns;
use vstd::string::StringExecFns;

verus! {

/// What the date library answers for a padded `YYYYMMDDHHMMSS+00:00`
/// string: the UTC epoch milliseconds of that instant, or nothing when the
/// text is no real calendar instant. The answer depends on the characters
/// alone.
pub uninterp spec fn datetime_ms_of(s: Seq<char>) -> Option<i64>;

/// Relies on `chrono::DateTime::parse_from_str` with the format
/// `%Y%m%d%H%M%S%z`, converted to UTC epoch milliseconds: a pure function
/// of the text.
#[verifier::external_body]
fn parse_compact_utc(s: &str) -> (r: Option<i64>)
    ensures
        r == datetime_ms_of(s@),
{
    match chrono::DateTime::parse_from_str(s, "%Y%m%d%H%M%S%z") {
        Ok(d) => Some(d.to_utc().timestamp_millis()),
        Err(_) => None,
    }
}

/// The padding that completes each accepted compact shape to a full
/// `YYYYMMDDHHMMSS+00:00`: a missing month or day becomes the first, a
/// missing time midnight, always at UTC.
pub open spec fn spec_padding(len: int) -> Seq<char> {
    if len == 4 {
        "0101000000+00:00"@
    } else if len == 6 {
        "01000000+00:00"@
    } else if len == 8 {
        "000000+00:00"@
    } else if len == 10 {
        "0000+00:00"@
    } else if len == 12 {
        "00+00:00"@
    } else {
        "+00:00"@
    }
}

/// Parses a compact UTC date string of 4, 6, 8, 10, 12 or 14 digits —
/// `YYYY` down to `YYYYMMDDHHMMSS` — to epoch milliseconds. Any other
/// length is a format error; an accepted length whose digits name no real
/// calendar instant is a parse error.
pub fn str_to_date(s: &str) -> (r: Result<i64, DateError>)
    ensures
        ({
            let n = s.spec_bytes().len() as usize as int;
            if n == 4 || n == 6 || n == 8 || n == 10 || n == 12 || n == 14 {
                r == match datetime_ms_of(s@ + spec_padding(n)) {
                    Some(t) => Ok::<i64, DateError>(t),
                    None => Err::<i64, DateError>(DateError::Parse),
                }
            } else {
                r == Err::<i64, DateError>(DateError::Format)
            }
        }),
{
    let n = s.len();
    let pad: &str = if n == 4 {
        "0101000000+00:00"
    } else if n == 6 {
        "01000000+00:00"
    } else if n == 8 {
        "000000+00:00"
    } else if n == 10 {
        "0000+00:00"
    } else if n == 12 {
        "00+00:00"
    } else if n == 14 {
        "+00:00"
    } else {
        return Err(DateError::Format);
    };
    let mut padded = String::from_str(s);
    padded.append(pad);
    match parse_compact_utc(padded.as_str()) {
        Some(t) => Ok(t),
        None => Err(DateError::Parse),
    }
}

/// Relies on `chrono::Utc::now`: the wall clock as epoch milliseconds.
/// Nothing is promised of it — the time is the machine's business.
#[verifier::external_body]
pub fn now_ms() -> (r: i64) {
    chrono::Utc::now().timestamp_millis()
}

} // verus!
