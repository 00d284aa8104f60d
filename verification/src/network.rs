//! The HTTP dates of conditional downloads, by `chrono`.

use vstd::prelude::*;
use std::fmt::Write;

verus! {

/// The `strftime` format of an HTTP date (RFC 7231 IMF-fixdate).
pub const HTTP_DATE_FORMAT: &'static str = "%a, %d %b %Y %H:%M:%S GMT";

/// The status with which a server answers that the file is not modified.
pub const NOT_MODIFIED: u16 = 304;

/// What `chrono` writes for the UTC instant `secs` seconds and `nanos`
/// nanoseconds after the Unix epoch in `format`: `None` where the instant is
/// out of `chrono`'s range or the format cannot be written.
pub uninterp spec fn chrono_format_utc(secs: i64, nanos: u32, format: Seq<char>) -> Option<Seq<char>>;

/// The instant, as seconds and nanoseconds after the Unix epoch, that `chrono`
/// reads from the RFC 2822 date `text`; `None` where it cannot.
pub uninterp spec fn chrono_rfc2822(text: Seq<char>) -> Option<(i64, u32)>;

/// `chrono::DateTime::from_timestamp(secs, nanos)` written with
/// `DateTime::format(format)`: the contract names the result.
#[verifier::external_body]
fn format_utc(secs: i64, nanos: u32, format: &str) -> (r: Option<String>)
    ensures
        match r {
            Some(s) => chrono_format_utc(secs, nanos, format@) == Some(s@),
            None => chrono_format_utc(secs, nanos, format@) is None,
        },
{
    let date = chrono::DateTime::from_timestamp(secs, nanos)?;
    let mut text = String::new();
    write!(text, "{}", date.format(format)).ok()?;
    Some(text)
}

/// `chrono::DateTime::parse_from_rfc2822(text)`, as its timestamp and
/// sub-second nanoseconds: the contract names the result.
#[verifier::external_body]
fn parse_rfc2822(text: &str) -> (r: Option<(i64, u32)>)
    ensures
        r == chrono_rfc2822(text@),
{
    chrono::DateTime::parse_from_rfc2822(text).ok().map(|d| (d.timestamp(), d.timestamp_subsec_nanos()))
}

/// The `If-Modified-Since` value for a file last modified at the given instant.
pub fn if_modified_since(secs: i64, nanos: u32) -> (r: Option<String>)
    ensures
        match r {
            Some(s) => chrono_format_utc(secs, nanos, HTTP_DATE_FORMAT@) == Some(s@),
            None => chrono_format_utc(secs, nanos, HTTP_DATE_FORMAT@) is None,
        },
{
    format_utc(secs, nanos, HTTP_DATE_FORMAT)
}

/// The instant that a `Last-Modified` value names.
pub fn last_modified(value: &str) -> (r: Option<(i64, u32)>)
    ensures
        r == chrono_rfc2822(value@),
{
    parse_rfc2822(value)
}

/// Whether a conditional request's answer says the remote file changed: any
/// successful status but "not modified".
pub fn remote_changed(status: u16) -> (r: bool)
    ensures
        r == (status != NOT_MODIFIED),
{
    status != NOT_MODIFIED
}

} // verus!
