//! What a static file's response says of it beyond its bytes: its media type,
//! guessed from the name by `mime_guess`, and its modification time as an HTTP
//! date, written by `httpdate`.

use vstd::prelude::*;

verus! {

/// The media type `mime_guess` gives a path: the first type its table lists for
/// the extension, or `application/octet-stream`.
pub uninterp spec fn mime_of(path: Seq<char>) -> Seq<char>;

/// `mime_guess::from_path(path).first_or_octet_stream()`, as text.
#[verifier::external_body]
fn guess_mime(path: &str) -> (m: String)
    ensures
        m@ == mime_of(path@),
{
    mime_guess::from_path(path).first_or_octet_stream().to_string()
}

/// The media type of a file, by its path.
pub fn mime_type(path: &str) -> (m: String)
    ensures
        m@ == mime_of(path@),
{
    guess_mime(path)
}

/// The HTTP date (IMF-fixdate, such as `Sun, 06 Nov 1994 08:49:37 GMT`) that
/// `httpdate` writes for a time in seconds since the epoch.
pub uninterp spec fn http_date_of(secs: u64) -> Seq<char>;

/// The first second that `httpdate` refuses (the year 10000).
pub const HTTP_DATE_LIMIT: u64 = 253402300800;

/// `httpdate::fmt_http_date` for the time `secs` seconds after the epoch. The
/// crate panics from the year 10000 on, which `requires` leaves out; it writes
/// the date into 29 bytes of ASCII.
#[verifier::external_body]
fn format_http_date(secs: u64) -> (d: String)
    requires
        secs < HTTP_DATE_LIMIT,
    ensures
        d@ == http_date_of(secs),
        d@.len() == 29,
{
    httpdate::fmt_http_date(std::time::UNIX_EPOCH + std::time::Duration::from_secs(secs))
}

/// The `Last-Modified` value of a file modified `secs` seconds after the epoch.
pub fn last_modified(secs: u64) -> (d: String)
    requires
        secs < HTTP_DATE_LIMIT,
    ensures
        d@ == http_date_of(secs),
        d@.len() == 29,
{
    format_http_date(secs)
}

} // verus!
