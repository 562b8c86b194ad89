//! What the library reads from the machine it runs on: the user's
//! directories and the clock.

use vstd::prelude::*;

verus! {

/// Calls `dirs::home_dir`: the user's home directory, as the environment
/// gives it, rendered as a string (bytes that are not UTF-8 become U+FFFD).
/// It depends on the environment, so nothing is stated of it.
#[verifier::external_body]
pub(crate) fn home_dir() -> Option<String> {
    dirs::home_dir().map(|p| p.to_string_lossy().into_owned())
}

/// Calls `dirs::data_dir`: the user's data directory, as the environment
/// gives it, rendered as a string. Nothing is stated of it.
#[verifier::external_body]
pub(crate) fn data_dir() -> Option<String> {
    dirs::data_dir().map(|p| p.to_string_lossy().into_owned())
}

/// Calls `dirs::config_dir`: the user's configuration directory, as the
/// environment gives it, rendered as a string. Nothing is stated of it.
#[verifier::external_body]
pub(crate) fn config_dir() -> Option<String> {
    dirs::config_dir().map(|p| p.to_string_lossy().into_owned())
}

/// The two clock patterns the library renders.
pub open spec fn clock_pattern(pattern: Seq<char>) -> bool {
    pattern == "%Y%m%d"@ || pattern == "%Y-%m-%dT%H:%M:%SZ"@
}

/// A character of a rendered date: a digit, or the sign of a year outside 0..=9999.
pub open spec fn date_char(c: char) -> bool {
    ('0' <= c && c <= '9') || c == '+' || c == '-'
}

/// A character of a rendered timestamp: a date character or `T`, `:`, `Z`.
pub open spec fn stamp_char(c: char) -> bool {
    date_char(c) || c == 'T' || c == ':' || c == 'Z'
}

/// What chrono's documentation gives of a rendering under one of the two
/// patterns: the year takes at least 4 characters (digits, with a sign
/// outside 0..=9999) and every other field 2 digits.
pub open spec fn rendering_shape(pattern: Seq<char>, t: Seq<char>) -> bool {
    &&& pattern == "%Y%m%d"@ ==> t.len() >= 8 && forall|i: int| 0 <= i < t.len() ==> date_char(#[trigger] t[i])
    &&& pattern == "%Y-%m-%dT%H:%M:%SZ"@ ==> t.len() >= 20 && forall|i: int|
        0 <= i < t.len() ==> stamp_char(#[trigger] t[i])
}

#[verifier::external_type_specification]
#[verifier::external_body]
pub struct ExSystemTime(std::time::SystemTime);

/// Calls `std::time::SystemTime::now`: the machine's clock. Nothing is stated of it.
#[verifier::external_body]
fn system_now() -> std::time::SystemTime {
    std::time::SystemTime::now()
}

/// Calls `SystemTime::duration_since` with `UNIX_EPOCH`: the whole seconds
/// and the nanoseconds since 1970, or none for a time before it. The
/// nanoseconds are below one billion, as `Duration::subsec_nanos` documents.
#[verifier::external_body]
fn since_epoch(t: &std::time::SystemTime) -> (r: Option<(u64, u32)>)
    ensures
        r matches Some(p) ==> p.1 < 1_000_000_000,
{
    t.duration_since(std::time::UNIX_EPOCH).ok().map(|d| (d.as_secs(), d.subsec_nanos()))
}

/// What `chrono::DateTime::<Utc>::from_timestamp(secs, nanos)` rendered with
/// `DateTime::format` under `pattern` gives: none when the timestamp is out
/// of chrono's range.
pub uninterp spec fn utc_rendering(secs: i64, nanos: u32, pattern: Seq<char>) -> Option<Seq<char>>;

/// Calls `chrono::DateTime::<Utc>::from_timestamp` and renders the result
/// with `DateTime::format` under `pattern`, one of two patterns that render
/// without error. The result is `utc_rendering` of the arguments, with the
/// shape chrono documents for those patterns.
#[verifier::external_body]
fn format_utc(secs: i64, nanos: u32, pattern: &str) -> (r: Option<String>)
    requires
        clock_pattern(pattern@),
    ensures
        match r {
            Some(t) => utc_rendering(secs, nanos, pattern@) == Some(t@) && rendering_shape(pattern@, t@),
            None => utc_rendering(secs, nanos, pattern@) is None,
        },
{
    chrono::DateTime::<chrono::Utc>::from_timestamp(secs, nanos).map(|t| t.format(pattern).to_string())
}

/// The UTC time `secs` seconds and `nanos` nanoseconds after 1970, rendered
/// under `pattern`; none when the time is beyond chrono's range.
pub fn utc_text_at(secs: u64, nanos: u32, pattern: &str) -> (r: Option<String>)
    requires
        clock_pattern(pattern@),
    ensures
        secs > i64::MAX ==> r is None,
        secs <= i64::MAX ==> match r {
            Some(t) => utc_rendering(secs as i64, nanos, pattern@) == Some(t@) && rendering_shape(pattern@, t@),
            None => utc_rendering(secs as i64, nanos, pattern@) is None,
        },
{
    if secs <= 9_223_372_036_854_775_807u64 {
        let s = secs as i64;
        format_utc(s, nanos, pattern)
    } else {
        None
    }
}

/// The current UTC time rendered under `pattern`; none when the clock reads
/// a time before 1970 or beyond chrono's range. What the clock reads is not
/// a function of anything the caller holds, so the result is stated as the
/// rendering of some reading since 1970; `utc_text_at` renders a given one.
pub fn utc_now_text(pattern: &str) -> (r: Option<String>)
    requires
        clock_pattern(pattern@),
    ensures
        r matches Some(t) ==> rendering_shape(pattern@, t@) && exists|secs: i64, nanos: u32|
            0 <= secs && nanos < 1_000_000_000 && utc_rendering(secs, nanos, pattern@) == Some(t@),
{
    let now = system_now();
    match since_epoch(&now) {
        Some((secs, nanos)) => utc_text_at(secs, nanos, pattern),
        None => None,
    }
}

} // verus!
