//! Small display helpers of the desktop apps and service defaults.
use vstd::prelude::*;

use crate::text::{append_chars, append_str, chars_of, dec, dec_chars, has_prefix, starts_with_str, string_of};

verus! {

/// `3d 4h 5m`, `4h 5m` or `5m` for an uptime in seconds.
pub open spec fn spec_format_uptime(secs: nat) -> Seq<char> {
    let days = secs / 86400;
    let hours = (secs % 86400) / 3600;
    let mins = (secs % 3600) / 60;
    if days > 0 {
        dec(days) + "d "@ + dec(hours) + "h "@ + dec(mins) + "m"@
    } else if hours > 0 {
        dec(hours) + "h "@ + dec(mins) + "m"@
    } else {
        dec(mins) + "m"@
    }
}

/// Render an uptime in days, hours and minutes.
pub fn format_uptime(secs: u64) -> (s: String)
    ensures
        s@ == spec_format_uptime(secs as nat),
{
    let days = secs / 86400;
    let hours = (secs % 86400) / 3600;
    let mins = (secs % 3600) / 60;
    let mut v: Vec<char> = Vec::new();
    if days > 0 {
        append_chars(&mut v, &dec_chars(days));
        append_str(&mut v, "d ");
        append_chars(&mut v, &dec_chars(hours));
        append_str(&mut v, "h ");
        append_chars(&mut v, &dec_chars(mins));
        append_str(&mut v, "m");
    } else if hours > 0 {
        append_chars(&mut v, &dec_chars(hours));
        append_str(&mut v, "h ");
        append_chars(&mut v, &dec_chars(mins));
        append_str(&mut v, "m");
    } else {
        append_chars(&mut v, &dec_chars(mins));
        append_str(&mut v, "m");
    }
    proof {
        assert(v@ =~= spec_format_uptime(secs as nat));
    }
    string_of(&v)
}

/// CSS colour of a backup task status.
pub open spec fn spec_task_status_color(status: Seq<char>) -> Seq<char> {
    if status == "OK"@ {
        "var(--success)"@
    } else if has_prefix(status, "WARNINGS"@) {
        "var(--warning)"@
    } else if status.len() == 0 {
        "var(--accent)"@
    } else {
        "var(--danger)"@
    }
}

/// Colour for a task status: success, warnings, still running (empty), or error.
pub fn task_status_color(status: &str) -> (c: &'static str)
    ensures
        c@ == spec_task_status_color(status@),
{
    let v = chars_of(status);
    if crate::text::eq_str(&v, "OK") {
        "var(--success)"
    } else if starts_with_str(&v, "WARNINGS") {
        "var(--warning)"
    } else if v.len() == 0 {
        "var(--accent)"
    } else {
        "var(--danger)"
    }
}

/// Prefix put before documents to embed when the request names none.
pub fn default_doc_prefix() -> (s: String)
    ensures
        s@ == "search_document: "@,
{
    "search_document: ".to_owned()
}

/// Default number of search results.
pub fn default_limit() -> (r: usize)
    ensures
        r == 10,
{
    10
}

/// `chrono::DateTime::<Utc>::from_timestamp(ts, 0)` shown as
/// `"%Y-%m-%d %H:%M"`, when the timestamp is in chrono's range.
pub uninterp spec fn utc_minute_text(ts: i64) -> Option<Seq<char>>;

/// Calls `chrono::DateTime::<Utc>::from_timestamp` and renders the instant
/// to the minute in UTC. The contract only names the result.
#[verifier::external_body]
fn utc_minute(ts: i64) -> (r: Option<String>)
    ensures
        match r {
            Some(s) => utc_minute_text(ts) == Some(s@),
            None => utc_minute_text(ts) is None,
        },
{
    chrono::DateTime::<chrono::Utc>::from_timestamp(ts, 0).map(|dt| dt.format("%Y-%m-%d %H:%M").to_string())
}

/// A task's time for the backup dashboard, `-` when out of range.
pub fn format_timestamp(ts: i64) -> (s: String)
    ensures
        s@ == match utc_minute_text(ts) {
            Some(t) => t,
            None => "-"@,
        },
{
    match utc_minute(ts) {
        Some(t) => t,
        None => "-".to_owned(),
    }
}

} // verus!
