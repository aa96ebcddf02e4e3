//! Bounce (NDR) generation for permanently failed deliveries.
use vstd::prelude::*;
use vstd::utf8::encode_utf8;

use crate::text::{append_chars, append_str, chars_of, join, join_strings, string_of};

verus! {

/// Text of the non-delivery report.
pub open spec fn ndr_text(
    hostname: Seq<char>,
    original_from: Seq<char>,
    recipients: Seq<Seq<char>>,
    error: Seq<char>,
    date: Seq<char>,
    token: Seq<char>,
) -> Seq<char> {
    let message_id = "<bounce-"@ + token + "@"@ + hostname + ">"@;
    let body = "This is the mail system at "@ + hostname
        + ".\r\n\r\nI'm sorry to inform you that your message could not be delivered to\r\none or more recipients:\r\n\r\n"@
        + join(recipients, ", "@) + "\r\n\r\nError: "@ + error
        + "\r\n\r\nNo further delivery attempts will be made.\r\n"@;
    "From: Mail Delivery System <postmaster@"@ + hostname + ">\r\nTo: <"@ + original_from
        + ">\r\nSubject: Undelivered Mail Returned to Sender\r\nDate: "@ + date
        + "\r\nMessage-ID: "@ + message_id
        + "\r\nMIME-Version: 1.0\r\nContent-Type: text/plain; charset=utf-8\r\nAuto-Submitted: auto-replied\r\n\r\n"@
        + body
}

/// Calls `chrono::Utc::now().to_rfc2822()`: the current time, which nothing
/// here states more of.
#[verifier::external_body]
fn now_rfc2822() -> (s: String) {
    chrono::Utc::now().to_rfc2822()
}

/// Calls `uuid::Uuid::new_v4()` and renders it hyphenated: a random
/// identifier of 36 characters.
#[verifier::external_body]
fn new_uuid_v4() -> (s: String)
    ensures
        s@.len() == 36,
{
    uuid::Uuid::new_v4().to_string()
}

/// Calls `str::as_bytes` and copies the bytes: the UTF-8 encoding.
pub(crate) fn utf8_bytes(s: &str) -> (b: Vec<u8>)
    ensures
        b@ == encode_utf8(s@),
{
    let bytes = s.as_bytes();
    vstd::slice::slice_to_vec(bytes)
}

/// The non-delivery report for a given date and message-id token.
pub fn build_ndr(
    hostname: &str,
    original_from: &str,
    failed_recipients: &[String],
    error: &str,
    date: &str,
    token: &str,
) -> (msg: Vec<u8>)
    ensures
        msg@ == encode_utf8(
            ndr_text(hostname@, original_from@, failed_recipients.deep_view(), error@, date@, token@),
        ),
{
    let h = chars_of(hostname);
    let list = join_strings(failed_recipients, ", ");
    let mut v: Vec<char> = Vec::new();
    append_str(&mut v, "From: Mail Delivery System <postmaster@");
    append_chars(&mut v, &h);
    append_str(&mut v, ">\r\nTo: <");
    append_str(&mut v, original_from);
    append_str(&mut v, ">\r\nSubject: Undelivered Mail Returned to Sender\r\nDate: ");
    append_str(&mut v, date);
    append_str(&mut v, "\r\nMessage-ID: ");
    append_str(&mut v, "<bounce-");
    append_str(&mut v, token);
    append_str(&mut v, "@");
    append_chars(&mut v, &h);
    append_str(&mut v, ">");
    append_str(
        &mut v,
        "\r\nMIME-Version: 1.0\r\nContent-Type: text/plain; charset=utf-8\r\nAuto-Submitted: auto-replied\r\n\r\n",
    );
    append_str(&mut v, "This is the mail system at ");
    append_chars(&mut v, &h);
    append_str(
        &mut v,
        ".\r\n\r\nI'm sorry to inform you that your message could not be delivered to\r\none or more recipients:\r\n\r\n",
    );
    append_chars(&mut v, &list);
    append_str(&mut v, "\r\n\r\nError: ");
    append_str(&mut v, error);
    append_str(&mut v, "\r\n\r\nNo further delivery attempts will be made.\r\n");
    let s = string_of(&v);
    proof {
        let t = ndr_text(
            hostname@,
            original_from@,
            failed_recipients.deep_view(),
            error@,
            date@,
            token@,
        );
        assert(v@ =~= t);
    }
    utf8_bytes(s.as_str())
}

/// Generate a Non-Delivery Report (bounce) message, dated now and with a
/// fresh random message id.
pub fn generate_ndr(
    hostname: &str,
    original_from: &str,
    failed_recipients: &[String],
    error: &str,
) -> (msg: Vec<u8>)
    ensures
        exists|date: Seq<char>, token: Seq<char>|
            token.len() == 36 && msg@ == encode_utf8(
                #[trigger] ndr_text(hostname@, original_from@, failed_recipients.deep_view(), error@, date, token),
            ),
{
    let now = now_rfc2822();
    let token = new_uuid_v4();
    let m = build_ndr(hostname, original_from, failed_recipients, error, now.as_str(), token.as_str());
    assert(token@.len() == 36);
    m
}

} // verus!
