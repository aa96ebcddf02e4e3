//! Decisions of inbound delivery: the Authentication-Results stamp put on a
//! received message, the identity its SPF check runs on, the address lists
//! stored with it and the mailbox it is filed in.
use vstd::prelude::*;
use vstd::utf8::encode_utf8;

use crate::bounce::utf8_bytes;
use crate::delivery::{after_last_at, after_last_at_str};
use crate::text::{append_str, chars_of, find_char, string_of};

verus! {

/// An address as the message parser hands it out.
pub struct ParsedAddress {
    pub name: Option<String>,
    pub address: Option<String>,
}

/// An address as stored with the message: missing parts are empty.
pub struct StoredAddress {
    pub name: String,
    pub email: String,
}

/// Outcome of the DKIM check of a message.
pub enum DkimSummary {
    /// Some signature verified.
    Pass,
    /// Signatures were there and none verified.
    Fail,
    /// No signature was checked.
    Absent,
}

/// Result of an SPF check, one variant per outcome of the evaluation.
pub enum SpfVerdict {
    Pass,
    Fail,
    SoftFail,
    Neutral,
    TempError,
    PermError,
    Absent,
}

/// The identity an SPF check runs on.
pub struct SpfIdentity {
    /// Domain whose policy is looked up.
    pub domain: String,
    /// Check the HELO identity rather than the envelope sender.
    pub helo: bool,
}

/// Stored form of one parsed address.
pub open spec fn stored_of(a: ParsedAddress) -> (Seq<char>, Seq<char>) {
    (
        match a.name {
            Some(n) => n@,
            None => Seq::empty(),
        },
        match a.address {
            Some(e) => e@,
            None => Seq::empty(),
        },
    )
}

/// All addresses of all groups, in order, in stored form.
pub open spec fn flat_addresses(groups: Seq<Vec<ParsedAddress>>) -> Seq<(Seq<char>, Seq<char>)>
    decreases groups.len(),
{
    if groups.len() == 0 {
        Seq::empty()
    } else {
        flat_addresses(groups.drop_last()) + groups.last()@.map_values(|a: ParsedAddress| stored_of(a))
    }
}

/// Views of stored addresses.
pub open spec fn stored_view(s: Seq<StoredAddress>) -> Seq<(Seq<char>, Seq<char>)> {
    s.map_values(|a: StoredAddress| (a.name@, a.email@))
}

/// The stored address list of a header: a plain list is one group, a
/// group list is flattened; absent names and addresses become empty.
pub fn flatten_addresses(groups: &Vec<Vec<ParsedAddress>>) -> (r: Vec<StoredAddress>)
    ensures
        stored_view(r@) == flat_addresses(groups@),
{
    let mut r: Vec<StoredAddress> = Vec::new();
    let mut g: usize = 0;
    while g < groups.len()
        invariant
            g <= groups@.len(),
            stored_view(r@) == flat_addresses(groups@.take(g as int)),
        decreases groups@.len() - g,
    {
        assert(groups@.take(g + 1).drop_last() =~= groups@.take(g as int));
        let ghost before = stored_view(r@);
        let group = &groups[g];
        let mut i: usize = 0;
        while i < group.len()
            invariant
                i <= group@.len(),
                stored_view(r@) == before + group@.take(i as int).map_values(
                    |a: ParsedAddress| stored_of(a),
                ),
            decreases group@.len() - i,
        {
            let a = &group[i];
            let name = match &a.name {
                Some(n) => n.clone(),
                None => String::new(),
            };
            let email = match &a.address {
                Some(e) => e.clone(),
                None => String::new(),
            };
            let ghost prev = stored_view(r@);
            let ghost entry = (name@, email@);
            assert(entry == stored_of(group@[i as int]));
            r.push(StoredAddress { name, email });
            assert(stored_view(r@) =~= prev.push(entry));
            assert(group@.take(i + 1).map_values(|a: ParsedAddress| stored_of(a)) =~= group@.take(
                i as int,
            ).map_values(|a: ParsedAddress| stored_of(a)).push(stored_of(group@[i as int])));
            i = i + 1;
            assert(stored_view(r@) =~= before + group@.take(i as int).map_values(
                |a: ParsedAddress| stored_of(a),
            ));
        }
        assert(group@.take(group@.len() as int) =~= group@);
        g = g + 1;
    }
    assert(groups@.take(groups@.len() as int) =~= groups@);
    r
}

/// DKIM outcome from the per-signature results (`true` for a signature
/// that verified): pass if any passed, absent if there were none, else fail.
pub open spec fn spec_dkim_summary(results: Seq<bool>) -> DkimSummary {
    if exists|i: int| 0 <= i < results.len() && results[i] {
        DkimSummary::Pass
    } else if results.len() == 0 {
        DkimSummary::Absent
    } else {
        DkimSummary::Fail
    }
}

/// One verifying signature is enough, wherever it stands: the summary is
/// pass then; it is fail exactly when there are signatures and none
/// verified, and absent only when there are none. The order of the
/// signatures does not matter.
pub proof fn law_dkim_any_pass(results: Seq<bool>, i: int, other: Seq<bool>)
    ensures
        0 <= i < results.len() && results[i] ==> spec_dkim_summary(results) == DkimSummary::Pass,
        spec_dkim_summary(results) == DkimSummary::Fail <==> (results.len() > 0 && forall|j: int|
            0 <= j < results.len() ==> !results[j]),
        spec_dkim_summary(results) == DkimSummary::Absent <==> results.len() == 0,
        other.to_multiset() == results.to_multiset() ==> spec_dkim_summary(other) == spec_dkim_summary(
            results,
        ),
{
    if other.to_multiset() == results.to_multiset() {
        vstd::seq_lib::to_multiset_contains(results, true);
        vstd::seq_lib::to_multiset_contains(other, true);
        results.to_multiset_ensures();
        other.to_multiset_ensures();
        assert(other.len() == results.len());
        assert((exists|j: int| 0 <= j < results.len() && results[j]) <==> results.contains(true));
        assert((exists|j: int| 0 <= j < other.len() && other[j]) <==> other.contains(true));
    }
}

/// Summarises the DKIM results of a message.
pub fn dkim_summary(results: &Vec<bool>) -> (d: DkimSummary)
    ensures
        d == spec_dkim_summary(results@),
{
    let mut i: usize = 0;
    while i < results.len()
        invariant
            i <= results@.len(),
            forall|j: int| 0 <= j < i ==> !results@[j],
        decreases results@.len() - i,
    {
        if results[i] {
            return DkimSummary::Pass;
        }
        i = i + 1;
    }
    if results.len() == 0 {
        DkimSummary::Absent
    } else {
        DkimSummary::Fail
    }
}

/// Word for a DKIM outcome in the results header.
pub open spec fn dkim_word(d: DkimSummary) -> Seq<char> {
    match d {
        DkimSummary::Pass => "pass"@,
        DkimSummary::Fail => "fail"@,
        DkimSummary::Absent => "none"@,
    }
}

/// Word for an SPF outcome in the results header: the name the evaluation gives it.
pub open spec fn spf_word(v: SpfVerdict) -> Seq<char> {
    match v {
        SpfVerdict::Pass => "Pass"@,
        SpfVerdict::Fail => "Fail"@,
        SpfVerdict::SoftFail => "SoftFail"@,
        SpfVerdict::Neutral => "Neutral"@,
        SpfVerdict::TempError => "TempError"@,
        SpfVerdict::PermError => "PermError"@,
        SpfVerdict::Absent => "None"@,
    }
}

fn dkim_text(d: &DkimSummary) -> (s: &'static str)
    ensures
        s@ == dkim_word(*d),
{
    match d {
        DkimSummary::Pass => "pass",
        DkimSummary::Fail => "fail",
        DkimSummary::Absent => "none",
    }
}

fn spf_text(v: &SpfVerdict) -> (s: &'static str)
    ensures
        s@ == spf_word(*v),
{
    match v {
        SpfVerdict::Pass => "Pass",
        SpfVerdict::Fail => "Fail",
        SpfVerdict::SoftFail => "SoftFail",
        SpfVerdict::Neutral => "Neutral",
        SpfVerdict::TempError => "TempError",
        SpfVerdict::PermError => "PermError",
        SpfVerdict::Absent => "None",
    }
}

/// The results text: `dkim=<word>; spf=<word>`. A message that could not
/// be parsed for DKIM (`dkim` is `None`) counts as carrying no signature.
pub fn auth_results(dkim: Option<&Vec<bool>>, spf: &SpfVerdict) -> (s: String)
    ensures
        s@ == "dkim="@ + dkim_word(
            match dkim {
                Some(r) => spec_dkim_summary(r@),
                None => DkimSummary::Absent,
            },
        ) + "; spf="@ + spf_word(*spf),
{
    let d = match dkim {
        Some(r) => dkim_summary(r),
        None => DkimSummary::Absent,
    };
    let mut v = chars_of("dkim=");
    append_str(&mut v, dkim_text(&d));
    append_str(&mut v, "; spf=");
    append_str(&mut v, spf_text(spf));
    string_of(&v)
}

/// The results text when no authenticator could be set up.
pub fn auth_results_unavailable() -> (s: String)
    ensures
        s@ == "dkim=temperror; spf=temperror"@,
{
    "dkim=temperror; spf=temperror".to_owned()
}

/// The identity checked for an envelope sender: the domain is what follows
/// its last `@` (the whole sender when it has none), and the HELO identity
/// is checked when the sender is empty or has no `@`.
pub fn spf_identity(mail_from: &str) -> (id: SpfIdentity)
    ensures
        id.domain@ == after_last_at(mail_from@),
        id.helo == !mail_from@.contains('@'),
{
    let v = chars_of(mail_from);
    let at = find_char(&v, '@');
    proof {
        if let Some(i) = at {
            assert(v@[i as int] == '@');
        }
    }
    SpfIdentity { domain: after_last_at_str(mail_from), helo: at.is_none() }
}

/// The header line stamped on a received message.
pub open spec fn auth_header(hostname: Seq<char>, results: Seq<char>) -> Seq<char> {
    "Authentication-Results: "@ + hostname + "; "@ + results + "\r\n"@
}

/// The stored form of a received message: the results header, then the
/// message as received.
pub fn stamp_message(hostname: &str, results: &str, data: &[u8]) -> (r: Vec<u8>)
    ensures
        r@ == encode_utf8(auth_header(hostname@, results@)) + data@,
{
    let mut h = chars_of("Authentication-Results: ");
    append_str(&mut h, hostname);
    append_str(&mut h, "; ");
    append_str(&mut h, results);
    append_str(&mut h, "\r\n");
    let hs = string_of(&h);
    let mut r = utf8_bytes(hs.as_str());
    let ghost head = r@;
    let mut i: usize = 0;
    while i < data.len()
        invariant
            i <= data@.len(),
            r@ == head + data@.take(i as int),
        decreases data@.len() - i,
    {
        r.push(data[i]);
        i = i + 1;
        assert(r@ =~= head + data@.take(i as int));
    }
    assert(data@.take(data@.len() as int) =~= data@);
    r
}

/// The stored message ends with the message as received, unchanged.
pub proof fn law_stamp_keeps_message(hostname: Seq<char>, results: Seq<char>, data: Seq<u8>, r: Seq<u8>)
    requires
        r == encode_utf8(auth_header(hostname, results)) + data,
    ensures
        r.len() >= data.len(),
        r.skip(r.len() - data.len()) == data,
{
    assert(r.skip(r.len() - data.len()) =~= data);
}

/// The classifier's verdict marks the message as spam.
pub open spec fn is_spam(verdict: Option<Seq<char>>) -> bool {
    verdict == Some("SPAM"@)
}

/// Tells whether a verdict routes the message to the junk mailbox.
pub fn wants_junk(verdict: &Option<String>) -> (b: bool)
    ensures
        b == is_spam(match verdict {
            Some(v) => Some(v@),
            None => None,
        }),
{
    match verdict {
        Some(v) => {
            let c = chars_of(v.as_str());
            crate::text::eq_str(&c, "SPAM")
        },
        None => false,
    }
}

/// The mailbox a message is filed in: the junk mailbox for spam when the
/// account has one, otherwise the inbox.
pub fn target_mailbox(verdict: &Option<String>, junk: Option<u128>, inbox: u128) -> (m: u128)
    ensures
        m == if is_spam(match verdict {
            Some(v) => Some(v@),
            None => None,
        }) {
            match junk {
                Some(j) => j,
                None => inbox,
            }
        } else {
            inbox
        },
{
    if wants_junk(verdict) {
        match junk {
            Some(j) => j,
            None => inbox,
        }
    } else {
        inbox
    }
}


/// The mailbox a received message is filed in for one recipient: the
/// verdict counts only when the account has spam filtering on (otherwise the
/// message is not classified), and then spam goes to the junk mailbox when
/// there is one; everything else goes to the inbox.
pub fn recipient_mailbox(spam_enabled: bool, verdict: &Option<String>, junk: Option<u128>, inbox: u128) -> (m: u128)
    ensures
        m == if spam_enabled && is_spam(match verdict {
            Some(v) => Some(v@),
            None => None,
        }) {
            match junk {
                Some(j) => j,
                None => inbox,
            }
        } else {
            inbox
        },
{
    if spam_enabled {
        target_mailbox(verdict, junk, inbox)
    } else {
        inbox
    }
}

} // verus!
