//! JMAP core types (RFC 8620) and server configuration records.
use vstd::prelude::*;

use crate::text::{append_chars, append_str, chars_of, dec_int, dec_int_chars, string_of};

verus! {

/// JMAP error response.
pub struct JmapError {
    pub error_type: String,
    pub description: Option<String>,
}

/// Error for one object of a /set call.
pub struct SetError {
    pub error_type: String,
    pub description: Option<String>,
}

/// Standard JMAP /query response.
pub struct QueryResponse {
    pub account_id: String,
    pub query_state: String,
    pub can_calculate_changes: bool,
    pub position: u64,
    pub ids: Vec<String>,
    pub total: u64,
}

/// A mailbox record with its message counts.
pub struct Mailbox {
    pub id: String,
    pub account_id: i32,
    pub name: String,
    pub parent_id: Option<String>,
    pub role: Option<String>,
    pub sort_order: i32,
    pub total_emails: i64,
    pub unread_emails: i64,
}

/// An address book record.
pub struct AddressBook {
    pub id: String,
    pub account_id: i32,
    pub name: String,
    pub description: Option<String>,
    pub sort_order: i32,
}

impl JmapError {
    /// `unknownMethod`, naming the method.
    pub fn method_not_found(method: &str) -> (e: Self)
        ensures
            e.error_type@ == "unknownMethod"@,
            e.description matches Some(d) && d@ == "Unknown method: "@ + method@,
    {
        let mut d = chars_of("Unknown method: ");
        append_str(&mut d, method);
        JmapError { error_type: "unknownMethod".to_owned(), description: Some(string_of(&d)) }
    }

    /// `invalidArguments`, with a description.
    pub fn invalid_arguments(desc: &str) -> (e: Self)
        ensures
            e.error_type@ == "invalidArguments"@,
            e.description matches Some(d) && d@ == desc@,
    {
        JmapError { error_type: "invalidArguments".to_owned(), description: Some(desc.to_owned()) }
    }

    /// `notFound`, without a description.
    pub fn not_found() -> (e: Self)
        ensures
            e.error_type@ == "notFound"@,
            e.description is None,
    {
        JmapError { error_type: "notFound".to_owned(), description: None }
    }
}

/// The /query response listing all `ids` from position 0.
pub fn query_response(account_id: i32, query_state: String, ids: Vec<String>) -> (r: QueryResponse)
    ensures
        r.account_id@ == dec_int(account_id as int),
        r.query_state == query_state,
        !r.can_calculate_changes,
        r.position == 0,
        r.ids == ids,
        r.total == ids@.len(),
{
    let total = ids.len() as u64;
    QueryResponse {
        account_id: string_of(&dec_int_chars(account_id as i64)),
        query_state,
        can_calculate_changes: false,
        position: 0,
        ids,
        total,
    }
}

/// SMTP server configuration.
pub struct SmtpConfig {
    pub hostname: String,
    pub listen_inbound: Option<String>,
    pub listen_smtps: Option<String>,
    pub max_message_size: usize,
    pub dkim_selector: Option<String>,
    pub dkim_private_key: Option<String>,
    pub tls_cert: Option<String>,
    pub tls_key: Option<String>,
}

impl Default for SmtpConfig {
    /// Inbound SMTP on port 25 for `localhost`, 25 MB messages, no TLS, no DKIM.
    fn default() -> (c: Self)
        ensures
            c.hostname@ == "localhost"@,
            c.listen_inbound matches Some(a) && a@ == "0.0.0.0:25"@,
            c.listen_smtps is None,
            c.max_message_size == 25 * 1024 * 1024,
            c.dkim_selector is None,
            c.dkim_private_key is None,
            c.tls_cert is None,
            c.tls_key is None,
    {
        SmtpConfig {
            hostname: "localhost".to_owned(),
            listen_inbound: Some("0.0.0.0:25".to_owned()),
            listen_smtps: None,
            max_message_size: 25 * 1024 * 1024,
            dkim_selector: None,
            dkim_private_key: None,
            tls_cert: None,
            tls_key: None,
        }
    }
}

/// `base` with `part` appended as a relative path component
/// (`Path::join` of a relative component on Unix).
pub open spec fn path_join(base: Seq<char>, part: Seq<char>) -> Seq<char> {
    if base.len() == 0 {
        part
    } else if base.last() == '/' {
        base + part
    } else {
        base + "/"@ + part
    }
}

pub(crate) fn join_path(base: &[char], part: &[char]) -> (r: Vec<char>)
    ensures
        r@ == path_join(base@, part@),
{
    let mut v: Vec<char> = Vec::new();
    append_chars(&mut v, base);
    if base.len() > 0 && base[base.len() - 1] != '/' {
        v.push('/');
        let ghost mid = v@;
        append_chars(&mut v, part);
        proof {
            reveal_strlit("/");
        }
        assert(mid =~= base@ + "/"@);
    } else {
        append_chars(&mut v, part);
    }
    assert(v@ =~= path_join(base@, part@));
    v
}

/// Per-user spam filter databases: one per account under `base_dir`, seeded
/// from `baseline_db` when that exists.
pub struct SpamFilter {
    pub base_dir: String,
    pub baseline_db: Option<String>,
}

impl SpamFilter {
    pub fn new(base_dir: String, baseline_db: Option<String>) -> (f: Self)
        ensures
            f.base_dir == base_dir,
            f.baseline_db == baseline_db,
    {
        SpamFilter { base_dir, baseline_db }
    }

    /// Path of an account's database: `{base_dir}/{account_id}/db.sqlite`.
    pub fn db_path(&self, account_id: i32) -> (p: String)
        ensures
            p@ == path_join(path_join(self.base_dir@, dec_int(account_id as int)), "db.sqlite"@),
    {
        let base = chars_of(self.base_dir.as_str());
        let id = dec_int_chars(account_id as i64);
        let dir = join_path(&base, &id);
        let file = chars_of("db.sqlite");
        string_of(&join_path(&dir, &file))
    }
}


/// What counting needs of one stored message: the mailboxes it is in and
/// whether it carries the `$seen` keyword (with any value).
pub struct EmailFlags {
    pub mailbox_ids: Vec<String>,
    pub seen: bool,
}

/// Occurrences of `id` in a mailbox list.
pub open spec fn occurrences(ids: Seq<Seq<char>>, id: Seq<char>) -> nat
    decreases ids.len(),
{
    if ids.len() == 0 {
        0
    } else {
        occurrences(ids.drop_last(), id) + if ids.last() == id { 1nat } else { 0nat }
    }
}

/// Messages in mailbox `id`, a message counted once per time it lists `id`;
/// with `unread_only`, only the messages not seen.
pub open spec fn count_in(rows: Seq<EmailFlags>, id: Seq<char>, unread_only: bool) -> nat
    decreases rows.len(),
{
    if rows.len() == 0 {
        0
    } else {
        count_in(rows.drop_last(), id, unread_only) + if unread_only && rows.last().seen {
            0nat
        } else {
            occurrences(rows.last().mailbox_ids.deep_view(), id)
        }
    }
}

/// All mailbox memberships of all messages.
pub open spec fn memberships(rows: Seq<EmailFlags>) -> nat
    decreases rows.len(),
{
    if rows.len() == 0 {
        0
    } else {
        memberships(rows.drop_last()) + rows.last().mailbox_ids@.len()
    }
}

proof fn lemma_occurrences_le(ids: Seq<Seq<char>>, id: Seq<char>)
    ensures
        occurrences(ids, id) <= ids.len(),
    decreases ids.len(),
{
    if ids.len() > 0 {
        lemma_occurrences_le(ids.drop_last(), id);
    }
}

proof fn lemma_occurrences_prefix(ids: Seq<Seq<char>>, id: Seq<char>, j: int)
    requires
        0 <= j <= ids.len(),
    ensures
        occurrences(ids.take(j), id) <= occurrences(ids, id),
    decreases ids.len() - j,
{
    if j < ids.len() {
        lemma_occurrences_prefix(ids, id, j + 1);
        assert(ids.take(j + 1).drop_last() =~= ids.take(j));
    } else {
        assert(ids.take(j) =~= ids);
    }
}

proof fn lemma_count_le(rows: Seq<EmailFlags>, id: Seq<char>, unread_only: bool)
    ensures
        count_in(rows, id, unread_only) <= memberships(rows),
        count_in(rows, id, true) <= count_in(rows, id, false),
    decreases rows.len(),
{
    if rows.len() > 0 {
        lemma_count_le(rows.drop_last(), id, unread_only);
        lemma_count_le(rows.drop_last(), id, false);
        lemma_count_le(rows.drop_last(), id, true);
        lemma_occurrences_le(rows.last().mailbox_ids.deep_view(), id);
    }
}

proof fn lemma_memberships_prefix(rows: Seq<EmailFlags>, i: int)
    requires
        0 <= i <= rows.len(),
    ensures
        memberships(rows.take(i)) <= memberships(rows),
    decreases rows.len() - i,
{
    if i < rows.len() {
        lemma_memberships_prefix(rows, i + 1);
        assert(rows.take(i + 1).drop_last() =~= rows.take(i));
    } else {
        assert(rows.take(i) =~= rows);
    }
}

/// Total and unread counts of mailbox `id`.
fn mailbox_counts(rows: &Vec<EmailFlags>, id: &String) -> (r: (i64, i64))
    requires
        memberships(rows@) <= i64::MAX,
    ensures
        r.0 == count_in(rows@, id@, false),
        r.1 == count_in(rows@, id@, true),
{
    let mut total: i64 = 0;
    let mut unread: i64 = 0;
    let mut i: usize = 0;
    while i < rows.len()
        invariant
            i <= rows@.len(),
            memberships(rows@) <= i64::MAX,
            total == count_in(rows@.take(i as int), id@, false),
            unread == count_in(rows@.take(i as int), id@, true),
        decreases rows@.len() - i,
    {
        let ghost pre = rows@.take(i as int);
        assert(rows@.take(i + 1).drop_last() =~= pre);
        let ids = &rows[i].mailbox_ids;
        let seen = rows[i].seen;
        let ghost dv = ids.deep_view();
        proof {
            lemma_memberships_prefix(rows@, i + 1);
            lemma_count_le(rows@.take(i + 1), id@, false);
            lemma_count_le(pre, id@, false);
            assert(rows@.take(i + 1).last() == rows@[i as int]);
            assert(count_in(rows@.take(i + 1), id@, false) == total + occurrences(dv, id@));
        }
        let mut n: i64 = 0;
        let mut j: usize = 0;
        while j < ids.len()
            invariant
                j <= ids@.len(),
                dv == ids.deep_view(),
                n == occurrences(dv.take(j as int), id@),
                n <= j,
                total >= 0,
                total + occurrences(dv, id@) <= i64::MAX,
                unread + occurrences(dv, id@) <= i64::MAX,
            decreases ids@.len() - j,
        {
            assert(dv.take(j + 1).drop_last() =~= dv.take(j as int));
            proof {
                lemma_occurrences_prefix(dv, id@, j + 1);
            }
            if ids[j] == *id {
                assert(dv.take(j + 1).last() == id@);
                assert(occurrences(dv.take(j + 1), id@) == n + 1);
                n = n + 1;
            }
            j = j + 1;
        }
        assert(dv.take(ids@.len() as int) =~= dv);
        total = total + n;
        if !seen {
            unread = unread + n;
        }
        i = i + 1;
    }
    assert(rows@.take(rows@.len() as int) =~= rows@);
    (total, unread)
}

/// Fill in the message counts of mailboxes: a mailbox that some message is
/// in gets its total and unread counts; the others keep theirs.
pub fn fill_counts(mailboxes: &mut Vec<Mailbox>, rows: &Vec<EmailFlags>)
    requires
        memberships(rows@) <= i64::MAX,
    ensures
        final(mailboxes)@.len() == old(mailboxes)@.len(),
        forall|k: int| 0 <= k < old(mailboxes)@.len() ==> {
            let (o, m) = (#[trigger] old(mailboxes)@[k], final(mailboxes)@[k]);
            &&& m.id == o.id
            &&& m.account_id == o.account_id
            &&& m.name == o.name
            &&& m.parent_id == o.parent_id
            &&& m.role == o.role
            &&& m.sort_order == o.sort_order
            &&& m.total_emails == if count_in(rows@, o.id@, false) > 0 {
                count_in(rows@, o.id@, false) as i64
            } else {
                o.total_emails
            }
            &&& m.unread_emails == if count_in(rows@, o.id@, false) > 0 {
                count_in(rows@, o.id@, true) as i64
            } else {
                o.unread_emails
            }
        },
{
    let mut k: usize = 0;
    while k < mailboxes.len()
        invariant
            k <= mailboxes@.len(),
            mailboxes@.len() == old(mailboxes)@.len(),
            memberships(rows@) <= i64::MAX,
            forall|q: int| k <= q < mailboxes@.len() ==> mailboxes@[q] == old(mailboxes)@[q],
            forall|q: int| 0 <= q < k ==> {
                let (o, m) = (#[trigger] old(mailboxes)@[q], mailboxes@[q]);
                &&& m.id == o.id
                &&& m.account_id == o.account_id
                &&& m.name == o.name
                &&& m.parent_id == o.parent_id
                &&& m.role == o.role
                &&& m.sort_order == o.sort_order
                &&& m.total_emails == if count_in(rows@, o.id@, false) > 0 {
                    count_in(rows@, o.id@, false) as i64
                } else {
                    o.total_emails
                }
                &&& m.unread_emails == if count_in(rows@, o.id@, false) > 0 {
                    count_in(rows@, o.id@, true) as i64
                } else {
                    o.unread_emails
                }
            },
        decreases mailboxes@.len() - k,
    {
        let (total, unread) = mailbox_counts(rows, &mailboxes[k].id);
        if total > 0 {
            let mut m = mailboxes.remove(k);
            m.total_emails = total;
            m.unread_emails = unread;
            mailboxes.insert(k, m);
        }
        k = k + 1;
    }
}

/// `position` and `limit` of a `/query` request, 0 and 50 when absent, as
/// the signed numbers the store takes (`as i64`).
pub fn query_window(position: Option<u64>, limit: Option<u64>) -> (r: (i64, i64))
    ensures
        r.0 == (match position {
            Some(p) => p,
            None => 0,
        }) as i64,
        r.1 == (match limit {
            Some(l) => l,
            None => 50,
        }) as i64,
{
    let p: u64 = match position {
        Some(p) => p,
        None => 0,
    };
    let l: u64 = match limit {
        Some(l) => l,
        None => 50,
    };
    (p as i64, l as i64)
}

} // verus!
