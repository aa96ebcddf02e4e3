//! The outcome bookkeeping of JMAP `/set` calls, the body structure
//! reported by `Email/get`, and the spam retraining decided by moving a
//! message into or out of the junk mailbox.
use vstd::prelude::*;

use crate::jmap_types::SetError;
use crate::text::{dec, dec_chars, string_of};

verus! {

/// Standard JMAP `/set` response. `created` maps a creation id to the new
/// object's id; `updated` lists the ids updated (each mapped to null).
pub struct SetResponse {
    pub account_id: String,
    pub old_state: String,
    pub new_state: String,
    pub created: Option<Vec<(String, String)>>,
    pub updated: Option<Vec<String>>,
    pub destroyed: Option<Vec<String>>,
    pub not_created: Option<Vec<(String, SetError)>>,
    pub not_updated: Option<Vec<(String, SetError)>>,
    pub not_destroyed: Option<Vec<(String, SetError)>>,
}

/// Outcomes of one `/set` call gathered so far.
pub struct SetReport {
    pub created: Vec<(String, String)>,
    pub updated: Vec<String>,
    pub destroyed: Vec<String>,
    pub not_updated: Vec<(String, SetError)>,
    pub not_destroyed: Vec<(String, SetError)>,
}

/// Abstract form of a [`SetError`].
pub open spec fn error_view(e: SetError) -> (Seq<char>, Option<Seq<char>>) {
    (
        e.error_type@,
        match e.description {
            Some(d) => Some(d@),
            None => None,
        },
    )
}

/// Abstract form of keyed errors.
pub open spec fn errors_view(entries: Seq<(String, SetError)>) -> Seq<(Seq<char>, (Seq<char>, Option<Seq<char>>))> {
    entries.map_values(|e: (String, SetError)| (e.0@, error_view(e.1)))
}

/// Map insertion on a keyed list: an entry with the key is replaced in
/// place, else the entry is appended.
pub open spec fn keyed_insert<V>(entries: Seq<(Seq<char>, V)>, k: Seq<char>, v: V) -> Seq<(Seq<char>, V)> {
    if exists|i: int| 0 <= i < entries.len() && entries[i].0 == k {
        let i = choose|i: int| 0 <= i < entries.len() && entries[i].0 == k;
        entries.update(i, (k, v))
    } else {
        entries.push((k, v))
    }
}

/// Keys of a keyed list are distinct.
pub open spec fn distinct_keys<V>(entries: Seq<(Seq<char>, V)>) -> bool {
    forall|i: int, j: int| 0 <= i < j < entries.len() ==> #[trigger] entries[i].0 != #[trigger] entries[j].0
}

/// The error for an id that does not parse in an update.
pub open spec fn invalid_id_error() -> (Seq<char>, Option<Seq<char>>) {
    ("invalidArguments"@, Some("Invalid id"@))
}

/// The error for an object that is not there.
pub open spec fn not_found_error() -> (Seq<char>, Option<Seq<char>>) {
    ("notFound"@, None)
}

impl SetReport {
    /// The report's keyed lists have distinct keys.
    pub open spec fn wf(self) -> bool {
        &&& distinct_keys(errors_view(self.not_updated@))
        &&& distinct_keys(errors_view(self.not_destroyed@))
    }

    /// Nothing recorded yet.
    pub fn new() -> (r: SetReport)
        ensures
            r.created@.len() == 0,
            r.updated@.len() == 0,
            r.destroyed@.len() == 0,
            r.not_updated@.len() == 0,
            r.not_destroyed@.len() == 0,
            r.wf(),
    {
        SetReport {
            created: Vec::new(),
            updated: Vec::new(),
            destroyed: Vec::new(),
            not_updated: Vec::new(),
            not_destroyed: Vec::new(),
        }
    }

    /// The object with creation id `client_id` was created as `id`.
    pub fn record_created(&mut self, client_id: String, id: String)
        ensures
            final(self).created@ == old(self).created@.push((client_id, id)),
            final(self).updated == old(self).updated,
            final(self).destroyed == old(self).destroyed,
            final(self).not_updated == old(self).not_updated,
            final(self).not_destroyed == old(self).not_destroyed,
    {
        self.created.push((client_id, id));
    }

    /// The object `id` was changed by an update.
    pub fn record_updated(&mut self, id: String)
        ensures
            final(self).updated@ == old(self).updated@.push(id),
            final(self).created == old(self).created,
            final(self).destroyed == old(self).destroyed,
            final(self).not_updated == old(self).not_updated,
            final(self).not_destroyed == old(self).not_destroyed,
    {
        self.updated.push(id);
    }

    /// The object `id` was destroyed.
    pub fn record_destroyed(&mut self, id: String)
        ensures
            final(self).destroyed@ == old(self).destroyed@.push(id),
            final(self).created == old(self).created,
            final(self).updated == old(self).updated,
            final(self).not_updated == old(self).not_updated,
            final(self).not_destroyed == old(self).not_destroyed,
    {
        self.destroyed.push(id);
    }

    /// An update named an id that does not parse.
    pub fn reject_update_invalid_id(&mut self, id: String)
        requires
            old(self).wf(),
        ensures
            final(self).wf(),
            errors_view(final(self).not_updated@) == keyed_insert(
                errors_view(old(self).not_updated@),
                id@,
                invalid_id_error(),
            ),
            final(self).created == old(self).created,
            final(self).updated == old(self).updated,
            final(self).destroyed == old(self).destroyed,
            final(self).not_destroyed == old(self).not_destroyed,
    {
        let e = SetError { error_type: "invalidArguments".to_owned(), description: Some("Invalid id".to_owned()) };
        keyed_put(&mut self.not_updated, id, e);
    }

    /// A destroy named an object that is not there (or an id that does not parse).
    pub fn reject_destroy(&mut self, id: String)
        requires
            old(self).wf(),
        ensures
            final(self).wf(),
            errors_view(final(self).not_destroyed@) == keyed_insert(
                errors_view(old(self).not_destroyed@),
                id@,
                not_found_error(),
            ),
            final(self).created == old(self).created,
            final(self).updated == old(self).updated,
            final(self).destroyed == old(self).destroyed,
            final(self).not_updated == old(self).not_updated,
    {
        let e = SetError { error_type: "notFound".to_owned(), description: None };
        keyed_put(&mut self.not_destroyed, id, e);
    }

    /// Outcome of destroying the object `id`: `deleted` says whether it was
    /// there and is now gone; it is listed as destroyed, or as not found.
    pub fn record_destroy_result(&mut self, id: String, deleted: bool)
        requires
            old(self).wf(),
        ensures
            final(self).wf(),
            deleted ==> final(self).destroyed@ == old(self).destroyed@.push(id)
                && final(self).not_destroyed == old(self).not_destroyed,
            !deleted ==> final(self).destroyed == old(self).destroyed && errors_view(
                final(self).not_destroyed@,
            ) == keyed_insert(errors_view(old(self).not_destroyed@), id@, not_found_error()),
            final(self).created == old(self).created,
            final(self).updated == old(self).updated,
            final(self).not_updated == old(self).not_updated,
    {
        if deleted {
            self.record_destroyed(id);
        } else {
            self.reject_destroy(id);
        }
    }

    /// The response: each list that stayed empty is left out.
    pub fn finish(self, account_id: String, old_state: String, new_state: String) -> (r: SetResponse)
        ensures
            r.account_id == account_id,
            r.old_state == old_state,
            r.new_state == new_state,
            r.created == if self.created@.len() == 0 { None } else { Some(self.created) },
            r.updated == if self.updated@.len() == 0 { None } else { Some(self.updated) },
            r.destroyed == if self.destroyed@.len() == 0 { None } else { Some(self.destroyed) },
            r.not_created is None,
            r.not_updated == if self.not_updated@.len() == 0 { None } else { Some(self.not_updated) },
            r.not_destroyed == if self.not_destroyed@.len() == 0 {
                None
            } else {
                Some(self.not_destroyed)
            },
    {
        SetResponse {
            account_id,
            old_state,
            new_state,
            created: if self.created.len() == 0 { None } else { Some(self.created) },
            updated: if self.updated.len() == 0 { None } else { Some(self.updated) },
            destroyed: if self.destroyed.len() == 0 { None } else { Some(self.destroyed) },
            not_created: None,
            not_updated: if self.not_updated.len() == 0 { None } else { Some(self.not_updated) },
            not_destroyed: if self.not_destroyed.len() == 0 { None } else { Some(self.not_destroyed) },
        }
    }
}

/// Insert into a keyed error list, replacing an entry with the same key.
fn keyed_put(entries: &mut Vec<(String, SetError)>, k: String, e: SetError)
    requires
        distinct_keys(errors_view(old(entries)@)),
    ensures
        distinct_keys(errors_view(final(entries)@)),
        errors_view(final(entries)@) == keyed_insert(errors_view(old(entries)@), k@, error_view(e)),
{
    let ghost ev = errors_view(entries@);
    let mut i: usize = 0;
    while i < entries.len()
        invariant
            i <= entries@.len(),
            entries@ == old(entries)@,
            ev == errors_view(entries@),
            distinct_keys(ev),
            forall|j: int| 0 <= j < i ==> ev[j].0 != k@,
        decreases entries@.len() - i,
    {
        if entries[i].0 == k {
            proof {
                assert(ev[i as int].0 == k@);
                let w = choose|w: int| 0 <= w < ev.len() && ev[w].0 == k@;
                if w != i {
                    assert(ev[w].0 == ev[i as int].0);
                }
                assert(w == i);
            }
            let ghost entry = (k@, error_view(e));
            entries.set(i, (k, e));
            assert(errors_view(entries@) =~= ev.update(i as int, entry));
            return;
        }
        i = i + 1;
    }
    let ghost entry = (k@, error_view(e));
    entries.push((k, e));
    assert(errors_view(entries@) =~= ev.push(entry));
}

// ---------------------------------------------------------------------------
// Body structure
// ---------------------------------------------------------------------------

/// A MIME part as far as the body structure needs: text, HTML (with their
/// decoded content) or anything else.
pub enum MimePart {
    Text(String),
    Html(String),
    Other,
}

/// A body part reference: part id and media type.
pub struct PartRef {
    pub part_id: String,
    pub content_type: String,
}

/// The `textBody`, `htmlBody` and `bodyValues` of a message.
pub struct BodyStructure {
    pub text_body: Vec<PartRef>,
    pub html_body: Vec<PartRef>,
    pub body_values: Vec<(String, String)>,
}

/// Abstract form of a [`BodyStructure`].
#[verifier::ext_equal]
pub struct BodyStructureView {
    pub text_body: Seq<(Seq<char>, Seq<char>)>,
    pub html_body: Seq<(Seq<char>, Seq<char>)>,
    pub body_values: Seq<(Seq<char>, Seq<char>)>,
}

/// The parts that count: text and HTML parts with content, numbered from 0
/// in order.
pub open spec fn counted(p: MimePart) -> bool {
    match p {
        MimePart::Text(t) => t@.len() > 0,
        MimePart::Html(h) => h@.len() > 0,
        MimePart::Other => false,
    }
}

/// Body structure of `parts`: each text part with content is listed in
/// `textBody` and each HTML part with content in `htmlBody`, under its
/// number among such parts; its content goes into `bodyValues` when that
/// kind was asked for.
pub open spec fn spec_body_structure(parts: Seq<MimePart>, fetch_text: bool, fetch_html: bool) -> (
    BodyStructureView,
    nat,
)
    decreases parts.len(),
{
    if parts.len() == 0 {
        (BodyStructureView { text_body: Seq::empty(), html_body: Seq::empty(), body_values: Seq::empty() }, 0)
    } else {
        let (s, n) = spec_body_structure(parts.drop_last(), fetch_text, fetch_html);
        let pid = dec(n);
        match parts.last() {
            MimePart::Text(t) => if t@.len() > 0 {
                (
                    BodyStructureView {
                        text_body: s.text_body.push((pid, "text/plain"@)),
                        body_values: if fetch_text { s.body_values.push((pid, t@)) } else { s.body_values },
                        ..s
                    },
                    n + 1,
                )
            } else {
                (s, n)
            },
            MimePart::Html(h) => if h@.len() > 0 {
                (
                    BodyStructureView {
                        html_body: s.html_body.push((pid, "text/html"@)),
                        body_values: if fetch_html { s.body_values.push((pid, h@)) } else { s.body_values },
                        ..s
                    },
                    n + 1,
                )
            } else {
                (s, n)
            },
            MimePart::Other => (s, n),
        }
    }
}

/// Abstract form of part references.
pub open spec fn refs_view(r: Seq<PartRef>) -> Seq<(Seq<char>, Seq<char>)> {
    r.map_values(|p: PartRef| (p.part_id@, p.content_type@))
}

/// Abstract form of body values.
pub open spec fn pairs_view(r: Seq<(String, String)>) -> Seq<(Seq<char>, Seq<char>)> {
    r.map_values(|p: (String, String)| (p.0@, p.1@))
}

impl View for BodyStructure {
    type V = BodyStructureView;

    open spec fn view(&self) -> BodyStructureView {
        BodyStructureView {
            text_body: refs_view(self.text_body@),
            html_body: refs_view(self.html_body@),
            body_values: pairs_view(self.body_values@),
        }
    }
}

/// The body structure reported for a parsed message.
pub fn body_structure(parts: &Vec<MimePart>, fetch_text: bool, fetch_html: bool) -> (r: BodyStructure)
    ensures
        r@ == spec_body_structure(parts@, fetch_text, fetch_html).0,
{
    let mut r = BodyStructure { text_body: Vec::new(), html_body: Vec::new(), body_values: Vec::new() };
    let mut n: usize = 0;
    let mut i: usize = 0;
    assert(parts@.take(0) =~= Seq::<MimePart>::empty());
    assert(r@ =~= spec_body_structure(parts@.take(0), fetch_text, fetch_html).0);
    while i < parts.len()
        invariant
            i <= parts@.len(),
            n <= i,
            (r@, n as nat) == spec_body_structure(parts@.take(i as int), fetch_text, fetch_html),
        decreases parts@.len() - i,
    {
        assert(parts@.take(i + 1).drop_last() =~= parts@.take(i as int));
        assert(parts@.take(i + 1).last() == parts@[i as int]);
        let ghost before = r@;
        match &parts[i] {
            MimePart::Text(t) => {
                if t.as_str().unicode_len() > 0 {
                    let pid = string_of(&dec_chars(n as u64));
                    r.text_body.push(PartRef { part_id: pid.clone(), content_type: "text/plain".to_owned() });
                    if fetch_text {
                        r.body_values.push((pid, t.clone()));
                    }
                    n = n + 1;
                    assert(r@ =~= spec_body_structure(parts@.take(i + 1), fetch_text, fetch_html).0);
                }
            },
            MimePart::Html(h) => {
                if h.as_str().unicode_len() > 0 {
                    let pid = string_of(&dec_chars(n as u64));
                    r.html_body.push(PartRef { part_id: pid.clone(), content_type: "text/html".to_owned() });
                    if fetch_html {
                        r.body_values.push((pid, h.clone()));
                    }
                    n = n + 1;
                    assert(r@ =~= spec_body_structure(parts@.take(i + 1), fetch_text, fetch_html).0);
                }
            },
            MimePart::Other => {},
        }
        i = i + 1;
    }
    assert(parts@.take(parts@.len() as int) =~= parts@);
    r
}

// ---------------------------------------------------------------------------
// Spam retraining on moves
// ---------------------------------------------------------------------------

/// What moving a message teaches the spam filter.
pub enum Retrain {
    /// Nothing: it did not enter or leave the junk mailbox.
    Nothing,
    /// It was moved into the junk mailbox: train it as spam.
    Spam,
    /// It was moved out of the junk mailbox: train it as good mail.
    Good,
}

/// Retraining for a move from mailboxes `before` to `after`, given the
/// account's junk mailbox.
pub open spec fn spec_retrain(before: Seq<u128>, after: Seq<u128>, junk: Option<u128>) -> Retrain {
    match junk {
        Some(j) => if !before.contains(j) && after.contains(j) {
            Retrain::Spam
        } else if before.contains(j) && !after.contains(j) {
            Retrain::Good
        } else {
            Retrain::Nothing
        },
        None => Retrain::Nothing,
    }
}

fn holds(v: &Vec<u128>, x: u128) -> (b: bool)
    ensures
        b == v@.contains(x),
{
    let mut i: usize = 0;
    while i < v.len()
        invariant
            i <= v@.len(),
            forall|j: int| 0 <= j < i ==> v@[j] != x,
        decreases v@.len() - i,
    {
        if v[i] == x {
            assert(v@[i as int] == x);
            return true;
        }
        i = i + 1;
    }
    false
}

/// Decides the retraining of a message moved between mailboxes.
pub fn retrain_for_move(before: &Vec<u128>, after: &Vec<u128>, junk: Option<u128>) -> (r: Retrain)
    ensures
        r == spec_retrain(before@, after@, junk),
{
    match junk {
        Some(j) => {
            let was = holds(before, j);
            let now = holds(after, j);
            if !was && now {
                Retrain::Spam
            } else if was && !now {
                Retrain::Good
            } else {
                Retrain::Nothing
            }
        },
        None => Retrain::Nothing,
    }
}

/// Moving a message into the junk mailbox and back teaches the filter the
/// two opposite lessons, and a move within the same side teaches nothing.
pub proof fn law_retrain_round_trip(a: Seq<u128>, b: Seq<u128>, j: u128)
    requires
        !a.contains(j),
        b.contains(j),
    ensures
        spec_retrain(a, b, Some(j)) is Spam,
        spec_retrain(b, a, Some(j)) is Good,
        spec_retrain(a, a, Some(j)) is Nothing,
        spec_retrain(b, b, Some(j)) is Nothing,
{
}

// ---------------------------------------------------------------------------
// Submission envelope
// ---------------------------------------------------------------------------

/// An address list stored with a message, as far as the envelope needs:
/// per entry, its `email` member when that is a string.
pub type StoredEmails = Option<Vec<Option<String>>>;

/// The envelope of a submission: sender and recipients.
pub struct Envelope {
    pub mail_from: String,
    pub rcpt_to: Vec<String>,
}

/// The sender taken from the message: the first `from` entry's address,
/// else empty.
pub open spec fn header_sender(from: StoredEmails) -> Seq<char> {
    match from {
        Some(v) => if v@.len() > 0 {
            match v@[0] {
                Some(e) => e@,
                None => Seq::empty(),
            }
        } else {
            Seq::empty()
        },
        None => Seq::empty(),
    }
}

/// Non-empty addresses of an address list, in order.
pub open spec fn listed(field: StoredEmails) -> Seq<Seq<char>> {
    match field {
        Some(v) => listed_seq(v@),
        None => Seq::empty(),
    }
}

/// Non-empty addresses of entries, in order.
pub open spec fn listed_seq(v: Seq<Option<String>>) -> Seq<Seq<char>>
    decreases v.len(),
{
    if v.len() == 0 {
        Seq::empty()
    } else {
        listed_seq(v.drop_last()) + match v.last() {
            Some(e) => if e@.len() > 0 { seq![e@] } else { Seq::empty() },
            None => Seq::empty(),
        }
    }
}

fn collect_listed(field: &StoredEmails, out: &mut Vec<String>)
    ensures
        final(out).deep_view() == old(out).deep_view() + listed(*field),
{
    match field {
        Some(v) => {
            let ghost start = out.deep_view();
            let mut i: usize = 0;
            while i < v.len()
                invariant
                    i <= v@.len(),
                    out.deep_view() == start + listed_seq(v@.take(i as int)),
                decreases v@.len() - i,
            {
                assert(v@.take(i + 1).drop_last() =~= v@.take(i as int));
                let ghost before = out.deep_view();
                match &v[i] {
                    Some(e) => {
                        if e.as_str().unicode_len() > 0 {
                            out.push(e.clone());
                            assert(out.deep_view() =~= before.push(e@));
                        }
                    },
                    None => {},
                }
                i = i + 1;
                assert(out.deep_view() =~= start + listed_seq(v@.take(i as int)));
            }
            assert(v@.take(v@.len() as int) =~= v@);
        },
        None => {
            assert(out.deep_view() =~= old(out).deep_view() + listed(*field));
        },
    }
}

/// The address an entry contributes: its address when it has a non-empty one.
pub open spec fn entry_address(o: Option<String>) -> Option<Seq<char>> {
    match o {
        Some(e) => if e@.len() > 0 {
            Some(e@)
        } else {
            None
        },
        None => None,
    }
}

/// [`entry_address`] as a function value.
pub open spec fn entry_address_fn() -> spec_fn(Option<String>) -> Option<Seq<char>> {
    |o: Option<String>| entry_address(o)
}

/// The non-empty address at position `i` of an address list, if any.
pub open spec fn address_at(field: StoredEmails, i: int) -> Option<Seq<char>> {
    match field {
        Some(v) => if 0 <= i < v@.len() {
            entry_address(v@[i])
        } else {
            None
        },
        None => None,
    }
}

/// Every entry's address, in order, dropping entries without one.
pub open spec fn all_addresses(field: StoredEmails) -> Seq<Seq<char>> {
    match field {
        Some(v) => v@.filter_map(entry_address_fn()),
        None => Seq::empty(),
    }
}

proof fn lemma_listed_seq(v: Seq<Option<String>>)
    ensures
        listed_seq(v) == v.filter_map(entry_address_fn()),
        forall|i: int| 0 <= i < v.len() && (#[trigger] entry_address(v[i])) is Some
            ==> listed_seq(v).contains(entry_address(v[i]).unwrap()),
    decreases v.len(),
{
    if v.len() > 0 {
        let d = v.drop_last();
        lemma_listed_seq(d);
        assert(entry_address_fn()(v.last()) == entry_address(v.last()));
        let p = listed_seq(d);
        let t = match v.last() {
            Some(e) => if e@.len() > 0 { seq![e@] } else { Seq::empty() },
            None => Seq::empty(),
        };
        assert(listed_seq(v) == p + t);
        assert forall|i: int| 0 <= i < v.len() && (#[trigger] entry_address(v[i])) is Some
            implies listed_seq(v).contains(entry_address(v[i]).unwrap()) by {
            if i < v.len() - 1 {
                assert(d[i] == v[i]);
                let k = choose|k: int| 0 <= k < p.len() && p[k] == entry_address(d[i]).unwrap();
                assert((p + t)[k] == p[k]);
            } else {
                assert((p + t)[p.len() as int] == t[0]);
            }
        }
    }
}

/// The envelope taken from the message keeps every address: each non-empty
/// address of the To list and of the Cc list, at any position, is among its
/// recipients, which are exactly those addresses, To before Cc, each list in
/// its own order.
pub proof fn law_envelope_keeps_every_address(to: StoredEmails, cc: StoredEmails)
    ensures
        listed(to) + listed(cc) == all_addresses(to) + all_addresses(cc),
        forall|i: int| (#[trigger] address_at(to, i)) is Some ==> (listed(to) + listed(cc)).contains(
            address_at(to, i).unwrap(),
        ),
        forall|i: int| (#[trigger] address_at(cc, i)) is Some ==> (listed(to) + listed(cc)).contains(
            address_at(cc, i).unwrap(),
        ),
{
    let a = listed(to);
    let b = listed(cc);
    match to {
        Some(v) => lemma_listed_seq(v@),
        None => {},
    }
    match cc {
        Some(v) => lemma_listed_seq(v@),
        None => {},
    }
    assert forall|i: int| (#[trigger] address_at(to, i)) is Some implies (a + b).contains(
        address_at(to, i).unwrap(),
    ) by {
        let v = to.unwrap();
        assert(entry_address(v@[i]) is Some);
        let k = choose|k: int| 0 <= k < a.len() && a[k] == address_at(to, i).unwrap();
        assert((a + b)[k] == a[k]);
    }
    assert forall|i: int| (#[trigger] address_at(cc, i)) is Some implies (a + b).contains(
        address_at(cc, i).unwrap(),
    ) by {
        let v = cc.unwrap();
        assert(entry_address(v@[i]) is Some);
        let k = choose|k: int| 0 <= k < b.len() && b[k] == address_at(cc, i).unwrap();
        assert((a + b)[a.len() + k] == b[k]);
    }
}

/// The envelope of a submission: the one the request gives, or else the
/// message's first sender and its non-empty To and Cc addresses. `None`
/// when that leaves no recipient.
pub fn submission_envelope(
    given: Option<Envelope>,
    from: &StoredEmails,
    to: &StoredEmails,
    cc: &StoredEmails,
) -> (r: Option<Envelope>)
    ensures
        match given {
            Some(g) => if g.rcpt_to@.len() > 0 {
                r matches Some(e) && e.mail_from == g.mail_from && e.rcpt_to == g.rcpt_to
            } else {
                r is None
            },
            None => if listed(*to) + listed(*cc) == Seq::<Seq<char>>::empty() {
                r is None
            } else {
                r matches Some(e) && e.mail_from@ == header_sender(*from) && e.rcpt_to.deep_view()
                    == listed(*to) + listed(*cc)
            },
        },
{
    match given {
        Some(g) => {
            if g.rcpt_to.len() > 0 {
                Some(g)
            } else {
                None
            }
        },
        None => {
            let sender = match from {
                Some(v) => {
                    if v.len() > 0 {
                        match &v[0] {
                            Some(e) => e.clone(),
                            None => String::new(),
                        }
                    } else {
                        String::new()
                    }
                },
                None => String::new(),
            };
            let mut tos: Vec<String> = Vec::new();
            assert(tos.deep_view() =~= Seq::<Seq<char>>::empty());
            collect_listed(to, &mut tos);
            collect_listed(cc, &mut tos);
            assert(tos.deep_view() =~= listed(*to) + listed(*cc));
            if tos.len() == 0 {
                None
            } else {
                Some(Envelope { mail_from: sender, rcpt_to: tos })
            }
        },
    }
}

// ---------------------------------------------------------------------------
// Object ids
// ---------------------------------------------------------------------------

/// `s.parse::<uuid::Uuid>()`, as the id's 128-bit value: a function of the
/// string alone (`None` when it is not a UUID).
pub uninterp spec fn uuid_of(s: Seq<char>) -> Option<u128>;

/// A lower-case hexadecimal digit.
pub open spec fn hex_digit(n: nat) -> char {
    if n < 10 {
        (48 + n) as char
    } else {
        (87 + n) as char
    }
}

/// The low `k` hexadecimal digits of `v`, most significant first.
pub open spec fn hex_digits(v: nat, k: nat) -> Seq<char>
    decreases k,
{
    if k == 0 {
        Seq::empty()
    } else {
        hex_digits(v / 16, (k - 1) as nat).push(hex_digit(v % 16))
    }
}

/// `uuid::Uuid::from_u128(v).to_string()`: the 32 lower-case hexadecimal
/// digits of the value, grouped 8-4-4-4-12 with hyphens.
pub open spec fn uuid_text(v: u128) -> Seq<char> {
    let h = hex_digits(v as nat, 32);
    h.subrange(0, 8) + seq!['-'] + h.subrange(8, 12) + seq!['-'] + h.subrange(12, 16) + seq!['-']
        + h.subrange(16, 20) + seq!['-'] + h.subrange(20, 32)
}

/// Calls `<uuid::Uuid as FromStr>::from_str` and `Uuid::as_u128`.
#[verifier::external_body]
fn parse_uuid(s: &str) -> (r: Option<u128>)
    ensures
        r == uuid_of(s@),
{
    s.parse::<uuid::Uuid>().ok().map(|u| u.as_u128())
}

/// Calls `uuid::Uuid::from_u128` and renders it with `to_string`: the
/// hyphenated lower-case form.
#[verifier::external_body]
fn format_uuid(v: u128) -> (s: String)
    ensures
        s@ == uuid_text(v),
{
    uuid::Uuid::from_u128(v).to_string()
}

/// The object an id names, if the id is a UUID; a destroy of an id that is
/// not is answered not found without a lookup.
pub fn parse_id(id: &str) -> (r: Option<u128>)
    ensures
        r == uuid_of(id@),
{
    parse_uuid(id)
}

/// The ids among `ids` that are UUIDs, in order; the others are skipped.
pub open spec fn parsed_ids(ids: Seq<Seq<char>>) -> Seq<u128>
    decreases ids.len(),
{
    if ids.len() == 0 {
        Seq::empty()
    } else {
        parsed_ids(ids.drop_last()) + match uuid_of(ids.last()) {
            Some(u) => seq![u],
            None => Seq::empty(),
        }
    }
}

/// The requested ids that parse, as `/get` looks them up.
pub fn parse_ids(ids: &Vec<String>) -> (r: Vec<u128>)
    ensures
        r@ == parsed_ids(ids.deep_view()),
{
    let ghost iv = ids.deep_view();
    let mut r: Vec<u128> = Vec::new();
    let mut i: usize = 0;
    while i < ids.len()
        invariant
            i <= ids@.len(),
            iv == ids.deep_view(),
            r@ == parsed_ids(iv.take(i as int)),
        decreases ids@.len() - i,
    {
        assert(iv.take(i + 1).drop_last() =~= iv.take(i as int));
        assert(iv.take(i + 1).last() == ids@[i as int]@);
        let ghost before = r@;
        match parse_uuid(ids[i].as_str()) {
            Some(u) => {
                r.push(u);
                assert(r@ =~= before + seq![u]);
            },
            None => {
                assert(r@ =~= before + Seq::<u128>::empty());
            },
        }
        i = i + 1;
    }
    assert(iv.take(ids@.len() as int) =~= iv);
    r
}

/// Ids in their text form, as responses list them.
pub fn id_strings(ids: &Vec<u128>) -> (r: Vec<String>)
    ensures
        r.deep_view() == ids@.map_values(|u: u128| uuid_text(u)),
{
    let mut r: Vec<String> = Vec::new();
    let mut i: usize = 0;
    while i < ids.len()
        invariant
            i <= ids@.len(),
            r.deep_view() == ids@.take(i as int).map_values(|u: u128| uuid_text(u)),
        decreases ids@.len() - i,
    {
        let ghost before = r.deep_view();
        let s = format_uuid(ids[i]);
        r.push(s);
        assert(r.deep_view() =~= before.push(uuid_text(ids@[i as int])));
        assert(ids@.take(i + 1).map_values(|u: u128| uuid_text(u)) =~= ids@.take(i as int).map_values(
            |u: u128| uuid_text(u),
        ).push(uuid_text(ids@[i as int])));
        i = i + 1;
    }
    assert(ids@.take(ids@.len() as int) =~= ids@);
    r
}

} // verus!
