//! Mail client records (as the JMAP server sends them) and the reply and
//! forward drafts built from a received message.
use vstd::prelude::*;

use crate::text::{
    append_chars, append_str, chars_of, eq_chars, eq_str, has_prefix, lines_of, split_chars,
    split_on, starts_with_str, str_lines, string_of, trim, trim_vec, views,
};

verus! {

/// A mailbox as listed by `Mailbox/get`.
pub struct Mailbox {
    pub id: String,
    pub name: String,
    pub parent_id: Option<String>,
    pub role: Option<String>,
    pub sort_order: i32,
    pub total_emails: u32,
    pub unread_emails: u32,
}

/// A named or bare e-mail address.
pub struct EmailAddress {
    pub name: Option<String>,
    pub email: String,
}

/// A body part reference of a message.
pub struct BodyPart {
    pub part_id: String,
    pub content_type: Option<String>,
}

/// Result of `Email/query`.
pub struct QueryResponse {
    pub ids: Vec<String>,
    pub total: Option<u64>,
}

/// Answer of the upload endpoint.
pub struct BlobUploadResponse {
    pub blob_id: String,
    pub size: u64,
}

/// One entry of the `bodyValues` object: the part id and, when the entry's
/// `value` member is a string, that string.
pub struct BodyValue {
    pub part_id: String,
    pub value: Option<String>,
}

/// One entry of the `keywords` object: the keyword and, when its value is a
/// boolean, that boolean.
pub struct Keyword {
    pub name: String,
    pub flag: Option<bool>,
}

/// A message as fetched by `Email/get`.
pub struct Email {
    pub id: String,
    pub subject: Option<String>,
    pub from: Option<Vec<EmailAddress>>,
    pub to: Option<Vec<EmailAddress>>,
    pub cc: Option<Vec<EmailAddress>>,
    pub message_id: Option<Vec<String>>,
    pub date: Option<String>,
    pub preview: Option<String>,
    pub received_at: Option<String>,
    pub has_attachment: Option<bool>,
    pub keywords: Option<Vec<Keyword>>,
    pub body_values: Option<Vec<BodyValue>>,
    pub text_body: Option<Vec<BodyPart>>,
    pub html_body: Option<Vec<BodyPart>>,
}

/// State of the compose form.
pub struct ComposeState {
    pub to: String,
    pub cc: String,
    pub bcc: String,
    pub subject: String,
    pub body: String,
    pub in_reply_to: Option<String>,
}

impl Default for ComposeState {
    fn default() -> (s: Self)
        ensures
            s.to@.len() == 0,
            s.cc@.len() == 0,
            s.bcc@.len() == 0,
            s.subject@.len() == 0,
            s.body@.len() == 0,
            s.in_reply_to is None,
    {
        ComposeState {
            to: String::new(),
            cc: String::new(),
            bcc: String::new(),
            subject: String::new(),
            body: String::new(),
            in_reply_to: None,
        }
    }
}

/// The string value stored for `part` in `values`: the first entry with
/// that id decides.
pub open spec fn body_value_of(values: Seq<BodyValue>, part: Seq<char>) -> Option<Seq<char>>
    decreases values.len(),
{
    if values.len() == 0 {
        None
    } else if values[0].part_id@ == part {
        match values[0].value {
            Some(v) => Some(v@),
            None => None,
        }
    } else {
        body_value_of(values.drop_first(), part)
    }
}

/// The value of the first part of `parts`, looked up in `values`.
pub open spec fn first_part_value(
    values: Option<Vec<BodyValue>>,
    parts: Option<Vec<BodyPart>>,
) -> Option<Seq<char>> {
    match (values, parts) {
        (Some(bv), Some(ps)) => if ps@.len() > 0 {
            body_value_of(bv@, ps@[0].part_id@)
        } else {
            None
        },
        _ => None,
    }
}

/// The boolean stored for keyword `k`: the first entry with that name decides.
pub open spec fn keyword_flag(keys: Seq<Keyword>, k: Seq<char>) -> Option<bool>
    decreases keys.len(),
{
    if keys.len() == 0 {
        None
    } else if keys[0].name@ == k {
        keys[0].flag
    } else {
        keyword_flag(keys.drop_first(), k)
    }
}

/// What a sender is shown as: the first address's non-empty name, else its
/// address, else nothing.
pub open spec fn spec_from_display(from: Option<Vec<EmailAddress>>) -> Seq<char> {
    match from {
        Some(v) => if v@.len() > 0 {
            match v@[0].name {
                Some(n) => if n@.len() > 0 { n@ } else { v@[0].email@ },
                None => v@[0].email@,
            }
        } else {
            Seq::empty()
        },
        None => Seq::empty(),
    }
}

/// `chrono::DateTime::parse_from_rfc3339(s)` shown as `"%b %d %H:%M"`, when
/// `s` parses.
pub uninterp spec fn rfc3339_short(s: Seq<char>) -> Option<Seq<char>>;

/// Calls `chrono::DateTime::parse_from_rfc3339` and renders a parsed time as
/// month, day, hour and minute in its own offset. The contract only names
/// the result.
#[verifier::external_body]
fn short_rfc3339(s: &str) -> (r: Option<String>)
    ensures
        match r {
            Some(x) => rfc3339_short(s@) == Some(x@),
            None => rfc3339_short(s@) is None,
        },
{
    chrono::DateTime::parse_from_rfc3339(s).ok().map(|dt| dt.format("%b %d %H:%M").to_string())
}

/// The short date shown for a message: its `date`, or when it has none its
/// `receivedAt`, rendered; empty when that does not parse.
pub open spec fn spec_date_short(date: Option<String>, received_at: Option<String>) -> Seq<char> {
    let d = match date {
        Some(d) => Some(d@),
        None => match received_at {
            Some(r) => Some(r@),
            None => None,
        },
    };
    match d {
        Some(s) => match rfc3339_short(s) {
            Some(x) => x,
            None => Seq::empty(),
        },
        None => Seq::empty(),
    }
}

/// `"Re: "` in front of a subject, unless it begins with `"Re: "` or `"re: "`.
pub open spec fn reply_subject(subject: Option<String>) -> Seq<char> {
    match subject {
        Some(s) => if has_prefix(s@, "Re: "@) || has_prefix(s@, "re: "@) {
            s@
        } else {
            "Re: "@ + s@
        },
        None => Seq::empty(),
    }
}

/// `"Fwd: "` in front of a subject, unless it begins with `"Fwd: "` or `"fwd: "`.
pub open spec fn forward_subject(subject: Option<String>) -> Seq<char> {
    match subject {
        Some(s) => if has_prefix(s@, "Fwd: "@) || has_prefix(s@, "fwd: "@) {
            s@
        } else {
            "Fwd: "@ + s@
        },
        None => Seq::empty(),
    }
}

/// Each line prefixed with `"> "` and ended with a line feed.
pub open spec fn quote_lines(ls: Seq<Seq<char>>) -> Seq<char>
    decreases ls.len(),
{
    if ls.len() == 0 {
        Seq::empty()
    } else {
        quote_lines(ls.drop_last()) + "> "@ + ls.last() + "\n"@
    }
}

/// Body of a reply: an attribution line and the quoted text.
pub open spec fn reply_body(text: Option<Seq<char>>, from: Seq<char>, date: Seq<char>) -> Seq<char> {
    match text {
        Some(t) => "\n\nOn "@ + date + ", "@ + from + " wrote:\n"@ + quote_lines(str_lines(t)),
        None => Seq::empty(),
    }
}

/// Body of a forward: a header block and the original text.
pub open spec fn forward_body(
    text: Option<Seq<char>>,
    from: Seq<char>,
    date: Seq<char>,
    subject: Option<String>,
) -> Seq<char> {
    let subj = match subject {
        Some(s) => s@,
        None => "(no subject)"@,
    };
    match text {
        Some(t) => "\n\n---------- Forwarded message ----------\nFrom: "@ + from + "\nDate: "@
            + date + "\nSubject: "@ + subj + "\n\n"@ + t,
        None => Seq::empty(),
    }
}

/// The address a reply goes to: the first sender's address.
pub open spec fn reply_to_address(from: Option<Vec<EmailAddress>>) -> Seq<char> {
    match from {
        Some(v) => if v@.len() > 0 { v@[0].email@ } else { Seq::empty() },
        None => Seq::empty(),
    }
}

/// The message id a reply refers to.
pub open spec fn first_message_id(ids: Option<Vec<String>>) -> Option<Seq<char>> {
    match ids {
        Some(v) => if v@.len() > 0 { Some(v@[0]@) } else { None },
        None => None,
    }
}

/// Looks up the string value of `part`.
fn find_body_value(values: &Vec<BodyValue>, part: &String) -> (r: Option<String>)
    ensures
        match r {
            Some(x) => body_value_of(values@, part@) == Some(x@),
            None => body_value_of(values@, part@) is None,
        },
{
    let mut i: usize = 0;
    assert(values@.skip(0) =~= values@);
    while i < values.len()
        invariant
            i <= values@.len(),
            body_value_of(values@, part@) == body_value_of(values@.skip(i as int), part@),
        decreases values@.len() - i,
    {
        assert(values@.skip(i as int)[0] == values@[i as int]);
        assert(values@.skip(i as int).drop_first() =~= values@.skip(i + 1));
        if values[i].part_id == *part {
            return match &values[i].value {
                Some(v) => Some(v.clone()),
                None => None,
            };
        }
        i = i + 1;
    }
    None
}

/// Value of the first of `parts` in `values`.
fn first_part_body(values: &Option<Vec<BodyValue>>, parts: &Option<Vec<BodyPart>>) -> (r: Option<String>)
    ensures
        match r {
            Some(x) => first_part_value(*values, *parts) == Some(x@),
            None => first_part_value(*values, *parts) is None,
        },
{
    match (values, parts) {
        (Some(bv), Some(ps)) => {
            if ps.len() > 0 {
                find_body_value(bv, &ps[0].part_id)
            } else {
                None
            }
        },
        _ => None,
    }
}

/// Quotes each line of `ls`.
fn quote_all(ls: &Vec<Vec<char>>) -> (r: Vec<char>)
    ensures
        r@ == quote_lines(views(ls@)),
{
    let ghost lv = views(ls@);
    let mut r: Vec<char> = Vec::new();
    let mut i: usize = 0;
    while i < ls.len()
        invariant
            i <= ls@.len(),
            lv == views(ls@),
            r@ == quote_lines(lv.take(i as int)),
        decreases ls@.len() - i,
    {
        assert(lv.take(i + 1).drop_last() =~= lv.take(i as int));
        append_str(&mut r, "> ");
        append_chars(&mut r, &ls[i]);
        append_str(&mut r, "\n");
        i = i + 1;
    }
    assert(lv.take(ls@.len() as int) =~= lv);
    r
}

impl Email {
    /// Text of the first plain-text body part, when it was fetched.
    pub fn text_body_value(&self) -> (r: Option<String>)
        ensures
            match r {
                Some(x) => first_part_value(self.body_values, self.text_body) == Some(x@),
                None => first_part_value(self.body_values, self.text_body) is None,
            },
    {
        first_part_body(&self.body_values, &self.text_body)
    }

    /// Text of the first HTML body part, when it was fetched.
    pub fn html_body_value(&self) -> (r: Option<String>)
        ensures
            match r {
                Some(x) => first_part_value(self.body_values, self.html_body) == Some(x@),
                None => first_part_value(self.body_values, self.html_body) is None,
            },
    {
        first_part_body(&self.body_values, &self.html_body)
    }

    /// The sender as shown in lists: name when there is one, else address.
    pub fn from_display(&self) -> (s: String)
        ensures
            s@ == spec_from_display(self.from),
    {
        match &self.from {
            Some(v) => {
                if v.len() > 0 {
                    let a = &v[0];
                    match &a.name {
                        Some(n) => {
                            if n.as_str().unicode_len() > 0 {
                                return n.clone();
                            }
                        },
                        None => {},
                    }
                    a.email.clone()
                } else {
                    String::new()
                }
            },
            None => String::new(),
        }
    }

    /// Date for the message list, such as `Mar 05 14:07`; empty when the
    /// message carries no date that parses.
    pub fn date_short(&self) -> (s: String)
        ensures
            s@ == spec_date_short(self.date, self.received_at),
    {
        let d: Option<&String> = match &self.date {
            Some(d) => Some(d),
            None => match &self.received_at {
                Some(r) => Some(r),
                None => None,
            },
        };
        match d {
            Some(s) => match short_rfc3339(s.as_str()) {
                Some(x) => x,
                None => String::new(),
            },
            None => String::new(),
        }
    }

    /// The message carries the `$seen` keyword set to true.
    pub fn is_read(&self) -> (b: bool)
        ensures
            b == match self.keywords {
                Some(k) => keyword_flag(k@, "$seen"@) == Some(true),
                None => false,
            },
    {
        match &self.keywords {
            Some(keys) => {
                let mut i: usize = 0;
                assert(keys@.skip(0) =~= keys@);
                while i < keys.len()
                    invariant
                        i <= keys@.len(),
                        self.keywords matches Some(k) && k@ == keys@,
                        keyword_flag(keys@, "$seen"@) == keyword_flag(keys@.skip(i as int), "$seen"@),
                    decreases keys@.len() - i,
                {
                    assert(keys@.skip(i as int)[0] == keys@[i as int]);
                    assert(keys@.skip(i as int).drop_first() =~= keys@.skip(i + 1));
                    let n = chars_of(keys[i].name.as_str());
                    if crate::text::eq_str(&n, "$seen") {
                        assert(keyword_flag(keys@.skip(i as int), "$seen"@) == keys@[i as int].flag);
                        return match keys[i].flag {
                            Some(f) => f,
                            None => false,
                        };
                    }
                    i = i + 1;
                }
                false
            },
            None => false,
        }
    }
}

/// Reply subject for an optional subject.
fn make_reply_subject(subject: &Option<String>) -> (s: String)
    ensures
        s@ == reply_subject(*subject),
{
    match subject {
        Some(s) => {
            let v = chars_of(s.as_str());
            if starts_with_str(&v, "Re: ") || starts_with_str(&v, "re: ") {
                s.clone()
            } else {
                let mut r = chars_of("Re: ");
                append_chars(&mut r, &v);
                string_of(&r)
            }
        },
        None => String::new(),
    }
}

/// Forward subject for an optional subject.
fn make_forward_subject(subject: &Option<String>) -> (s: String)
    ensures
        s@ == forward_subject(*subject),
{
    match subject {
        Some(s) => {
            let v = chars_of(s.as_str());
            if starts_with_str(&v, "Fwd: ") || starts_with_str(&v, "fwd: ") {
                s.clone()
            } else {
                let mut r = chars_of("Fwd: ");
                append_chars(&mut r, &v);
                string_of(&r)
            }
        },
        None => String::new(),
    }
}

/// The reply draft for `email`, given the date shown in its attribution line.
pub fn reply_draft(email: &Email, date: &str) -> (c: ComposeState)
    ensures
        c.to@ == reply_to_address(email.from),
        c.cc@.len() == 0,
        c.bcc@.len() == 0,
        c.subject@ == reply_subject(email.subject),
        c.body@ == reply_body(
            first_part_value(email.body_values, email.text_body),
            spec_from_display(email.from),
            date@,
        ),
        match c.in_reply_to {
            Some(x) => first_message_id(email.message_id) == Some(x@),
            None => first_message_id(email.message_id) is None,
        },
{
    let to = match &email.from {
        Some(v) => if v.len() > 0 { v[0].email.clone() } else { String::new() },
        None => String::new(),
    };
    let subject = make_reply_subject(&email.subject);
    let body = match email.text_body_value() {
        Some(text) => {
            let from = email.from_display();
            let mut q = chars_of("\n\nOn ");
            append_str(&mut q, date);
            append_str(&mut q, ", ");
            append_str(&mut q, from.as_str());
            append_str(&mut q, " wrote:\n");
            let tv = chars_of(text.as_str());
            let ls = lines_of(&tv);
            let quoted = quote_all(&ls);
            append_chars(&mut q, &quoted);
            string_of(&q)
        },
        None => String::new(),
    };
    let in_reply_to = match &email.message_id {
        Some(ids) => if ids.len() > 0 { Some(ids[0].clone()) } else { None },
        None => None,
    };
    ComposeState {
        to,
        cc: String::new(),
        bcc: String::new(),
        subject,
        body,
        in_reply_to,
    }
}

/// The forward draft for `email`, given the date shown in its header block.
pub fn forward_draft(email: &Email, date: &str) -> (c: ComposeState)
    ensures
        c.to@.len() == 0,
        c.cc@.len() == 0,
        c.bcc@.len() == 0,
        c.subject@ == forward_subject(email.subject),
        c.body@ == forward_body(
            first_part_value(email.body_values, email.text_body),
            spec_from_display(email.from),
            date@,
            email.subject,
        ),
        c.in_reply_to is None,
{
    let subject = make_forward_subject(&email.subject);
    let body = match email.text_body_value() {
        Some(text) => {
            let from = email.from_display();
            let mut b = chars_of("\n\n---------- Forwarded message ----------\nFrom: ");
            append_str(&mut b, from.as_str());
            append_str(&mut b, "\nDate: ");
            append_str(&mut b, date);
            append_str(&mut b, "\nSubject: ");
            match &email.subject {
                Some(s) => append_str(&mut b, s.as_str()),
                None => append_str(&mut b, "(no subject)"),
            }
            append_str(&mut b, "\n\n");
            append_str(&mut b, text.as_str());
            string_of(&b)
        },
        None => String::new(),
    };
    ComposeState {
        to: String::new(),
        cc: String::new(),
        bcc: String::new(),
        subject,
        body,
        in_reply_to: None,
    }
}

/// The reply draft for `email`, its attribution line dated by `date_short`.
pub fn compose_reply(email: &Email) -> (c: ComposeState)
    ensures
        c.to@ == reply_to_address(email.from),
        c.cc@.len() == 0,
        c.bcc@.len() == 0,
        c.subject@ == reply_subject(email.subject),
        c.body@ == reply_body(
            first_part_value(email.body_values, email.text_body),
            spec_from_display(email.from),
            spec_date_short(email.date, email.received_at),
        ),
        match c.in_reply_to {
            Some(x) => first_message_id(email.message_id) == Some(x@),
            None => first_message_id(email.message_id) is None,
        },
{
    let date = email.date_short();
    reply_draft(email, date.as_str())
}

/// The forward draft for `email`, dated by `date_short`.
pub fn compose_forward(email: &Email) -> (c: ComposeState)
    ensures
        c.to@.len() == 0,
        c.cc@.len() == 0,
        c.bcc@.len() == 0,
        c.subject@ == forward_subject(email.subject),
        c.body@ == forward_body(
            first_part_value(email.body_values, email.text_body),
            spec_from_display(email.from),
            spec_date_short(email.date, email.received_at),
            email.subject,
        ),
        c.in_reply_to is None,
{
    let date = email.date_short();
    forward_draft(email, date.as_str())
}

// ---------------------------------------------------------------------------
// Mailbox list and compose fields
// ---------------------------------------------------------------------------

/// Position of a mailbox role in the sidebar: inbox, drafts, sent, archive,
/// junk, trash, then everything else.
pub open spec fn spec_role_rank(role: Option<String>) -> u8 {
    match role {
        Some(r) => if r@ == "inbox"@ {
            0
        } else if r@ == "drafts"@ {
            1
        } else if r@ == "sent"@ {
            2
        } else if r@ == "archive"@ {
            3
        } else if r@ == "junk"@ {
            4
        } else if r@ == "trash"@ {
            5
        } else {
            6
        },
        None => 6,
    }
}

/// The sidebar rank of a role.
pub fn role_rank(role: &Option<String>) -> (r: u8)
    ensures
        r == spec_role_rank(*role),
{
    match role {
        Some(s) => {
            let v = chars_of(s.as_str());
            if eq_str(&v, "inbox") {
                0
            } else if eq_str(&v, "drafts") {
                1
            } else if eq_str(&v, "sent") {
                2
            } else if eq_str(&v, "archive") {
                3
            } else if eq_str(&v, "junk") {
                4
            } else if eq_str(&v, "trash") {
                5
            } else {
                6
            }
        },
        None => 6,
    }
}

/// Insert `x` after every mailbox whose rank is not above its own.
pub open spec fn insert_by_rank(s: Seq<Mailbox>, x: Mailbox) -> Seq<Mailbox>
    decreases s.len(),
{
    if s.len() == 0 || spec_role_rank(s.last().role) <= spec_role_rank(x.role) {
        s.push(x)
    } else {
        insert_by_rank(s.drop_last(), x).push(s.last())
    }
}

/// Stable sort of mailboxes by the rank of their role.
pub open spec fn sort_by_rank(s: Seq<Mailbox>) -> Seq<Mailbox>
    decreases s.len(),
{
    if s.len() == 0 {
        s
    } else {
        insert_by_rank(sort_by_rank(s.drop_last()), s.last())
    }
}

/// Ranks never decrease along `s`.
pub open spec fn rank_sorted(s: Seq<Mailbox>) -> bool {
    forall|i: int, j: int| 0 <= i <= j < s.len() ==> spec_role_rank(s[i].role) <= spec_role_rank(s[j].role)
}

proof fn lemma_insert_by_rank_at(s: Seq<Mailbox>, x: Mailbox, j: int)
    requires
        0 <= j <= s.len(),
        forall|m: int| j <= m < s.len() ==> spec_role_rank(#[trigger] s[m].role) > spec_role_rank(x.role),
        j == 0 || spec_role_rank(s[j - 1].role) <= spec_role_rank(x.role),
    ensures
        insert_by_rank(s, x) == s.insert(j, x),
    decreases s.len() - j,
{
    if j < s.len() {
        lemma_insert_by_rank_at(s.drop_last(), x, j);
        assert(s.drop_last().insert(j, x).push(s.last()) =~= s.insert(j, x));
    } else {
        assert(s.push(x) =~= s.insert(j, x));
    }
}

/// Order mailboxes for the sidebar by role (stably).
pub fn sort_mailboxes(mailboxes: Vec<Mailbox>) -> (sorted: Vec<Mailbox>)
    ensures
        sorted@ == sort_by_rank(mailboxes@),
{
    let ghost orig = mailboxes@;
    let n = mailboxes.len();
    let mut sorted: Vec<Mailbox> = Vec::new();
    let mut rest = mailboxes;
    let mut i: usize = 0;
    while rest.len() > 0
        invariant
            i + rest@.len() == orig.len(),
            n == orig.len(),
            rest@ == orig.skip(i as int),
            sorted@ == sort_by_rank(orig.take(i as int)),
        decreases rest@.len(),
    {
        let x = rest.remove(0);
        proof {
            assert(x == orig[i as int]);
            assert(rest@ =~= orig.skip(i + 1));
        }
        let ghost sv = sorted@;
        let xr = role_rank(&x.role);
        let mut j = sorted.len();
        while j > 0 && role_rank(&sorted[j - 1].role) > xr
            invariant
                j <= sorted@.len(),
                sv == sorted@,
                xr == spec_role_rank(x.role),
                forall|m: int| j <= m < sv.len() ==> spec_role_rank(#[trigger] sv[m].role) > spec_role_rank(x.role),
            decreases j,
        {
            j = j - 1;
        }
        proof {
            lemma_insert_by_rank_at(sv, x, j as int);
            assert(orig.take(i + 1).drop_last() =~= orig.take(i as int));
        }
        sorted.insert(j, x);
        i = i + 1;
    }
    assert(orig.take(i as int) =~= orig);
    sorted
}

proof fn lemma_insert_by_rank_sorted(s: Seq<Mailbox>, x: Mailbox)
    requires
        rank_sorted(s),
    ensures
        rank_sorted(insert_by_rank(s, x)),
        insert_by_rank(s, x).to_multiset() == s.to_multiset().insert(x),
    decreases s.len(),
{
    broadcast use vstd::multiset::group_multiset_axioms;
    if s.len() == 0 || spec_role_rank(s.last().role) <= spec_role_rank(x.role) {
        s.to_multiset_ensures();
    } else {
        let t = s.drop_last();
        assert(rank_sorted(t));
        lemma_insert_by_rank_sorted(t, x);
        let r = insert_by_rank(t, x);
        assert forall|i: int| 0 <= i < r.len() implies spec_role_rank(r[i].role) <= spec_role_rank(s.last().role) by {
            assert(r.to_multiset().contains(r[i])) by {
                r.to_multiset_ensures();
            }
            assert(t.to_multiset().insert(x).contains(r[i]));
            if r[i] != x {
                assert(t.to_multiset().contains(r[i]));
                t.to_multiset_ensures();
                let m = choose|m: int| 0 <= m < t.len() && t[m] == r[i];
                assert(s[m] == t[m]);
            }
        }
        r.to_multiset_ensures();
        t.to_multiset_ensures();
        assert(t.push(s.last()) =~= s);
        assert(t.to_multiset().insert(x).insert(s.last()) =~= t.to_multiset().insert(s.last()).insert(x));
    }
}

/// The sidebar order is a sort: ranks ascend, and the mailboxes are the same
/// mailboxes.
pub proof fn law_mailbox_sort(s: Seq<Mailbox>)
    ensures
        rank_sorted(sort_by_rank(s)),
        sort_by_rank(s).to_multiset() == s.to_multiset(),
    decreases s.len(),
{
    broadcast use vstd::multiset::group_multiset_axioms;
    if s.len() > 0 {
        law_mailbox_sort(s.drop_last());
        lemma_insert_by_rank_sorted(sort_by_rank(s.drop_last()), s.last());
        s.drop_last().to_multiset_ensures();
        assert(s.drop_last().push(s.last()) =~= s);
    } else {
        s.to_multiset_ensures();
        assert(s.to_multiset() =~= vstd::multiset::Multiset::empty());
    }
}

/// The id of the first mailbox with role `role`.
pub open spec fn mailbox_with_role(s: Seq<Mailbox>, role: Seq<char>) -> Option<Seq<char>>
    decreases s.len(),
{
    if s.len() == 0 {
        None
    } else if s[0].role matches Some(r) && r@ == role {
        Some(s[0].id@)
    } else {
        mailbox_with_role(s.drop_first(), role)
    }
}

/// Find a mailbox id by role.
pub fn find_mailbox(mailboxes: &Vec<Mailbox>, role: &str) -> (r: Option<String>)
    ensures
        match r {
            Some(id) => mailbox_with_role(mailboxes@, role@) == Some(id@),
            None => mailbox_with_role(mailboxes@, role@) is None,
        },
{
    let rv = chars_of(role);
    let mut i: usize = 0;
    assert(mailboxes@.skip(0) =~= mailboxes@);
    while i < mailboxes.len()
        invariant
            i <= mailboxes@.len(),
            rv@ == role@,
            mailbox_with_role(mailboxes@, role@) == mailbox_with_role(mailboxes@.skip(i as int), role@),
        decreases mailboxes@.len() - i,
    {
        assert(mailboxes@.skip(i as int)[0] == mailboxes@[i as int]);
        assert(mailboxes@.skip(i as int).drop_first() =~= mailboxes@.skip(i + 1));
        match &mailboxes[i].role {
            Some(r) => {
                let v = chars_of(r.as_str());
                if eq_chars(&v, &rv) {
                    return Some(mailboxes[i].id.clone());
                }
            },
            None => {},
        }
        i = i + 1;
    }
    None
}

/// The addresses typed in a To or Cc field: comma-separated, trimmed, empty
/// entries dropped.
pub open spec fn spec_address_list(field: Seq<char>) -> Seq<Seq<char>> {
    split_on(field, ',').map_values(|p: Seq<char>| trim(p)).filter(|p: Seq<char>| p.len() > 0)
}

/// Split a To or Cc field into addresses.
pub fn address_list(field: &str) -> (r: Vec<String>)
    ensures
        r.deep_view() == spec_address_list(field@),
{
    let v = chars_of(field);
    let parts = split_chars(&v, ',');
    let ghost pv = views(parts@);
    let ghost tv = pv.map_values(|p: Seq<char>| trim(p));
    let mut out: Vec<String> = Vec::new();
    let mut i: usize = 0;
    while i < parts.len()
        invariant
            i <= parts@.len(),
            pv == views(parts@),
            pv == split_on(field@, ','),
            tv == pv.map_values(|p: Seq<char>| trim(p)),
            out.deep_view() == tv.take(i as int).filter(|p: Seq<char>| p.len() > 0),
        decreases parts@.len() - i,
    {
        assert(tv.take(i + 1).drop_last() =~= tv.take(i as int));
        assert(tv.take(i + 1).last() == trim(parts@[i as int]@));
        let t = trim_vec(&parts[i]);
        let ghost before = out.deep_view();
        if t.len() > 0 {
            out.push(string_of(&t));
            assert(out.deep_view() =~= before.push(t@));
        }
        proof {
            reveal(Seq::filter);
        }
        i = i + 1;
    }
    assert(tv.take(parts@.len() as int) =~= tv);
    out
}

/// The compose form can be sent: a recipient is typed and no send is running.
pub fn can_send(to: &str, sending: bool) -> (b: bool)
    ensures
        b == (trim(to@).len() > 0 && !sending),
{
    let v = chars_of(to);
    let t = trim_vec(&v);
    t.len() > 0 && !sending
}

/// Replying twice does not stack prefixes: a reply subject is its own reply
/// subject.
pub proof fn law_reply_subject_idempotent(s: String, t: String)
    requires
        t@ == reply_subject(Some(s)),
    ensures
        reply_subject(Some(t)) == t@,
{
    reveal_strlit("Re: ");
    reveal_strlit("re: ");
    let p = "Re: "@;
    if !(has_prefix(s@, "Re: "@) || has_prefix(s@, "re: "@)) {
        assert((p + s@).take(4) =~= p);
    }
}

/// Forwarding twice does not stack prefixes.
pub proof fn law_forward_subject_idempotent(s: String, t: String)
    requires
        t@ == forward_subject(Some(s)),
    ensures
        forward_subject(Some(t)) == t@,
{
    reveal_strlit("Fwd: ");
    reveal_strlit("fwd: ");
    let p = "Fwd: "@;
    if !(has_prefix(s@, "Fwd: "@) || has_prefix(s@, "fwd: "@)) {
        assert((p + s@).take(5) =~= p);
    }
}

} // verus!
