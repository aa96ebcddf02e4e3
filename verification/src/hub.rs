//! The local message hub: a registry of named services, and the decisions
//! taken for each message a connection sends (answer it as the hub, pass
//! it on to the service it names, or report that service missing). The
//! caller runs the WebSocket connections and carries the decisions out.
use vstd::prelude::*;

use crate::text::{append_str, chars_of, eq_chars, eq_str, string_of};

verus! {

// ---------------------------------------------------------------------------
// Messages
// ---------------------------------------------------------------------------

/// An AMP message: its headers in order, and its body.
pub struct AmpMsg {
    pub headers: Vec<(String, String)>,
    pub body: String,
}

/// Abstract form of headers.
pub open spec fn headers_view(h: Seq<(String, String)>) -> Seq<(Seq<char>, Seq<char>)> {
    h.map_values(|e: (String, String)| (e.0@, e.1@))
}

/// The value of header `k`: the first header of that name decides.
pub open spec fn header(h: Seq<(Seq<char>, Seq<char>)>, k: Seq<char>) -> Option<Seq<char>>
    decreases h.len(),
{
    if h.len() == 0 {
        None
    } else if h[0].0 == k {
        Some(h[0].1)
    } else {
        header(h.drop_first(), k)
    }
}

/// Header list after setting `k` to `v`: the first header of that name is
/// replaced, else the header is appended.
pub open spec fn header_set(h: Seq<(Seq<char>, Seq<char>)>, k: Seq<char>, v: Seq<char>) -> Seq<(Seq<char>, Seq<char>)>
    decreases h.len(),
{
    if h.len() == 0 {
        seq![(k, v)]
    } else if h[0].0 == k {
        h.update(0, (k, v))
    } else {
        seq![h[0]] + header_set(h.drop_first(), k, v)
    }
}

impl AmpMsg {
    /// A message without headers or body.
    pub fn new() -> (m: AmpMsg)
        ensures
            m.headers@.len() == 0,
            m.body@.len() == 0,
    {
        AmpMsg { headers: Vec::new(), body: String::new() }
    }

    /// The value of header `k`.
    pub fn get(&self, k: &str) -> (r: Option<String>)
        ensures
            match r {
                Some(v) => header(headers_view(self.headers@), k@) == Some(v@),
                None => header(headers_view(self.headers@), k@) is None,
            },
    {
        let kv = chars_of(k);
        let ghost hv = headers_view(self.headers@);
        let mut i: usize = 0;
        assert(hv.skip(0) =~= hv);
        while i < self.headers.len()
            invariant
                i <= self.headers@.len(),
                hv == headers_view(self.headers@),
                kv@ == k@,
                header(hv, k@) == header(hv.skip(i as int), k@),
            decreases self.headers@.len() - i,
        {
            assert(hv.skip(i as int)[0] == hv[i as int]);
            assert(hv.skip(i as int).drop_first() =~= hv.skip(i + 1));
            let name = chars_of(self.headers[i].0.as_str());
            if eq_chars(&name, &kv) {
                return Some(self.headers[i].1.clone());
            }
            i = i + 1;
        }
        None
    }

    /// Set header `k` to `v`.
    pub fn set(&mut self, k: &str, v: &str)
        ensures
            headers_view(final(self).headers@) == header_set(headers_view(old(self).headers@), k@, v@),
            final(self).body == old(self).body,
    {
        let kv = chars_of(k);
        let ghost hv = headers_view(self.headers@);
        let mut i: usize = 0;
        while i < self.headers.len()
            invariant
                i <= self.headers@.len(),
                self.headers@ == old(self).headers@,
                self.body == old(self).body,
                hv == headers_view(self.headers@),
                kv@ == k@,
                forall|j: int| 0 <= j < i ==> hv[j].0 != k@,
            decreases self.headers@.len() - i,
        {
            let name = chars_of(self.headers[i].0.as_str());
            if eq_chars(&name, &kv) {
                proof {
                    lemma_header_set_at(hv, k@, v@, i as int);
                }
                self.headers.set(i, (k.to_owned(), v.to_owned()));
                assert(headers_view(self.headers@) =~= hv.update(i as int, (k@, v@)));
                return;
            }
            i = i + 1;
        }
        proof {
            lemma_header_set_absent(hv, k@, v@);
        }
        self.headers.push((k.to_owned(), v.to_owned()));
        assert(headers_view(self.headers@) =~= hv.push((k@, v@)));
    }

    /// A message with header `k` set to `v`.
    pub fn with_header(self, k: &str, v: &str) -> (m: AmpMsg)
        ensures
            headers_view(m.headers@) == header_set(headers_view(self.headers@), k@, v@),
            m.body == self.body,
    {
        let mut m = self;
        m.set(k, v);
        m
    }
}

proof fn lemma_header_set_at(h: Seq<(Seq<char>, Seq<char>)>, k: Seq<char>, v: Seq<char>, i: int)
    requires
        0 <= i < h.len(),
        h[i].0 == k,
        forall|j: int| 0 <= j < i ==> h[j].0 != k,
    ensures
        header_set(h, k, v) == h.update(i, (k, v)),
    decreases i,
{
    if i > 0 {
        lemma_header_set_at(h.drop_first(), k, v, i - 1);
        assert(seq![h[0]] + h.drop_first().update(i - 1, (k, v)) =~= h.update(i, (k, v)));
    }
}

proof fn lemma_header_set_absent(h: Seq<(Seq<char>, Seq<char>)>, k: Seq<char>, v: Seq<char>)
    requires
        forall|j: int| 0 <= j < h.len() ==> h[j].0 != k,
    ensures
        header_set(h, k, v) == h.push((k, v)),
    decreases h.len(),
{
    if h.len() > 0 {
        lemma_header_set_absent(h.drop_first(), k, v);
        assert(seq![h[0]] + h.drop_first().push((k, v)) =~= h.push((k, v)));
    }
}

// ---------------------------------------------------------------------------
// Registry
// ---------------------------------------------------------------------------

/// Connection of each registered service name.
pub struct Registry {
    pub entries: Vec<(String, u64)>,
}

/// Abstract form of registry entries.
pub open spec fn entries_view(e: Seq<(String, u64)>) -> Seq<(Seq<char>, u64)> {
    e.map_values(|x: (String, u64)| (x.0@, x.1))
}

/// The connection registered under `name`.
pub open spec fn lookup(e: Seq<(Seq<char>, u64)>, name: Seq<char>) -> Option<u64> {
    if exists|i: int| 0 <= i < e.len() && e[i].0 == name {
        Some(e[choose|i: int| 0 <= i < e.len() && e[i].0 == name].1)
    } else {
        None
    }
}

/// Names appear once.
pub open spec fn unique_names(e: Seq<(Seq<char>, u64)>) -> bool {
    forall|i: int, j: int| 0 <= i < j < e.len() ==> #[trigger] e[i].0 != #[trigger] e[j].0
}

proof fn lemma_lookup_at(e: Seq<(Seq<char>, u64)>, i: int)
    requires
        unique_names(e),
        0 <= i < e.len(),
    ensures
        lookup(e, e[i].0) == Some(e[i].1),
{
    let w = choose|w: int| 0 <= w < e.len() && e[w].0 == e[i].0;
    assert(0 <= w < e.len() && e[w].0 == e[i].0);
    if w < i {
        assert(e[w].0 != e[i].0);
    }
    if i < w {
        assert(e[i].0 != e[w].0);
    }
}

impl Registry {
    /// Abstract form of the registry.
    pub open spec fn view_entries(&self) -> Seq<(Seq<char>, u64)> {
        entries_view(self.entries@)
    }

    /// Each name is registered once.
    pub open spec fn wf(&self) -> bool {
        unique_names(self.view_entries())
    }

    /// An empty registry.
    pub fn new() -> (r: Registry)
        ensures
            r.wf(),
            forall|k: Seq<char>| lookup(r.view_entries(), k) is None,
    {
        let r = Registry { entries: Vec::new() };
        assert(r.view_entries() =~= Seq::<(Seq<char>, u64)>::empty());
        r
    }

    fn position(&self, name: &Vec<char>) -> (r: Option<usize>)
        requires
            self.wf(),
        ensures
            match r {
                Some(i) => i < self.entries@.len() && self.view_entries()[i as int].0 == name@,
                None => forall|i: int| 0 <= i < self.entries@.len() ==> self.view_entries()[i].0 != name@,
            },
    {
        let mut i: usize = 0;
        while i < self.entries.len()
            invariant
                i <= self.entries@.len(),
                forall|j: int| 0 <= j < i ==> self.view_entries()[j].0 != name@,
            decreases self.entries@.len() - i,
        {
            let n = chars_of(self.entries[i].0.as_str());
            if eq_chars(&n, name) {
                return Some(i);
            }
            i = i + 1;
        }
        None
    }

    /// The connection registered under `name`.
    pub fn find(&self, name: &str) -> (r: Option<u64>)
        requires
            self.wf(),
        ensures
            r == lookup(self.view_entries(), name@),
    {
        let nv = chars_of(name);
        match self.position(&nv) {
            Some(i) => {
                proof {
                    lemma_lookup_at(self.view_entries(), i as int);
                }
                Some(self.entries[i].1)
            },
            None => None,
        }
    }

    /// Drop the registration of `name`, if any.
    pub fn remove(&mut self, name: &str)
        requires
            old(self).wf(),
        ensures
            final(self).wf(),
            forall|k: Seq<char>| #[trigger] lookup(final(self).view_entries(), k) == if k == name@ {
                None
            } else {
                lookup(old(self).view_entries(), k)
            },
    {
        let nv = chars_of(name);
        let ghost e0 = self.view_entries();
        match self.position(&nv) {
            Some(i) => {
                self.entries.remove(i);
                let ghost e1 = self.view_entries();
                assert(e1 =~= e0.remove(i as int));
                assert forall|k: Seq<char>| #[trigger] lookup(e1, k) == if k == name@ {
                    None
                } else {
                    lookup(e0, k)
                } by {
                    if exists|j: int| 0 <= j < e1.len() && e1[j].0 == k {
                        let j = choose|j: int| 0 <= j < e1.len() && e1[j].0 == k;
                        lemma_lookup_at(e1, j);
                        let jj = if j < i { j } else { j + 1 };
                        assert(e0[jj] == e1[j]);
                        lemma_lookup_at(e0, jj);
                        if k == name@ {
                            assert(e0[i as int].0 == e0[jj].0);
                        }
                    } else {
                        if k != name@ && exists|j: int| 0 <= j < e0.len() && e0[j].0 == k {
                            let j = choose|j: int| 0 <= j < e0.len() && e0[j].0 == k;
                            if j < i {
                                assert(e1[j] == e0[j]);
                            } else if j > i {
                                assert(e1[j - 1] == e0[j]);
                            }
                        }
                    }
                }
            },
            None => {
                assert forall|k: Seq<char>| #[trigger] lookup(e0, k) == if k == name@ {
                    None
                } else {
                    lookup(e0, k)
                } by {}
            },
        }
    }

    /// Register `name` for connection `conn`, replacing an earlier
    /// registration of that name.
    pub fn insert(&mut self, name: &str, conn: u64)
        requires
            old(self).wf(),
        ensures
            final(self).wf(),
            forall|k: Seq<char>| #[trigger] lookup(final(self).view_entries(), k) == if k == name@ {
                Some(conn)
            } else {
                lookup(old(self).view_entries(), k)
            },
    {
        let nv = chars_of(name);
        let ghost e0 = self.view_entries();
        match self.position(&nv) {
            Some(i) => {
                self.entries.set(i, (name.to_owned(), conn));
                let ghost e1 = self.view_entries();
                assert(e1 =~= e0.update(i as int, (name@, conn)));
                assert forall|k: Seq<char>| #[trigger] lookup(e1, k) == if k == name@ {
                    Some(conn)
                } else {
                    lookup(e0, k)
                } by {
                    lemma_lookup_at(e1, i as int);
                    if k != name@ {
                        if exists|j: int| 0 <= j < e1.len() && e1[j].0 == k {
                            let j = choose|j: int| 0 <= j < e1.len() && e1[j].0 == k;
                            lemma_lookup_at(e1, j);
                            lemma_lookup_at(e0, j);
                        } else if exists|j: int| 0 <= j < e0.len() && e0[j].0 == k {
                            let j = choose|j: int| 0 <= j < e0.len() && e0[j].0 == k;
                            assert(e1[j].0 == k);
                        }
                    }
                }
            },
            None => {
                self.entries.push((name.to_owned(), conn));
                let ghost e1 = self.view_entries();
                assert(e1 =~= e0.push((name@, conn)));
                assert forall|k: Seq<char>| #[trigger] lookup(e1, k) == if k == name@ {
                    Some(conn)
                } else {
                    lookup(e0, k)
                } by {
                    lemma_lookup_at(e1, e0.len() as int);
                    if k != name@ {
                        if exists|j: int| 0 <= j < e1.len() && e1[j].0 == k {
                            let j = choose|j: int| 0 <= j < e1.len() && e1[j].0 == k;
                            lemma_lookup_at(e1, j);
                            lemma_lookup_at(e0, j);
                        } else if exists|j: int| 0 <= j < e0.len() && e0[j].0 == k {
                            let j = choose|j: int| 0 <= j < e0.len() && e0[j].0 == k;
                            assert(e1[j].0 == k);
                        }
                    }
                }
            },
        }
    }

    /// The registered names, each once.
    pub fn names(&self) -> (r: Vec<String>)
        ensures
            r.deep_view() == self.view_entries().map_values(|x: (Seq<char>, u64)| x.0),
    {
        let mut r: Vec<String> = Vec::new();
        let mut i: usize = 0;
        while i < self.entries.len()
            invariant
                i <= self.entries@.len(),
                r.deep_view() == self.view_entries().take(i as int).map_values(|x: (Seq<char>, u64)| x.0),
            decreases self.entries@.len() - i,
        {
            let ghost prev = r.deep_view();
            let name = self.entries[i].0.clone();
            assert(name@ == self.view_entries()[i as int].0);
            r.push(name);
            assert(r.deep_view() =~= prev.push(self.view_entries()[i as int].0));
            assert(self.view_entries().take(i + 1).map_values(|x: (Seq<char>, u64)| x.0) =~= self.view_entries().take(
                i as int,
            ).map_values(|x: (Seq<char>, u64)| x.0).push(self.view_entries()[i as int].0));
            i = i + 1;
        }
        assert(self.view_entries().take(self.entries@.len() as int) =~= self.view_entries());
        r
    }
}

/// Registering then looking up gives the connection back; dropping the
/// name makes it unknown; other names are not touched.
pub proof fn law_register_lookup(e: Seq<(Seq<char>, u64)>, after_insert: Seq<(Seq<char>, u64)>, after_remove: Seq<(Seq<char>, u64)>, name: Seq<char>, other: Seq<char>, conn: u64)
    requires
        forall|k: Seq<char>| #[trigger] lookup(after_insert, k) == if k == name { Some(conn) } else { lookup(e, k) },
        forall|k: Seq<char>| #[trigger] lookup(after_remove, k) == if k == name { None } else { lookup(after_insert, k) },
        other != name,
    ensures
        lookup(after_insert, name) == Some(conn),
        lookup(after_remove, name) is None,
        lookup(after_remove, other) == lookup(e, other),
{
    assert(lookup(after_insert, name) == Some(conn));
    assert(lookup(after_remove, name) is None);
    assert(lookup(after_remove, other) == lookup(after_insert, other));
    assert(lookup(after_insert, other) == lookup(e, other));
}

// ---------------------------------------------------------------------------
// Routing
// ---------------------------------------------------------------------------

/// `serde_json::to_string` of a list of strings: a JSON array.
pub uninterp spec fn json_string_list(names: Seq<Seq<char>>) -> Seq<char>;

/// Calls `serde_json::to_string` on a list of strings; the contract only
/// names the result. Serialising strings cannot fail, so the `[]` fallback
/// of the caller is not reached.
#[verifier::external_body]
fn json_list(names: &Vec<String>) -> (s: String)
    ensures
        s@ == json_string_list(names.deep_view()),
{
    serde_json::to_string(names).unwrap_or_else(|_| "[]".to_string())
}

/// What the hub does with a message.
pub enum HubAction {
    /// Send this message back on the sender's connection.
    Reply(AmpMsg),
    /// Pass the message, as received, on to this connection.
    Forward(u64),
}

/// Headers of a hub answer: a response from the hub with return code `rc`,
/// echoing the request's id when it had one.
pub open spec fn answer_headers(rc: Seq<char>, id: Option<Seq<char>>) -> Seq<(Seq<char>, Seq<char>)> {
    let h = seq![("type"@, "response"@), ("from"@, "hub"@), ("rc"@, rc)];
    match id {
        Some(i) => header_set(h, "id"@, i),
        None => h,
    }
}

fn answer(rc: &str, id: &Option<String>) -> (m: AmpMsg)
    ensures
        headers_view(m.headers@) == answer_headers(
            rc@,
            match id {
                Some(i) => Some(i@),
                None => None,
            },
        ),
        m.body@.len() == 0,
{
    proof {
        reveal_strlit("type");
        reveal_strlit("from");
        reveal_strlit("rc");
        reveal_with_fuel(header_set, 3);
    }
    let m0 = AmpMsg::new();
    assert(headers_view(m0.headers@) =~= Seq::<(Seq<char>, Seq<char>)>::empty());
    let m1 = m0.with_header("type", "response");
    assert(headers_view(m1.headers@) =~= seq![("type"@, "response"@)]);
    assert("type"@[0] != "from"@[0]);
    assert("type"@[0] != "rc"@[0] && "from"@[0] != "rc"@[0]);
    let m2 = m1.with_header("from", "hub");
    assert(seq![("type"@, "response"@)].drop_first() =~= Seq::<(Seq<char>, Seq<char>)>::empty());
    assert(headers_view(m2.headers@) =~= seq![("type"@, "response"@), ("from"@, "hub"@)]);
    let m = m2.with_header("rc", rc);
    assert(seq![("type"@, "response"@), ("from"@, "hub"@)].drop_first() =~= seq![("from"@, "hub"@)]);
    assert(header_set(seq![("from"@, "hub"@)], "rc"@, rc@) =~= seq![("from"@, "hub"@), ("rc"@, rc@)]);
    assert(headers_view(m.headers@) =~= seq![("type"@, "response"@), ("from"@, "hub"@), ("rc"@, rc@)]);
    match id {
        Some(i) => m.with_header("id", i.as_str()),
        None => m,
    }
}

/// An error message with return code 10 (no `type` or `from`).
pub open spec fn error_headers(error: Seq<char>) -> Seq<(Seq<char>, Seq<char>)> {
    seq![("rc"@, "10"@), ("error"@, error)]
}

fn error_msg(error: String) -> (m: AmpMsg)
    ensures
        headers_view(m.headers@) == error_headers(error@),
        m.body@.len() == 0,
{
    proof {
        reveal_strlit("rc");
        reveal_strlit("error");
        reveal_with_fuel(header_set, 3);
    }
    let m0 = AmpMsg::new();
    assert(headers_view(m0.headers@) =~= Seq::<(Seq<char>, Seq<char>)>::empty());
    let m1 = m0.with_header("rc", "10");
    assert(headers_view(m1.headers@) =~= seq![("rc"@, "10"@)]);
    assert("rc"@[0] != "error"@[0]);
    let m = m1.with_header("error", error.as_str());
    assert(seq![("rc"@, "10"@)].drop_first() =~= Seq::<(Seq<char>, Seq<char>)>::empty());
    assert(headers_view(m.headers@) =~= error_headers(error@));
    m
}

/// The answer to a message that is not valid AMP.
pub fn invalid_message(err: &str) -> (m: AmpMsg)
    ensures
        headers_view(m.headers@) == error_headers("Invalid AMP message: "@ + err@),
        m.body@.len() == 0,
{
    let mut v = chars_of("Invalid AMP message: ");
    append_str(&mut v, err);
    error_msg(string_of(&v))
}

/// The answer when the service a message was passed to has gone: it is
/// dropped from the registry.
pub fn on_forward_failed(reg: &mut Registry, target: &str) -> (m: AmpMsg)
    requires
        old(reg).wf(),
    ensures
        final(reg).wf(),
        forall|k: Seq<char>| #[trigger] lookup(final(reg).view_entries(), k) == if k == target@ {
            None
        } else {
            lookup(old(reg).view_entries(), k)
        },
        headers_view(m.headers@) == error_headers("Service '"@ + target@ + "' disconnected"@),
{
    reg.remove(target);
    let mut v = chars_of("Service '");
    append_str(&mut v, target);
    append_str(&mut v, "' disconnected");
    error_msg(string_of(&v))
}

/// A connection closed: its service, if it registered one, is dropped.
pub fn on_disconnect(reg: &mut Registry, service: &Option<String>)
    requires
        old(reg).wf(),
    ensures
        final(reg).wf(),
        forall|k: Seq<char>| #[trigger] lookup(final(reg).view_entries(), k) == match service {
            Some(s) => if k == s@ { None } else { lookup(old(reg).view_entries(), k) },
            None => lookup(old(reg).view_entries(), k),
        },
{
    match service {
        Some(s) => reg.remove(s.as_str()),
        None => {},
    }
}

/// Where a message goes: the service its `to` header names, the hub when
/// it names none.
pub open spec fn target_of(h: Seq<(Seq<char>, Seq<char>)>) -> Seq<char> {
    match header(h, "to"@) {
        Some(t) => t,
        None => "hub"@,
    }
}

/// The hub's answer to a command addressed to it, with the registry and
/// the connection's service name after it.
pub open spec fn spec_hub_command(
    e: Seq<(Seq<char>, u64)>,
    service: Option<Seq<char>>,
    conn: u64,
    h: Seq<(Seq<char>, Seq<char>)>,
) -> (Option<(Seq<char>, u64)>, Option<Seq<char>>, Seq<(Seq<char>, Seq<char>)>, Seq<char>) {
    // (registration made, new service name, answer headers, answer body)
    let command = match header(h, "command"@) {
        Some(c) => c,
        None => Seq::empty(),
    };
    let id = header(h, "id"@);
    if command == "hub.register"@ {
        match header(h, "from"@) {
            None => (
                None,
                service,
                header_set(answer_headers("10"@, id), "error"@, "hub.register requires 'from' header"@),
                Seq::empty(),
            ),
            Some(from) => (
                Some((from, conn)),
                Some(from),
                header_set(answer_headers("0"@, id), "command"@, "hub.register"@),
                "{\"registered\": \""@ + from + "\"}"@,
            ),
        }
    } else if command == "hub.list"@ {
        (
            None,
            service,
            header_set(answer_headers("0"@, id), "command"@, "hub.list"@),
            json_string_list(e.map_values(|x: (Seq<char>, u64)| x.0)),
        )
    } else if command == "hub.ping"@ {
        (None, service, header_set(answer_headers("0"@, id), "command"@, "hub.ping"@), "{\"pong\": true}"@)
    } else {
        (
            None,
            service,
            header_set(answer_headers("10"@, id), "error"@, "Unknown hub command: '"@ + command + "'"@),
            Seq::empty(),
        )
    }
}

/// Handle one message from connection `conn`, whose registered service
/// name is `service`.
pub fn on_message(reg: &mut Registry, service: &mut Option<String>, conn: u64, msg: &AmpMsg) -> (a: HubAction)
    requires
        old(reg).wf(),
    ensures
        final(reg).wf(),
        ({
            let h = headers_view(msg.headers@);
            let t = target_of(h);
            if t == "hub"@ {
                let (made, name, ah, body) = spec_hub_command(
                    old(reg).view_entries(),
                    match *old(service) {
                        Some(s) => Some(s@),
                        None => None,
                    },
                    conn,
                    h,
                );
                &&& a matches HubAction::Reply(m) && headers_view(m.headers@) == ah && m.body@ == body
                &&& match *final(service) {
                    Some(s) => name == Some(s@),
                    None => name is None,
                }
                &&& match made {
                    Some((from, c)) => forall|k: Seq<char>| #[trigger] lookup(final(reg).view_entries(), k)
                        == if k == from {
                        Some(c)
                    } else {
                        match *old(service) {
                            Some(s) => if k == s@ { None } else { lookup(old(reg).view_entries(), k) },
                            None => lookup(old(reg).view_entries(), k),
                        }
                    },
                    None => final(reg).view_entries() == old(reg).view_entries(),
                }
            } else {
                &&& final(reg).view_entries() == old(reg).view_entries()
                &&& *final(service) == *old(service)
                &&& match lookup(old(reg).view_entries(), t) {
                    Some(c) => a == HubAction::Forward(c),
                    None => a matches HubAction::Reply(m) && headers_view(m.headers@) == error_headers(
                        "Service '"@ + t + "' not found"@,
                    ),
                }
            }
        }),
{
    let target = match msg.get("to") {
        Some(t) => t,
        None => "hub".to_owned(),
    };
    let tv = chars_of(target.as_str());
    if !eq_str(&tv, "hub") {
        return match reg.find(target.as_str()) {
            Some(c) => HubAction::Forward(c),
            None => {
                let mut v = chars_of("Service '");
                append_str(&mut v, target.as_str());
                append_str(&mut v, "' not found");
                HubAction::Reply(error_msg(string_of(&v)))
            },
        };
    }
    let command = match msg.get("command") {
        Some(c) => c,
        None => String::new(),
    };
    let id = msg.get("id");
    let cv = chars_of(command.as_str());
    if eq_str(&cv, "hub.register") {
        match msg.get("from") {
            None => {
                let mut m = answer("10", &id);
                m.set("error", "hub.register requires 'from' header");
                HubAction::Reply(m)
            },
            Some(from) => {
                match service {
                    Some(old_name) => reg.remove(old_name.as_str()),
                    None => {},
                }
                reg.insert(from.as_str(), conn);
                let mut m = answer("0", &id);
                m.set("command", "hub.register");
                let mut b = chars_of("{\"registered\": \"");
                append_str(&mut b, from.as_str());
                append_str(&mut b, "\"}");
                m.body = string_of(&b);
                *service = Some(from);
                HubAction::Reply(m)
            },
        }
    } else if eq_str(&cv, "hub.list") {
        let names = reg.names();
        let mut m = answer("0", &id);
        m.set("command", "hub.list");
        m.body = json_list(&names);
        HubAction::Reply(m)
    } else if eq_str(&cv, "hub.ping") {
        let mut m = answer("0", &id);
        m.set("command", "hub.ping");
        m.body = "{\"pong\": true}".to_owned();
        HubAction::Reply(m)
    } else {
        let mut m = answer("10", &id);
        let mut e = chars_of("Unknown hub command: '");
        append_str(&mut e, command.as_str());
        append_str(&mut e, "'");
        m.set("error", string_of(&e).as_str());
        HubAction::Reply(m)
    }
}

} // verus!
