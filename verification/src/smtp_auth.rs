//! SMTP AUTH PLAIN and AUTH LOGIN exchanges, HTTP Basic credentials, and
//! the password check.
//!
//! The exchange alternates reading a client line and deciding: the caller
//! writes what a [`AuthStep::Send`] holds, reads one line, and hands it to
//! [`AuthExchange::on_response`].
use vstd::prelude::*;
use vstd::utf8::{decode_utf8, valid_utf8};

use base64::Engine;

use crate::smtp_addr::first_pos;
use crate::text::{
    chars_of, find_char, from_utf8_lossy, has_prefix, starts_with_str, str_upper, string_of,
    sub_vec, to_uppercase, trim, trim_vec, utf8_lossy,
};

verus! {

/// What `base64::engine::general_purpose::STANDARD.decode` returns for the
/// bytes of a string: a function of the string alone (`None` for an error).
pub uninterp spec fn base64_decoded(s: Seq<char>) -> Option<Seq<u8>>;

/// Whether `bcrypt::verify(password, hash)` returns `Ok(true)`: a function of
/// the password and the hash alone.
pub uninterp spec fn bcrypt_accepts(password: Seq<char>, hash: Seq<char>) -> bool;

/// Calls `base64::engine::general_purpose::STANDARD.decode`; its error
/// becomes `None`.
#[verifier::external_body]
fn base64_decode(s: &str) -> (r: Option<Vec<u8>>)
    ensures
        match r {
            Some(v) => base64_decoded(s@) == Some(v@),
            None => base64_decoded(s@) is None,
        },
{
    base64::engine::general_purpose::STANDARD.decode(s).ok()
}

/// Calls `bcrypt::verify`; an error counts as a mismatch.
#[verifier::external_body]
fn bcrypt_verify(password: &str, hash: &str) -> (ok: bool)
    ensures
        ok == bcrypt_accepts(password@, hash@),
{
    bcrypt::verify(password, hash).unwrap_or(false)
}

/// Calls `std::str::from_utf8`: it succeeds exactly on valid UTF-8.
#[verifier::external_body]
fn str_from_utf8(b: &[u8]) -> (r: Option<String>)
    ensures
        match r {
            Some(s) => valid_utf8(b@) && s@ == decode_utf8(b@),
            None => !valid_utf8(b@),
        },
{
    std::str::from_utf8(b).ok().map(|s| s.to_string())
}

/// Calls `String::from_utf8`: it succeeds exactly on valid UTF-8.
#[verifier::external_body]
pub(crate) fn string_from_utf8(b: Vec<u8>) -> (r: Option<String>)
    ensures
        match r {
            Some(s) => valid_utf8(b@) && s@ == decode_utf8(b@),
            None => !valid_utf8(b@),
        },
{
    String::from_utf8(b).ok()
}

/// Where an exchange stands.
pub enum AuthExchange {
    /// AUTH PLAIN without an initial response: the encoded credentials come next.
    PlainAwaitingResponse,
    /// AUTH LOGIN: the encoded user name comes next.
    LoginAwaitingUsername,
    /// AUTH LOGIN: the encoded password comes next.
    LoginAwaitingPassword { username: String },
}

/// What the caller does next.
pub enum AuthStep {
    /// Write this line, read the client's answer, hand it to `on_response`.
    Send(String),
    /// Check these credentials.
    Credentials { username: String, password: String },
    /// The credentials are malformed: authentication fails.
    NoCredentials,
    /// The exchange is broken (bad encoding or unknown mechanism): the session ends.
    Error,
}

/// Abstract form of an [`AuthStep`].
pub enum AuthStepView {
    Send(Seq<char>),
    Credentials(Seq<char>, Seq<char>),
    NoCredentials,
    Error,
}

/// Abstract form of an [`AuthExchange`].
pub enum AuthExchangeView {
    PlainAwaitingResponse,
    LoginAwaitingUsername,
    LoginAwaitingPassword(Seq<char>),
}

impl View for AuthStep {
    type V = AuthStepView;

    open spec fn view(&self) -> AuthStepView {
        match self {
            AuthStep::Send(l) => AuthStepView::Send(l@),
            AuthStep::Credentials { username, password } => AuthStepView::Credentials(
                username@,
                password@,
            ),
            AuthStep::NoCredentials => AuthStepView::NoCredentials,
            AuthStep::Error => AuthStepView::Error,
        }
    }
}

impl View for AuthExchange {
    type V = AuthExchangeView;

    open spec fn view(&self) -> AuthExchangeView {
        match self {
            AuthExchange::PlainAwaitingResponse => AuthExchangeView::PlainAwaitingResponse,
            AuthExchange::LoginAwaitingUsername => AuthExchangeView::LoginAwaitingUsername,
            AuthExchange::LoginAwaitingPassword { username } => AuthExchangeView::LoginAwaitingPassword(username@),
        }
    }
}

/// `i` is the first position of byte `x` in `s`.
pub open spec fn is_first_byte(s: Seq<u8>, x: u8, i: int) -> bool {
    &&& 0 <= i < s.len()
    &&& s[i] == x
    &&& forall|j: int| 0 <= j < i ==> s[j] != x
}

/// The NULs of an AUTH PLAIN payload are at `i` and at `i + 1 + j`.
pub open spec fn plain_split_at(d: Seq<u8>, i: int, j: int) -> bool {
    is_first_byte(d, 0u8, i) && is_first_byte(d.skip(i + 1), 0u8, j)
}

/// The parts of an AUTH PLAIN payload `authzid NUL user NUL password`
/// (`splitn(3, NUL)`): user name and password bytes when two NULs occur.
pub open spec fn plain_parts(d: Seq<u8>) -> Option<(Seq<u8>, Seq<u8>)> {
    if exists|i: int, j: int| #[trigger] plain_split_at(d, i, j) {
        let (i, j) = choose|i: int, j: int| #[trigger] plain_split_at(d, i, j);
        Some((d.skip(i + 1).take(j), d.skip(i + 1).skip(j + 1)))
    } else {
        None
    }
}

/// What a decoded PLAIN payload yields.
pub open spec fn spec_plain_credentials(encoded: Seq<char>) -> AuthStepView {
    match base64_decoded(encoded) {
        None => AuthStepView::Error,
        Some(d) => match plain_parts(d) {
            None => AuthStepView::NoCredentials,
            Some((u, p)) => if valid_utf8(u) && valid_utf8(p) {
                AuthStepView::Credentials(decode_utf8(u), decode_utf8(p))
            } else {
                AuthStepView::Error
            },
        },
    }
}

/// The mechanism word and the initial response of `AUTH` arguments (`splitn(2, ' ')`).
pub open spec fn split_auth_args(args: Seq<char>) -> (Seq<char>, Option<Seq<char>>) {
    if args.contains(' ') {
        let p = crate::smtp_addr::first_pos(args, ' ');
        (args.take(p), Some(args.skip(p + 1)))
    } else {
        (args, None)
    }
}

/// How an exchange starts.
pub open spec fn spec_start(args: Seq<char>) -> (Option<AuthExchangeView>, AuthStepView) {
    let (mech, initial) = split_auth_args(args);
    let m = str_upper(mech);
    if m == "PLAIN"@ {
        match initial {
            Some(enc) if enc.len() > 0 => (None, spec_plain_credentials(enc)),
            _ => (Some(AuthExchangeView::PlainAwaitingResponse), AuthStepView::Send("334 "@)),
        }
    } else if m == "LOGIN"@ {
        (Some(AuthExchangeView::LoginAwaitingUsername), AuthStepView::Send("334 VXNlcm5hbWU6"@))
    } else {
        (None, AuthStepView::Error)
    }
}

/// A base64 line decoded to UTF-8 text.
pub open spec fn spec_decode_line(line: Seq<u8>) -> Option<Seq<char>> {
    match base64_decoded(trim(utf8_lossy(line))) {
        None => None,
        Some(d) => if valid_utf8(d) {
            Some(decode_utf8(d))
        } else {
            None
        },
    }
}

/// How an exchange continues with the client's line.
pub open spec fn spec_on_response(st: AuthExchangeView, line: Seq<u8>) -> (Option<AuthExchangeView>, AuthStepView) {
    match st {
        AuthExchangeView::PlainAwaitingResponse => (None, spec_plain_credentials(trim(utf8_lossy(line)))),
        AuthExchangeView::LoginAwaitingUsername => match spec_decode_line(line) {
            None => (None, AuthStepView::Error),
            Some(u) => (Some(AuthExchangeView::LoginAwaitingPassword(u)), AuthStepView::Send("334 UGFzc3dvcmQ6"@)),
        },
        AuthExchangeView::LoginAwaitingPassword(u) => match spec_decode_line(line) {
            None => (None, AuthStepView::Error),
            Some(p) => (None, AuthStepView::Credentials(u, p)),
        },
    }
}

/// Abstract form of an optional exchange state.
pub open spec fn opt_view(o: Option<AuthExchange>) -> Option<AuthExchangeView> {
    match o {
        Some(x) => Some(x@),
        None => None,
    }
}

/// Position of the first `x` in `v`.
fn find_byte(v: &[u8], x: u8) -> (r: Option<usize>)
    ensures
        match r {
            Some(i) => is_first_byte(v@, x, i as int),
            None => forall|j: int| 0 <= j < v@.len() ==> v@[j] != x,
        },
{
    let mut i: usize = 0;
    while i < v.len()
        invariant
            i <= v@.len(),
            forall|j: int| 0 <= j < i ==> v@[j] != x,
        decreases v@.len() - i,
    {
        if v[i] == x {
            return Some(i);
        }
        i = i + 1;
    }
    None
}

fn byte_range(v: &[u8], a: usize, b: usize) -> (r: Vec<u8>)
    requires
        a <= b <= v@.len(),
    ensures
        r@ == v@.subrange(a as int, b as int),
{
    let mut r: Vec<u8> = Vec::new();
    let mut i = a;
    while i < b
        invariant
            a <= i <= b,
            b <= v@.len(),
            r@ == v@.subrange(a as int, i as int),
        decreases b - i,
    {
        r.push(v[i]);
        i = i + 1;
        assert(r@ =~= v@.subrange(a as int, i as int));
    }
    r
}

proof fn lemma_plain_parts(d: Seq<u8>, i: int, j: int)
    requires
        is_first_byte(d, 0u8, i),
        is_first_byte(d.skip(i + 1), 0u8, j),
    ensures
        plain_parts(d) == Some((d.skip(i + 1).take(j), d.skip(i + 1).skip(j + 1))),
{
    assert(plain_split_at(d, i, j));
    let (a, b) = choose|a: int, b: int| #[trigger] plain_split_at(d, a, b);
    assert(plain_split_at(d, a, b));
    if a < i {
        assert(d[a] == 0u8);
    }
    if i < a {
        assert(d[i] == 0u8);
    }
    let e = d.skip(i + 1);
    if b < j {
        assert(e[b] == 0u8);
    }
    if j < b {
        assert(e[j] == 0u8);
    }
    assert(a == i && b == j);
}

/// User name and password of an encoded AUTH PLAIN payload.
pub fn plain_credentials(encoded: &str) -> (r: AuthStep)
    ensures
        r@ == spec_plain_credentials(encoded@),
{
    let d = match base64_decode(encoded) {
        None => return AuthStep::Error,
        Some(d) => d,
    };
    let i = match find_byte(&d, 0u8) {
        None => {
            assert(plain_parts(d@) is None);
            return AuthStep::NoCredentials;
        },
        Some(i) => i,
    };
    let n = d.len();
    let rest = byte_range(&d, i + 1, n);
    assert(rest@ =~= d@.skip(i + 1));
    let j = match find_byte(&rest, 0u8) {
        None => {
            assert(plain_parts(d@) is None) by {
                if exists|a: int, b: int| #[trigger] plain_split_at(d@, a, b) {
                    let (a, b) = choose|a: int, b: int| #[trigger] plain_split_at(d@, a, b);
                    if a < i {
                        assert(d@[a] == 0u8);
                    }
                    if i < a {
                        assert(d@[i as int] == 0u8);
                    }
                    assert(rest@[b] == 0u8);
                }
            }
            return AuthStep::NoCredentials;
        },
        Some(j) => j,
    };
    proof {
        lemma_plain_parts(d@, i as int, j as int);
    }
    let m = rest.len();
    let user = byte_range(&rest, 0, j);
    let pass = byte_range(&rest, j + 1, m);
    assert(user@ =~= rest@.take(j as int));
    assert(pass@ =~= rest@.skip(j + 1));
    let username = match str_from_utf8(&user) {
        None => return AuthStep::Error,
        Some(u) => u,
    };
    let password = match str_from_utf8(&pass) {
        None => return AuthStep::Error,
        Some(p) => p,
    };
    AuthStep::Credentials { username, password }
}

/// A client line decoded from base64 into UTF-8 text.
fn decode_line(line: &[u8]) -> (r: Option<String>)
    ensures
        match r {
            Some(s) => spec_decode_line(line@) == Some(s@),
            None => spec_decode_line(line@) is None,
        },
{
    let text = from_utf8_lossy(line);
    let tv = chars_of(text.as_str());
    let t = trim_vec(&tv);
    let ts = string_of(&t);
    match base64_decode(ts.as_str()) {
        None => None,
        Some(d) => string_from_utf8(d),
    }
}

impl AuthExchange {
    /// Begin an exchange with the arguments of the AUTH command.
    pub fn start(args: &str) -> (r: (Option<AuthExchange>, AuthStep))
        ensures
            (opt_view(r.0), r.1@) == spec_start(args@),
    {
        let v = chars_of(args);
        let (mech, initial) = match find_char(&v, ' ') {
            Some(p) => {
                proof {
                    crate::smtp_addr::lemma_first_pos(v@, ' ', p as int);
                    assert(v@.contains(' '));
                }
                let n = v.len();
                let m = sub_vec(&v, 0, p);
                let i = sub_vec(&v, p + 1, n);
                assert(m@ =~= v@.take(p as int));
                assert(i@ =~= v@.skip(p + 1));
                (m, Some(i))
            },
            None => (v, None),
        };
        let ms = string_of(&mech);
        let upper = to_uppercase(ms.as_str());
        let u = chars_of(upper.as_str());
        if crate::text::eq_str(&u, "PLAIN") {
            match initial {
                Some(enc) => {
                    if enc.len() > 0 {
                        let es = string_of(&enc);
                        return (None, plain_credentials(es.as_str()));
                    }
                },
                None => {},
            }
            (Some(AuthExchange::PlainAwaitingResponse), AuthStep::Send("334 ".to_owned()))
        } else if crate::text::eq_str(&u, "LOGIN") {
            (Some(AuthExchange::LoginAwaitingUsername), AuthStep::Send("334 VXNlcm5hbWU6".to_owned()))
        } else {
            (None, AuthStep::Error)
        }
    }

    /// Continue the exchange with the client's answer line.
    pub fn on_response(self, line: &[u8]) -> (r: (Option<AuthExchange>, AuthStep))
        ensures
            (opt_view(r.0), r.1@) == spec_on_response(self@, line@),
    {
        match self {
            AuthExchange::PlainAwaitingResponse => {
                let text = from_utf8_lossy(line);
                let tv = chars_of(text.as_str());
                let t = trim_vec(&tv);
                let ts = string_of(&t);
                (None, plain_credentials(ts.as_str()))
            },
            AuthExchange::LoginAwaitingUsername => match decode_line(line) {
                None => (None, AuthStep::Error),
                Some(u) => (
                    Some(AuthExchange::LoginAwaitingPassword { username: u }),
                    AuthStep::Send("334 UGFzc3dvcmQ6".to_owned()),
                ),
            },
            AuthExchange::LoginAwaitingPassword { username } => match decode_line(line) {
                None => (None, AuthStep::Error),
                Some(p) => (None, AuthStep::Credentials { username, password: p }),
            },
        }
    }
}

/// AUTH LOGIN asks for the user name, then the password, and hands over
/// exactly the two values the client sent, in that order.
pub proof fn law_login_exchange(user_line: Seq<u8>, pass_line: Seq<u8>, u: Seq<char>, p: Seq<char>)
    requires
        spec_decode_line(user_line) == Some(u),
        spec_decode_line(pass_line) == Some(p),
    ensures
        spec_on_response(AuthExchangeView::LoginAwaitingUsername, user_line) == (
            Some(AuthExchangeView::LoginAwaitingPassword(u)),
            AuthStepView::Send("334 UGFzc3dvcmQ6"@),
        ),
        spec_on_response(AuthExchangeView::LoginAwaitingPassword(u), pass_line) == (
            None::<AuthExchangeView>,
            AuthStepView::Credentials(u, p),
        ),
{
}

/// The e-mail and password of an HTTP `Authorization` value of the form
/// `Basic <base64 of email:password>`, split at the first `:`.
pub open spec fn spec_basic_credentials(header: Seq<char>) -> Option<(Seq<char>, Seq<char>)> {
    if !has_prefix(header, "Basic "@) {
        None
    } else {
        match base64_decoded(header.skip(6)) {
            None => None,
            Some(b) => if !valid_utf8(b) {
                None
            } else {
                let d = decode_utf8(b);
                if d.contains(':') {
                    let p = first_pos(d, ':');
                    Some((d.take(p), d.skip(p + 1)))
                } else {
                    None
                }
            },
        }
    }
}

/// Credentials of an HTTP Basic `Authorization` header value.
pub fn basic_credentials(header: &str) -> (r: Option<(String, String)>)
    ensures
        match r {
            Some((e, p)) => spec_basic_credentials(header@) == Some((e@, p@)),
            None => spec_basic_credentials(header@) is None,
        },
{
    let v = chars_of(header);
    if !starts_with_str(&v, "Basic ") {
        return None;
    }
    proof {
        reveal_strlit("Basic ");
    }
    let n = v.len();
    let rest = sub_vec(&v, 6, n);
    assert(rest@ =~= header@.skip(6));
    let rs = string_of(&rest);
    let bytes = match base64_decode(rs.as_str()) {
        None => return None,
        Some(b) => b,
    };
    let text = match string_from_utf8(bytes) {
        None => return None,
        Some(t) => t,
    };
    let d = chars_of(text.as_str());
    match find_char(&d, ':') {
        None => None,
        Some(p) => {
            proof {
                crate::smtp_addr::lemma_first_pos(d@, ':', p as int);
                assert(d@.contains(':'));
            }
            let m = d.len();
            let user = sub_vec(&d, 0, p);
            let pass = sub_vec(&d, p + 1, m);
            assert(user@ =~= d@.take(p as int));
            assert(pass@ =~= d@.skip(p + 1));
            Some((string_of(&user), string_of(&pass)))
        },
    }
}

/// The account that a password authenticates: `account` is the id and bcrypt
/// hash stored for the user name, if any.
pub fn check_password(account: Option<(i32, String)>, password: &str) -> (r: Option<i32>)
    ensures
        r == match account {
            Some((id, hash)) => if bcrypt_accepts(password@, hash@) {
                Some(id)
            } else {
                None
            },
            None => None,
        },
{
    match account {
        Some((id, hash)) => {
            if bcrypt_verify(password, hash.as_str()) {
                Some(id)
            } else {
                None
            }
        },
        None => None,
    }
}

} // verus!
