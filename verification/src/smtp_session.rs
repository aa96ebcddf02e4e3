//! SMTP session state machine.
//!
//! Handles the SMTP conversation: EHLO → STARTTLS → AUTH → MAIL FROM → RCPT TO → DATA.
//! The session reads no socket itself: the caller hands it each line it read
//! and performs the [`Step`] it gets back (write reply lines, upgrade to TLS,
//! look up a recipient, run the AUTH exchange, deliver the message), then
//! reports the outcome through the matching `on_*` method.
use vstd::prelude::*;

use crate::smtp_addr::{
    check_sliceable, first_pos, parse_mail_from, parse_rcpt_to, sliceable_after,
    spec_parse_mail_from, spec_parse_rcpt_to,
};
use crate::text::{
    append_chars, append_str, chars_of, dec, dec_chars, eq_str, find_char, from_utf8_lossy,
    str_upper, string_of, sub_vec, to_uppercase, trim, trim_end, trim_end_vec, trim_vec,
    utf8_lossy,
};

verus! {

/// Abstract state of a session.
pub struct SessionView {
    pub hostname: Seq<char>,
    pub max_message_size: nat,
    pub tls_configured: bool,
    pub require_auth: bool,
    pub authenticated_account: Option<i32>,
    pub mail_from: Option<Seq<char>>,
    pub rcpt_to: Seq<Seq<char>>,
    pub ehlo_host: Option<Seq<char>>,
    pub tls_active: bool,
    pub data_mode: bool,
    pub data_buf: Seq<u8>,
}

/// What the caller does after handing a line to the session.
pub enum Step {
    /// Write these reply lines (each followed by CRLF) and read the next line.
    Reply(Vec<String>),
    /// Write these reply lines and end the session.
    Quit(Vec<String>),
    /// Write these reply lines, then upgrade the connection to TLS and call
    /// [`Session::begin_tls`].
    StartTls(Vec<String>),
    /// Look up whether the address belongs to a local account, then call
    /// [`Session::on_recipient_checked`].
    CheckRecipient(String),
    /// Run the AUTH exchange with these arguments, then call
    /// [`Session::on_auth_result`].
    Authenticate(String),
    /// The message is complete: deliver it, then call [`Session::on_delivered`].
    Deliver,
    /// The command cannot be sliced at the byte offset it names: the
    /// connection is dropped without a reply.
    Abort,
}

/// Abstract form of a [`Step`].
pub enum StepView {
    Reply(Seq<Seq<char>>),
    Quit(Seq<Seq<char>>),
    StartTls(Seq<Seq<char>>),
    CheckRecipient(Seq<char>),
    Authenticate(Seq<char>),
    Deliver,
    Abort,
}

impl View for Step {
    type V = StepView;

    open spec fn view(&self) -> StepView {
        match self {
            Step::Reply(l) => StepView::Reply(l.deep_view()),
            Step::Quit(l) => StepView::Quit(l.deep_view()),
            Step::StartTls(l) => StepView::StartTls(l.deep_view()),
            Step::CheckRecipient(a) => StepView::CheckRecipient(a@),
            Step::Authenticate(a) => StepView::Authenticate(a@),
            Step::Deliver => StepView::Deliver,
            Step::Abort => StepView::Abort,
        }
    }
}

/// SMTP session state.
pub struct Session {
    pub hostname: String,
    pub max_message_size: usize,
    /// A TLS certificate is configured, so STARTTLS can be offered.
    pub tls_configured: bool,
    pub require_auth: bool,
    pub authenticated_account: Option<i32>,
    pub mail_from: Option<String>,
    pub rcpt_to: Vec<String>,
    pub ehlo_host: Option<String>,
    pub tls_active: bool,
    /// Lines are message content until the lone `.` line.
    pub data_mode: bool,
    pub data_buf: Vec<u8>,
}

impl View for Session {
    type V = SessionView;

    open spec fn view(&self) -> SessionView {
        SessionView {
            hostname: self.hostname@,
            max_message_size: self.max_message_size as nat,
            tls_configured: self.tls_configured,
            require_auth: self.require_auth,
            authenticated_account: self.authenticated_account,
            mail_from: self.mail_from.deep_view(),
            rcpt_to: self.rcpt_to.deep_view(),
            ehlo_host: self.ehlo_host.deep_view(),
            tls_active: self.tls_active,
            data_mode: self.data_mode,
            data_buf: self.data_buf@,
        }
    }
}

impl SessionView {
    /// The state the session keeps between steps.
    pub open spec fn wf(self) -> bool {
        &&& (self.rcpt_to.len() > 0 ==> self.mail_from is Some)
        &&& (self.mail_from is Some ==> self.ehlo_host is Some)
        &&& (self.require_auth && self.mail_from is Some ==> self.authenticated_account is Some)
        &&& (self.authenticated_account is Some ==> self.require_auth && self.tls_active)
        &&& (self.data_mode ==> {
            &&& self.mail_from is Some
            &&& self.rcpt_to.len() > 0
            &&& self.data_buf.len() <= self.max_message_size
        })
    }

    /// STARTTLS can be offered.
    pub open spec fn tls_available(self) -> bool {
        !self.tls_active && self.tls_configured
    }

    /// The session with its mail transaction cleared.
    pub open spec fn reset(self) -> SessionView {
        SessionView { mail_from: None, rcpt_to: Seq::empty(), ..self }
    }
}

/// A single reply line.
pub open spec fn one(l: Seq<char>) -> Seq<Seq<char>> {
    seq![l]
}

/// Greeting line.
pub open spec fn spec_greeting(hostname: Seq<char>) -> Seq<char> {
    "220 "@ + hostname + " ESMTP cosmix-jmap"@
}

/// Lines answering EHLO.
pub open spec fn ehlo_lines(s: SessionView) -> Seq<Seq<char>> {
    seq!["250-"@ + s.hostname, "250-SIZE "@ + dec(s.max_message_size), "250-8BITMIME"@, "250-PIPELINING"@]
        + (if s.tls_available() {
        one("250-STARTTLS"@)
    } else {
        Seq::empty()
    }) + (if s.tls_active && s.require_auth {
        one("250-AUTH PLAIN LOGIN"@)
    } else {
        Seq::empty()
    }) + one("250 ENHANCEDSTATUSCODES"@)
}

/// ASCII letters folded to lower case, as a code point.
pub open spec fn ascii_fold(c: char) -> u32 {
    let u = c as u32;
    if 65 <= u && u <= 90 {
        (u + 32) as u32
    } else {
        u
    }
}

/// `str::eq_ignore_ascii_case` against an ASCII literal.
pub open spec fn eq_ignore_ascii_case(a: Seq<char>, lit: Seq<char>) -> bool {
    a.len() == lit.len() && forall|i: int| 0 <= i < a.len() ==> ascii_fold(a[i]) == ascii_fold(lit[i])
}

/// The line's terminating `.` for the message content.
pub open spec fn is_data_end(l: Seq<u8>) -> bool {
    l == seq![46u8, 13u8, 10u8] || l == seq![46u8, 10u8]
}

/// Dot-unstuffing of one content line.
pub open spec fn unstuff(l: Seq<u8>) -> Seq<u8> {
    if l.len() >= 2 && l[0] == 46u8 && l[1] == 46u8 {
        l.skip(1)
    } else {
        l
    }
}

/// A received command line: decoded and with trailing whitespace removed.
pub open spec fn command_text(buf: Seq<u8>) -> Seq<char> {
    trim_end(utf8_lossy(buf))
}

/// The verb and the trimmed arguments of a command line.
pub open spec fn split_command(line: Seq<char>) -> (Seq<char>, Seq<char>) {
    if line.contains(' ') {
        let p = first_pos(line, ' ');
        (line.take(p), trim(line.skip(p + 1)))
    } else {
        (line, Seq::empty())
    }
}

/// What one content line does in DATA mode.
pub open spec fn spec_data_line(s: SessionView, l: Seq<u8>) -> (SessionView, StepView) {
    if is_data_end(l) {
        (SessionView { data_mode: false, ..s }, StepView::Deliver)
    } else {
        let buf = s.data_buf + unstuff(l);
        if buf.len() > s.max_message_size {
            (
                SessionView { data_mode: false, data_buf: Seq::empty(), ..s }.reset(),
                StepView::Reply(one("552 5.3.4 Message too big"@)),
            )
        } else {
            (SessionView { data_buf: buf, ..s }, StepView::Reply(Seq::empty()))
        }
    }
}

/// What one command does.
pub open spec fn spec_command(s: SessionView, cmd: Seq<char>, args: Seq<char>) -> (
    SessionView,
    StepView,
) {
    let u = str_upper(cmd);
    if u == "EHLO"@ || u == "HELO"@ {
        let t = SessionView { ehlo_host: Some(args), ..s }.reset();
        if eq_ignore_ascii_case(cmd, "EHLO"@) {
            (t, StepView::Reply(ehlo_lines(t)))
        } else {
            (t, StepView::Reply(one("250 "@ + s.hostname)))
        }
    } else if u == "STARTTLS"@ {
        if !s.tls_available() {
            (s, StepView::Reply(one("502 5.5.1 STARTTLS not available"@)))
        } else {
            (s, StepView::StartTls(one("220 2.0.0 Ready to start TLS"@)))
        }
    } else if u == "AUTH"@ {
        if !s.require_auth {
            (s, StepView::Reply(one("502 5.5.1 AUTH not available on this port"@)))
        } else if s.authenticated_account is Some {
            (s, StepView::Reply(one("503 5.5.1 Already authenticated"@)))
        } else if !s.tls_active {
            (s, StepView::Reply(one("530 5.7.0 Must use TLS"@)))
        } else {
            (s, StepView::Authenticate(args))
        }
    } else if u == "MAIL"@ {
        if s.ehlo_host is None {
            (s, StepView::Reply(one("503 5.5.1 Say EHLO first"@)))
        } else if s.require_auth && s.authenticated_account is None {
            (s, StepView::Reply(one("530 5.7.0 Authentication required"@)))
        } else if !sliceable_after(args, "FROM:"@, 5) {
            (s, StepView::Abort)
        } else {
            match spec_parse_mail_from(args) {
                Some(a) => (SessionView { mail_from: Some(a), ..s }, StepView::Reply(one("250 2.1.0 OK"@))),
                None => (s, StepView::Reply(one("501 5.1.7 Bad sender address"@))),
            }
        }
    } else if u == "RCPT"@ {
        if s.mail_from is None {
            (s, StepView::Reply(one("503 5.5.1 MAIL FROM first"@)))
        } else if !sliceable_after(args, "TO:"@, 3) {
            (s, StepView::Abort)
        } else {
            match spec_parse_rcpt_to(args) {
                Some(a) => if !s.require_auth {
                    (s, StepView::CheckRecipient(a))
                } else {
                    (SessionView { rcpt_to: s.rcpt_to.push(a), ..s }, StepView::Reply(one("250 2.1.5 OK"@)))
                },
                None => (s, StepView::Reply(one("501 5.1.3 Bad recipient address"@))),
            }
        }
    } else if u == "DATA"@ {
        if s.mail_from is None || s.rcpt_to.len() == 0 {
            (s, StepView::Reply(one("503 5.5.1 MAIL FROM and RCPT TO required"@)))
        } else {
            (
                SessionView { data_mode: true, data_buf: Seq::empty(), ..s },
                StepView::Reply(one("354 Start mail input; end with <CRLF>.<CRLF>"@)),
            )
        }
    } else if u == "RSET"@ {
        (s.reset(), StepView::Reply(one("250 2.0.0 OK"@)))
    } else if u == "NOOP"@ {
        (s, StepView::Reply(one("250 2.0.0 OK"@)))
    } else if u == "QUIT"@ {
        (s, StepView::Quit(one("221 2.0.0 Bye"@)))
    } else {
        (s, StepView::Reply(one("502 5.5.2 Command not recognized"@)))
    }
}

/// What one received line does.
pub open spec fn spec_on_line(s: SessionView, l: Seq<u8>) -> (SessionView, StepView) {
    if s.data_mode {
        spec_data_line(s, l)
    } else {
        let (cmd, args) = split_command(command_text(l));
        spec_command(s, cmd, args)
    }
}

/// A `String` with the characters of a literal.
fn lit(s: &str) -> (r: String)
    ensures
        r@ == s@,
{
    s.to_owned()
}

/// A single reply line.
fn one_line(s: &str) -> (r: Vec<String>)
    ensures
        r.deep_view() == one(s@),
{
    let mut v = Vec::new();
    v.push(lit(s));
    assert(v.deep_view() =~= one(s@));
    v
}

/// A `String` holding `prefix` followed by `rest`.
fn prefixed(prefix: &str, rest: &[char]) -> (r: String)
    ensures
        r@ == prefix@ + rest@,
{
    let mut v = chars_of(prefix);
    append_chars(&mut v, rest);
    string_of(&v)
}

/// ASCII case-insensitive comparison against a literal.
fn eq_ignore_ascii_case_str(a: &[char], lit: &str) -> (b: bool)
    ensures
        b == eq_ignore_ascii_case(a@, lit@),
{
    let l = chars_of(lit);
    if a.len() != l.len() {
        return false;
    }
    let mut i: usize = 0;
    while i < a.len()
        invariant
            a@.len() == l@.len(),
            l@ == lit@,
            i <= a@.len(),
            forall|j: int| 0 <= j < i ==> ascii_fold(a@[j]) == ascii_fold(l@[j]),
        decreases a@.len() - i,
    {
        let x = a[i] as u32;
        let y = l[i] as u32;
        let fx: u32 = if 65 <= x && x <= 90 { x + 32 } else { x };
        let fy: u32 = if 65 <= y && y <= 90 { y + 32 } else { y };
        if fx != fy {
            assert(ascii_fold(a@[i as int]) != ascii_fold(l@[i as int]));
            return false;
        }
        i = i + 1;
    }
    true
}

/// Dot-unstuff `line` onto the end of `buf`.
fn append_unstuffed(buf: &mut Vec<u8>, line: &[u8])
    ensures
        final(buf)@ == old(buf)@ + unstuff(line@),
{
    let start: usize = if line.len() >= 2 && line[0] == 46u8 && line[1] == 46u8 {
        1
    } else {
        0
    };
    let mut i = start;
    while i < line.len()
        invariant
            start <= i <= line@.len(),
            buf@ == old(buf)@ + line@.subrange(start as int, i as int),
        decreases line@.len() - i,
    {
        buf.push(line[i]);
        i = i + 1;
        assert(buf@ =~= old(buf)@ + line@.subrange(start as int, i as int));
    }
    assert(line@.subrange(start as int, line@.len() as int) =~= unstuff(line@));
}

/// The line is the lone `.` that ends the message content.
fn is_data_end_line(l: &[u8]) -> (b: bool)
    ensures
        b == is_data_end(l@),
{
    let r = (l.len() == 3 && l[0] == 46u8 && l[1] == 13u8 && l[2] == 10u8) || (l.len() == 2
        && l[0] == 46u8 && l[1] == 10u8);
    proof {
        if l@.len() == 3 && l@[0] == 46u8 && l@[1] == 13u8 && l@[2] == 10u8 {
            assert(l@ =~= seq![46u8, 13u8, 10u8]);
        }
        if l@.len() == 2 && l@[0] == 46u8 && l@[1] == 10u8 {
            assert(l@ =~= seq![46u8, 10u8]);
        }
    }
    r
}

impl Session {
    /// A new session; `tls_configured` says whether a TLS certificate is
    /// available for STARTTLS.
    pub fn new(
        hostname: String,
        max_message_size: usize,
        tls_configured: bool,
        require_auth: bool,
        tls_active: bool,
    ) -> (s: Session)
        ensures
            s@ == (SessionView {
                hostname: hostname@,
                max_message_size: max_message_size as nat,
                tls_configured,
                require_auth,
                authenticated_account: None,
                mail_from: None,
                rcpt_to: Seq::empty(),
                ehlo_host: None,
                tls_active,
                data_mode: false,
                data_buf: Seq::empty(),
            }),
            s@.wf(),
    {
        let s = Session {
            hostname,
            max_message_size,
            tls_configured,
            require_auth,
            authenticated_account: None,
            mail_from: None,
            rcpt_to: Vec::new(),
            ehlo_host: None,
            tls_active,
            data_mode: false,
            data_buf: Vec::new(),
        };
        assert(s@.rcpt_to =~= Seq::<Seq<char>>::empty());
        s
    }

    /// Clear the mail transaction (sender and recipients).
    pub fn reset_transaction(&mut self)
        ensures
            final(self)@ == old(self)@.reset(),
    {
        self.mail_from = None;
        self.rcpt_to.clear();
        assert(self@.rcpt_to =~= Seq::<Seq<char>>::empty());
        assert(self@ =~= old(self)@.reset());
    }

    /// STARTTLS can be offered on this connection.
    pub fn tls_available(&self) -> (b: bool)
        ensures
            b == self@.tls_available(),
    {
        !self.tls_active && self.tls_configured
    }

    /// The greeting sent when the connection opens.
    pub fn greeting(&self) -> (l: String)
        ensures
            l@ == spec_greeting(self.hostname@),
    {
        let h = chars_of(self.hostname.as_str());
        let mut v = chars_of("220 ");
        append_chars(&mut v, &h);
        append_str(&mut v, " ESMTP cosmix-jmap");
        string_of(&v)
    }

    /// The connection was upgraded to TLS: the EHLO state and the mail
    /// transaction start afresh.
    pub fn begin_tls(&mut self)
        requires
            old(self)@.wf(),
            !old(self)@.data_mode,
        ensures
            final(self)@ == (SessionView { tls_active: true, ehlo_host: None, ..old(self)@ }).reset(),
            final(self)@.wf(),
    {
        self.tls_active = true;
        self.ehlo_host = None;
        self.reset_transaction();
    }

    /// Handle one received line (including its line ending).
    pub fn on_line(&mut self, line: &[u8]) -> (r: Step)
        requires
            old(self)@.wf(),
        ensures
            (final(self)@, r@) == spec_on_line(old(self)@, line@),
            final(self)@.wf(),
            r is Deliver ==> {
                &&& final(self)@.mail_from is Some
                &&& final(self)@.rcpt_to.len() > 0
                &&& (final(self)@.require_auth ==> final(self)@.authenticated_account is Some)
            },
    {
        if self.data_mode {
            self.on_data_line(line)
        } else {
            let text = from_utf8_lossy(line);
            let tv = chars_of(text.as_str());
            let l = trim_end_vec(&tv);
            match find_char(&l, ' ') {
                Some(p) => {
                    proof {
                        crate::smtp_addr::lemma_first_pos(l@, ' ', p as int);
                        assert(l@.contains(' '));
                    }
                    let n = l.len();
                    assert(p < n);
                    let cmd = sub_vec(&l, 0, p);
                    let rest = sub_vec(&l, p + 1, n);
                    let args = trim_vec(&rest);
                    assert(cmd@ =~= l@.take(p as int));
                    assert(rest@ =~= l@.skip(p + 1));
                    self.on_command(&cmd, &args)
                },
                None => {
                    let args: Vec<char> = Vec::new();
                    assert(args@ =~= Seq::<char>::empty());
                    self.on_command(&l, &args)
                },
            }
        }
    }

    fn on_data_line(&mut self, line: &[u8]) -> (r: Step)
        requires
            old(self)@.wf(),
            old(self)@.data_mode,
        ensures
            (final(self)@, r@) == spec_data_line(old(self)@, line@),
            final(self)@.wf(),
    {
        if is_data_end_line(line) {
            self.data_mode = false;
            return Step::Deliver;
        }
        append_unstuffed(&mut self.data_buf, line);
        if self.data_buf.len() > self.max_message_size {
            self.data_mode = false;
            self.data_buf.clear();
            self.reset_transaction();
            assert(self@.data_buf =~= Seq::<u8>::empty());
            Step::Reply(one_line("552 5.3.4 Message too big"))
        } else {
            let v: Vec<String> = Vec::new();
            assert(v.deep_view() =~= Seq::<Seq<char>>::empty());
            Step::Reply(v)
        }
    }

    fn ehlo_reply(&self) -> (r: Vec<String>)
        ensures
            r.deep_view() == ehlo_lines(self@),
    {
        let h = chars_of(self.hostname.as_str());
        let size = dec_chars(self.max_message_size as u64);
        let mut v: Vec<String> = Vec::new();
        v.push(prefixed("250-", &h));
        v.push(prefixed("250-SIZE ", &size));
        v.push(lit("250-8BITMIME"));
        v.push(lit("250-PIPELINING"));
        let ghost base = v.deep_view();
        if self.tls_available() {
            v.push(lit("250-STARTTLS"));
        }
        let ghost mid = v.deep_view();
        if self.tls_active && self.require_auth {
            v.push(lit("250-AUTH PLAIN LOGIN"));
        }
        let ghost last = v.deep_view();
        v.push(lit("250 ENHANCEDSTATUSCODES"));
        proof {
            assert(base =~= seq![
                "250-"@ + self.hostname@,
                "250-SIZE "@ + dec(self@.max_message_size),
                "250-8BITMIME"@,
                "250-PIPELINING"@,
            ]);
            assert(mid =~= base + (if self@.tls_available() {
                one("250-STARTTLS"@)
            } else {
                Seq::empty()
            }));
            assert(last =~= mid + (if self@.tls_active && self@.require_auth {
                one("250-AUTH PLAIN LOGIN"@)
            } else {
                Seq::empty()
            }));
            assert(v.deep_view() =~= last + one("250 ENHANCEDSTATUSCODES"@));
        }
        v
    }

    fn on_command(&mut self, cmd: &[char], args: &[char]) -> (r: Step)
        requires
            old(self)@.wf(),
            !old(self)@.data_mode,
        ensures
            (final(self)@, r@) == spec_command(old(self)@, cmd@, args@),
            final(self)@.wf(),
    {
        let cs = string_of(cmd);
        let upper = to_uppercase(cs.as_str());
        let u = chars_of(upper.as_str());
        if eq_str(&u, "EHLO") || eq_str(&u, "HELO") {
            self.ehlo_host = Some(string_of(args));
            self.reset_transaction();
            if eq_ignore_ascii_case_str(cmd, "EHLO") {
                Step::Reply(self.ehlo_reply())
            } else {
                let h = chars_of(self.hostname.as_str());
                let mut v = Vec::new();
                v.push(prefixed("250 ", &h));
                assert(v.deep_view() =~= one("250 "@ + self.hostname@));
                Step::Reply(v)
            }
        } else if eq_str(&u, "STARTTLS") {
            if !self.tls_available() {
                Step::Reply(one_line("502 5.5.1 STARTTLS not available"))
            } else {
                Step::StartTls(one_line("220 2.0.0 Ready to start TLS"))
            }
        } else if eq_str(&u, "AUTH") {
            if !self.require_auth {
                Step::Reply(one_line("502 5.5.1 AUTH not available on this port"))
            } else if self.authenticated_account.is_some() {
                Step::Reply(one_line("503 5.5.1 Already authenticated"))
            } else if !self.tls_active {
                Step::Reply(one_line("530 5.7.0 Must use TLS"))
            } else {
                Step::Authenticate(string_of(args))
            }
        } else if eq_str(&u, "MAIL") {
            if self.ehlo_host.is_none() {
                return Step::Reply(one_line("503 5.5.1 Say EHLO first"));
            }
            if self.require_auth && self.authenticated_account.is_none() {
                return Step::Reply(one_line("530 5.7.0 Authentication required"));
            }
            let a = string_of(args);
            if !check_sliceable(a.as_str(), "FROM:", 5) {
                return Step::Abort;
            }
            match parse_mail_from(a.as_str()) {
                Some(addr) => {
                    self.mail_from = Some(addr);
                    Step::Reply(one_line("250 2.1.0 OK"))
                },
                None => Step::Reply(one_line("501 5.1.7 Bad sender address")),
            }
        } else if eq_str(&u, "RCPT") {
            if self.mail_from.is_none() {
                return Step::Reply(one_line("503 5.5.1 MAIL FROM first"));
            }
            let a = string_of(args);
            if !check_sliceable(a.as_str(), "TO:", 3) {
                return Step::Abort;
            }
            match parse_rcpt_to(a.as_str()) {
                Some(addr) => {
                    if !self.require_auth {
                        Step::CheckRecipient(addr)
                    } else {
                        self.rcpt_to.push(addr);
                        assert(self@.rcpt_to =~= old(self)@.rcpt_to.push(addr@));
                        Step::Reply(one_line("250 2.1.5 OK"))
                    }
                },
                None => Step::Reply(one_line("501 5.1.3 Bad recipient address")),
            }
        } else if eq_str(&u, "DATA") {
            if self.mail_from.is_none() || self.rcpt_to.len() == 0 {
                return Step::Reply(one_line("503 5.5.1 MAIL FROM and RCPT TO required"));
            }
            self.data_mode = true;
            self.data_buf.clear();
            assert(self@.data_buf =~= Seq::<u8>::empty());
            Step::Reply(one_line("354 Start mail input; end with <CRLF>.<CRLF>"))
        } else if eq_str(&u, "RSET") {
            self.reset_transaction();
            Step::Reply(one_line("250 2.0.0 OK"))
        } else if eq_str(&u, "NOOP") {
            Step::Reply(one_line("250 2.0.0 OK"))
        } else if eq_str(&u, "QUIT") {
            Step::Quit(one_line("221 2.0.0 Bye"))
        } else {
            Step::Reply(one_line("502 5.5.2 Command not recognized"))
        }
    }

    /// Outcome of a [`Step::CheckRecipient`]: `found` says whether the address
    /// belongs to a local account (a failed lookup counts as not found).
    pub fn on_recipient_checked(&mut self, addr: String, found: bool) -> (r: Vec<String>)
        requires
            old(self)@.wf(),
            old(self)@.mail_from is Some,
            !old(self)@.data_mode,
        ensures
            found ==> final(self)@ == (SessionView {
                rcpt_to: old(self)@.rcpt_to.push(addr@),
                ..old(self)@
            }) && r.deep_view() == one("250 2.1.5 OK"@),
            !found ==> final(self)@ == old(self)@ && r.deep_view() == one(
                "550 5.1.1 User not found"@,
            ),
            final(self)@.wf(),
    {
        if found {
            self.rcpt_to.push(addr);
            assert(self@.rcpt_to =~= old(self)@.rcpt_to.push(addr@));
            one_line("250 2.1.5 OK")
        } else {
            one_line("550 5.1.1 User not found")
        }
    }

    /// Outcome of a [`Step::Authenticate`]: the account that authenticated, if any.
    pub fn on_auth_result(&mut self, account: Option<i32>) -> (r: Vec<String>)
        requires
            old(self)@.wf(),
            old(self)@.require_auth,
            old(self)@.tls_active,
        ensures
            account is Some ==> final(self)@ == (SessionView {
                authenticated_account: account,
                ..old(self)@
            }) && r.deep_view() == one("235 2.7.0 Authentication successful"@),
            account is None ==> final(self)@ == old(self)@ && r.deep_view() == one(
                "535 5.7.8 Authentication failed"@,
            ),
            final(self)@.wf(),
    {
        match account {
            Some(id) => {
                self.authenticated_account = Some(id);
                one_line("235 2.7.0 Authentication successful")
            },
            None => one_line("535 5.7.8 Authentication failed"),
        }
    }

    /// Outcome of a [`Step::Deliver`]: the transaction and the content are cleared.
    pub fn on_delivered(&mut self, ok: bool) -> (r: Vec<String>)
        requires
            old(self)@.wf(),
            !old(self)@.data_mode,
        ensures
            final(self)@ == (SessionView { data_buf: Seq::empty(), ..old(self)@ }).reset(),
            ok ==> r.deep_view() == one("250 2.0.0 Message accepted"@),
            !ok ==> r.deep_view() == one("451 4.3.0 Temporary delivery failure"@),
            final(self)@.wf(),
    {
        let r = if ok {
            one_line("250 2.0.0 Message accepted")
        } else {
            one_line("451 4.3.0 Temporary delivery failure")
        };
        self.reset_transaction();
        self.data_buf.clear();
        assert(self@ =~= (SessionView { data_buf: Seq::empty(), ..old(self)@ }).reset());
        r
    }
}

// ---------------------------------------------------------------------------
// Whole sessions
// ---------------------------------------------------------------------------

/// What the connection hands the session: a received line, or the outcome
/// of the step the session asked for.
pub enum SessionEvent {
    Line(Seq<u8>),
    RecipientChecked(Seq<char>, bool),
    AuthResult(Option<i32>),
    TlsStarted,
    Delivered(bool),
}

/// One event taken by a session in state `s` whose last step was `p`:
/// the next state and step, or `None` where the event cannot come then
/// (a line while an outcome is awaited, an outcome that was not asked for,
/// anything after the session ended).
pub open spec fn spec_next(s: SessionView, p: StepView, e: SessionEvent) -> Option<(SessionView, StepView)> {
    match e {
        SessionEvent::Line(l) => if p is Reply {
            Some(spec_on_line(s, l))
        } else {
            None
        },
        SessionEvent::RecipientChecked(a, found) => if p == StepView::CheckRecipient(a)
            && s.mail_from is Some && !s.data_mode {
            if found {
                Some((SessionView { rcpt_to: s.rcpt_to.push(a), ..s }, StepView::Reply(one("250 2.1.5 OK"@))))
            } else {
                Some((s, StepView::Reply(one("550 5.1.1 User not found"@))))
            }
        } else {
            None
        },
        SessionEvent::AuthResult(acc) => if p is Authenticate && s.require_auth && s.tls_active {
            match acc {
                Some(_) => Some((
                    SessionView { authenticated_account: acc, ..s },
                    StepView::Reply(one("235 2.7.0 Authentication successful"@)),
                )),
                None => Some((s, StepView::Reply(one("535 5.7.8 Authentication failed"@)))),
            }
        } else {
            None
        },
        SessionEvent::TlsStarted => if p is StartTls && !s.data_mode {
            Some((SessionView { tls_active: true, ehlo_host: None, ..s }.reset(), StepView::Reply(Seq::empty())))
        } else {
            None
        },
        SessionEvent::Delivered(ok) => if p is Deliver && !s.data_mode {
            Some((
                SessionView { data_buf: Seq::empty(), ..s }.reset(),
                StepView::Reply(one(if ok {
                    "250 2.0.0 Message accepted"@
                } else {
                    "451 4.3.0 Temporary delivery failure"@
                })),
            ))
        } else {
            None
        },
    }
}

/// A session from state `s` (last step `p`) taking the events in order;
/// `None` if one of them cannot come when it does.
pub open spec fn session_run(s: SessionView, p: StepView, es: Seq<SessionEvent>) -> Option<(SessionView, StepView)>
    decreases es.len(),
{
    if es.len() == 0 {
        Some((s, p))
    } else {
        match session_run(s, p, es.drop_last()) {
            Some(ap) => spec_next(ap.0, ap.1, es.last()),
            None => None,
        }
    }
}

/// State and step after the first `k` events.
pub open spec fn run_prefix(s: SessionView, p: StepView, es: Seq<SessionEvent>, k: int) -> Option<(SessionView, StepView)> {
    session_run(s, p, es.take(k))
}

/// The verb of a command line, upper-cased.
pub open spec fn line_verb(l: Seq<u8>) -> Seq<char> {
    str_upper(split_command(command_text(l)).0)
}

/// One event keeps the mail transaction in order: a sender is set only by
/// an accepted MAIL after EHLO; a recipient is added only with a sender;
/// DATA starts only with a sender and recipients; a MAIL, RCPT or DATA out
/// of order is answered 503 and changes nothing.
pub open spec fn step_in_order(a: SessionView, e: SessionEvent, b: (SessionView, StepView)) -> bool {
    &&& (b.0.mail_from is Some && b.0.mail_from != a.mail_from) ==> {
        &&& e is Line
        &&& a.ehlo_host is Some
        &&& !a.data_mode
        &&& b.1 == StepView::Reply(one("250 2.1.0 OK"@))
    }
    &&& b.0.rcpt_to.len() > a.rcpt_to.len() ==> {
        &&& a.mail_from is Some
        &&& b.0.rcpt_to == a.rcpt_to.push(b.0.rcpt_to.last())
        &&& b.1 == StepView::Reply(one("250 2.1.5 OK"@))
    }
    &&& (b.0.data_mode && !a.data_mode) ==> (e is Line && a.mail_from is Some && a.rcpt_to.len() > 0)
    &&& match e {
        SessionEvent::Line(l) => !a.data_mode ==> {
            &&& (line_verb(l) == "MAIL"@ && a.ehlo_host is None) ==> b == (a, StepView::Reply(
                one("503 5.5.1 Say EHLO first"@),
            ))
            &&& (line_verb(l) == "RCPT"@ && a.mail_from is None) ==> b == (a, StepView::Reply(
                one("503 5.5.1 MAIL FROM first"@),
            ))
            &&& (line_verb(l) == "DATA"@ && (a.mail_from is None || a.rcpt_to.len() == 0)) ==> b == (
                a,
                StepView::Reply(one("503 5.5.1 MAIL FROM and RCPT TO required"@)),
            )
        },
        _ => true,
    }
}

proof fn lemma_verbs_distinct()
    ensures
        "MAIL"@ != "EHLO"@ && "MAIL"@ != "HELO"@ && "MAIL"@ != "STARTTLS"@ && "MAIL"@ != "AUTH"@,
        "RCPT"@ != "EHLO"@ && "RCPT"@ != "HELO"@ && "RCPT"@ != "STARTTLS"@ && "RCPT"@ != "AUTH"@
            && "RCPT"@ != "MAIL"@,
        "DATA"@ != "EHLO"@ && "DATA"@ != "HELO"@ && "DATA"@ != "STARTTLS"@ && "DATA"@ != "AUTH"@
            && "DATA"@ != "MAIL"@ && "DATA"@ != "RCPT"@,
{
    reveal_strlit("MAIL");
    reveal_strlit("RCPT");
    reveal_strlit("DATA");
    reveal_strlit("EHLO");
    reveal_strlit("HELO");
    reveal_strlit("STARTTLS");
    reveal_strlit("AUTH");
    assert("MAIL"@[0] != "EHLO"@[0] && "MAIL"@[0] != "HELO"@[0] && "MAIL"@.len() != "STARTTLS"@.len() && "MAIL"@[0] != "AUTH"@[0]);
    assert("RCPT"@[0] != "EHLO"@[0] && "RCPT"@[0] != "HELO"@[0] && "RCPT"@.len() != "STARTTLS"@.len() && "RCPT"@[0] != "AUTH"@[0] && "RCPT"@[0] != "MAIL"@[0]);
    assert("DATA"@[0] != "EHLO"@[0] && "DATA"@[0] != "HELO"@[0] && "DATA"@.len() != "STARTTLS"@.len() && "DATA"@[0] != "AUTH"@[0] && "DATA"@[0] != "MAIL"@[0] && "DATA"@[0] != "RCPT"@[0]);
}

proof fn lemma_rset_distinct()
    ensures
        "RSET"@ != "EHLO"@ && "RSET"@ != "HELO"@ && "RSET"@ != "STARTTLS"@ && "RSET"@ != "AUTH"@
            && "RSET"@ != "MAIL"@ && "RSET"@ != "RCPT"@ && "RSET"@ != "DATA"@,
{
    reveal_strlit("RSET");
    reveal_strlit("MAIL");
    reveal_strlit("RCPT");
    reveal_strlit("DATA");
    reveal_strlit("EHLO");
    reveal_strlit("HELO");
    reveal_strlit("STARTTLS");
    reveal_strlit("AUTH");
    assert("RSET"@[0] != "EHLO"@[0] && "RSET"@[0] != "HELO"@[0] && "RSET"@.len() != "STARTTLS"@.len()
        && "RSET"@[0] != "AUTH"@[0] && "RSET"@[0] != "MAIL"@[0] && "RSET"@[1] != "RCPT"@[1]
        && "RSET"@[0] != "DATA"@[0]);
}

proof fn lemma_tail_verbs_distinct()
    ensures
        "NOOP"@ != "EHLO"@ && "NOOP"@ != "HELO"@ && "NOOP"@ != "STARTTLS"@ && "NOOP"@ != "AUTH"@
            && "NOOP"@ != "MAIL"@ && "NOOP"@ != "RCPT"@ && "NOOP"@ != "DATA"@ && "NOOP"@ != "RSET"@,
        "QUIT"@ != "EHLO"@ && "QUIT"@ != "HELO"@ && "QUIT"@ != "STARTTLS"@ && "QUIT"@ != "AUTH"@
            && "QUIT"@ != "MAIL"@ && "QUIT"@ != "RCPT"@ && "QUIT"@ != "DATA"@ && "QUIT"@ != "RSET"@
            && "QUIT"@ != "NOOP"@,
{
    reveal_strlit("NOOP");
    reveal_strlit("QUIT");
    reveal_strlit("RSET");
    reveal_strlit("MAIL");
    reveal_strlit("RCPT");
    reveal_strlit("DATA");
    reveal_strlit("EHLO");
    reveal_strlit("HELO");
    reveal_strlit("STARTTLS");
    reveal_strlit("AUTH");
    assert("NOOP"@[0] != "EHLO"@[0] && "NOOP"@[0] != "HELO"@[0] && "NOOP"@.len() != "STARTTLS"@.len()
        && "NOOP"@[0] != "AUTH"@[0] && "NOOP"@[0] != "MAIL"@[0] && "NOOP"@[0] != "RCPT"@[0]
        && "NOOP"@[0] != "DATA"@[0] && "NOOP"@[0] != "RSET"@[0]);
    assert("QUIT"@[0] != "EHLO"@[0] && "QUIT"@[0] != "HELO"@[0] && "QUIT"@.len() != "STARTTLS"@.len()
        && "QUIT"@[0] != "AUTH"@[0] && "QUIT"@[0] != "MAIL"@[0] && "QUIT"@[0] != "RCPT"@[0]
        && "QUIT"@[0] != "DATA"@[0] && "QUIT"@[0] != "RSET"@[0] && "QUIT"@[0] != "NOOP"@[0]);
}

/// Greeting again starts afresh, NOOP does nothing, QUIT ends the session:
/// outside message content, EHLO or HELO records the client's name and
/// clears any transaction; NOOP answers `250 2.0.0 OK` and QUIT answers
/// `221 2.0.0 Bye`, both leaving the session as it was.
pub proof fn law_session_housekeeping(s: SessionView, l: Seq<u8>)
    requires
        !s.data_mode,
    ensures
        (line_verb(l) == "EHLO"@ || line_verb(l) == "HELO"@) ==> {
            &&& spec_on_line(s, l).0.mail_from is None
            &&& spec_on_line(s, l).0.rcpt_to.len() == 0
            &&& spec_on_line(s, l).0.ehlo_host == Some(split_command(command_text(l)).1)
            &&& spec_on_line(s, l).1 is Reply
        },
        line_verb(l) == "NOOP"@ ==> spec_on_line(s, l) == (s, StepView::Reply(one("250 2.0.0 OK"@))),
        line_verb(l) == "QUIT"@ ==> spec_on_line(s, l) == (s, StepView::Quit(one("221 2.0.0 Bye"@))),
{
    lemma_rset_distinct();
    lemma_verbs_distinct();
    lemma_tail_verbs_distinct();
    reveal_strlit("EHLO");
    reveal_strlit("HELO");
    let (cmd, args) = split_command(command_text(l));
    assert(spec_on_line(s, l) == spec_command(s, cmd, args));
}

/// RSET abandons the mail transaction: outside message content, the
/// session afterwards has no sender and no recipients and is otherwise
/// unchanged, the reply is `250 2.0.0 OK`, and a RCPT or DATA that follows
/// is refused with 503 until a new MAIL is accepted.
pub proof fn law_rset_clears_transaction(s: SessionView, l: Seq<u8>, next: Seq<u8>)
    requires
        !s.data_mode,
        line_verb(l) == "RSET"@,
    ensures
        spec_on_line(s, l).0.mail_from is None,
        spec_on_line(s, l).0.rcpt_to.len() == 0,
        spec_on_line(s, l).0 == (SessionView { mail_from: None, rcpt_to: Seq::empty(), ..s }),
        spec_on_line(s, l).1 == StepView::Reply(one("250 2.0.0 OK"@)),
        line_verb(next) == "RCPT"@ ==> spec_on_line(spec_on_line(s, l).0, next) == (
            spec_on_line(s, l).0,
            StepView::Reply(one("503 5.5.1 MAIL FROM first"@)),
        ),
        line_verb(next) == "DATA"@ ==> spec_on_line(spec_on_line(s, l).0, next) == (
            spec_on_line(s, l).0,
            StepView::Reply(one("503 5.5.1 MAIL FROM and RCPT TO required"@)),
        ),
{
    lemma_rset_distinct();
    lemma_verbs_distinct();
    let (cmd, args) = split_command(command_text(l));
    assert(spec_on_line(s, l) == spec_command(s, cmd, args));
    let t = spec_on_line(s, l).0;
    let (c2, a2) = split_command(command_text(next));
    assert(spec_on_line(t, next) == spec_command(t, c2, a2));
}

proof fn lemma_next_in_order(a: SessionView, pa: StepView, e: SessionEvent)
    requires
        a.wf(),
        spec_next(a, pa, e) is Some,
    ensures
        spec_next(a, pa, e).unwrap().0.wf(),
        step_in_order(a, e, spec_next(a, pa, e).unwrap()),
{
    lemma_verbs_distinct();
    match e {
        SessionEvent::Line(l) => {
            if !a.data_mode {
                let (cmd, args) = split_command(command_text(l));
                assert(spec_on_line(a, l) == spec_command(a, cmd, args));
            }
        },
        _ => {},
    }
}

proof fn lemma_prefix_steps(s: SessionView, p: StepView, es: Seq<SessionEvent>)
    requires
        session_run(s, p, es) is Some,
        es.len() > 0,
    ensures
        forall|k: int| 0 <= k < es.len() ==> #[trigger] run_prefix(s, p, es, k) == run_prefix(
            s,
            p,
            es.drop_last(),
            k,
        ),
        run_prefix(s, p, es, es.len() as int) == session_run(s, p, es),
        run_prefix(s, p, es, es.len() - 1) == session_run(s, p, es.drop_last()),
{
    assert forall|k: int| 0 <= k < es.len() implies #[trigger] run_prefix(s, p, es, k) == run_prefix(
        s,
        p,
        es.drop_last(),
        k,
    ) by {
        assert(es.take(k) =~= es.drop_last().take(k));
    }
    assert(es.take(es.len() as int) =~= es);
    assert(es.take(es.len() - 1) =~= es.drop_last());
    assert(es.drop_last().take(es.len() - 1) =~= es.drop_last());
}

/// Over a whole session, whatever lines and outcomes come, every state is
/// well formed and every event keeps the mail transaction in order: MAIL,
/// RCPT and DATA take effect only in that order, and out of order they are
/// answered 503 with the session unchanged.
pub proof fn law_transaction_order(s: SessionView, p: StepView, es: Seq<SessionEvent>)
    requires
        s.wf(),
        session_run(s, p, es) is Some,
    ensures
        forall|k: int| 0 <= k <= es.len() ==> (#[trigger] run_prefix(s, p, es, k)) is Some
            && run_prefix(s, p, es, k).unwrap().0.wf(),
        forall|k: int| 0 <= k < es.len() ==> step_in_order(
            (#[trigger] run_prefix(s, p, es, k)).unwrap().0,
            es[k],
            run_prefix(s, p, es, k + 1).unwrap(),
        ),
    decreases es.len(),
{
    if es.len() == 0 {
        assert(es.take(0) =~= es);
    } else {
        let d = es.drop_last();
        let n = es.len() as int;
        lemma_prefix_steps(s, p, es);
        law_transaction_order(s, p, d);
        let ap = session_run(s, p, d).unwrap();
        assert(run_prefix(s, p, d, n - 1) == session_run(s, p, d)) by {
            assert(d.take(n - 1) =~= d);
        }
        lemma_next_in_order(ap.0, ap.1, es.last());
        assert forall|k: int| 0 <= k <= es.len() implies (#[trigger] run_prefix(s, p, es, k)) is Some
            && run_prefix(s, p, es, k).unwrap().0.wf() by {
            if k < n {
                assert(run_prefix(s, p, d, k) is Some);
            }
        }
        assert forall|k: int| 0 <= k < es.len() implies step_in_order(
            (#[trigger] run_prefix(s, p, es, k)).unwrap().0,
            es[k],
            run_prefix(s, p, es, k + 1).unwrap(),
        ) by {
            if k < n - 1 {
                assert(run_prefix(s, p, d, k) is Some);
                assert(es[k] == d[k]);
            } else {
                assert(es[k] == es.last());
            }
        }
    }
}

/// The event is a MAIL command line.
pub open spec fn is_mail_line(e: SessionEvent) -> bool {
    match e {
        SessionEvent::Line(l) => line_verb(l) == "MAIL"@,
        _ => false,
    }
}

/// The event is a successful AUTH outcome.
pub open spec fn is_auth_success(e: SessionEvent) -> bool {
    match e {
        SessionEvent::AuthResult(acc) => acc is Some,
        _ => false,
    }
}

/// No transaction has started and nobody has authenticated where it is required.
pub open spec fn unauthenticated_idle(a: SessionView) -> bool {
    &&& a.require_auth
    &&& a.authenticated_account is None
    &&& a.mail_from is None
    &&& a.rcpt_to.len() == 0
    &&& !a.data_mode
}

proof fn lemma_next_unauthenticated(a: SessionView, pa: StepView, e: SessionEvent)
    requires
        unauthenticated_idle(a),
        !is_auth_success(e),
        spec_next(a, pa, e) is Some,
    ensures
        unauthenticated_idle(spec_next(a, pa, e).unwrap().0),
        !(spec_next(a, pa, e).unwrap().1 is Deliver),
        is_mail_line(e) ==> {
            ||| spec_next(a, pa, e).unwrap().1 == StepView::Reply(one("503 5.5.1 Say EHLO first"@))
            ||| spec_next(a, pa, e).unwrap().1 == StepView::Reply(
                one("530 5.7.0 Authentication required"@),
            )
        },
{
    lemma_verbs_distinct();
    match e {
        SessionEvent::Line(l) => {
            let (cmd, args) = split_command(command_text(l));
            assert(spec_on_line(a, l) == spec_command(a, cmd, args));
        },
        _ => {},
    }
}

/// Where authentication is required and no AUTH succeeds, no transaction
/// ever starts: every MAIL is answered 503 (no EHLO yet) or 530, the sender
/// and recipients stay empty, and nothing is handed over for delivery.
pub proof fn law_no_transaction_without_auth(s: SessionView, p: StepView, es: Seq<SessionEvent>)
    requires
        unauthenticated_idle(s),
        forall|k: int| 0 <= k < es.len() ==> !is_auth_success(#[trigger] es[k]),
        session_run(s, p, es) is Some,
    ensures
        forall|k: int| 0 <= k <= es.len() ==> (#[trigger] run_prefix(s, p, es, k)) is Some
            && unauthenticated_idle(run_prefix(s, p, es, k).unwrap().0),
        forall|k: int| 1 <= k <= es.len() ==> !((#[trigger] run_prefix(s, p, es, k)).unwrap().1 is Deliver),
        forall|k: int| 0 <= k < es.len() ==> is_mail_line(#[trigger] es[k]) ==> {
            ||| run_prefix(s, p, es, k + 1).unwrap().1 == StepView::Reply(
                one("503 5.5.1 Say EHLO first"@),
            )
            ||| run_prefix(s, p, es, k + 1).unwrap().1 == StepView::Reply(
                one("530 5.7.0 Authentication required"@),
            )
        },
    decreases es.len(),
{
    if es.len() == 0 {
        assert(es.take(0) =~= es);
    } else {
        let d = es.drop_last();
        let n = es.len() as int;
        lemma_prefix_steps(s, p, es);
        assert forall|k: int| 0 <= k < d.len() implies !is_auth_success(#[trigger] d[k]) by {
            assert(d[k] == es[k]);
        }
        law_no_transaction_without_auth(s, p, d);
        let ap = session_run(s, p, d).unwrap();
        assert(run_prefix(s, p, d, n - 1) == session_run(s, p, d)) by {
            assert(d.take(n - 1) =~= d);
        }
        assert(es[n - 1] == es.last());
        lemma_next_unauthenticated(ap.0, ap.1, es.last());
        assert forall|k: int| 0 <= k <= es.len() implies (#[trigger] run_prefix(s, p, es, k)) is Some
            && unauthenticated_idle(run_prefix(s, p, es, k).unwrap().0) by {
            if k < n {
                assert(run_prefix(s, p, d, k) is Some);
            }
        }
        assert forall|k: int| 1 <= k <= es.len() implies !((#[trigger] run_prefix(s, p, es, k)).unwrap().1 is Deliver) by {
            if k < n {
                assert(run_prefix(s, p, d, k) is Some);
            }
        }
        assert forall|k: int| 0 <= k < es.len() && is_mail_line(#[trigger] es[k]) implies {
            ||| run_prefix(s, p, es, k + 1).unwrap().1 == StepView::Reply(
                one("503 5.5.1 Say EHLO first"@),
            )
            ||| run_prefix(s, p, es, k + 1).unwrap().1 == StepView::Reply(
                one("530 5.7.0 Authentication required"@),
            )
        } by {
            if k < n - 1 {
                assert(d[k] == es[k]);
                assert(run_prefix(s, p, d, k + 1) is Some);
            }
        }
    }
}

} // verus!
