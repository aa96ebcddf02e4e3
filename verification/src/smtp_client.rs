//! The client side of outbound SMTP: reading multi-line replies byte by
//! byte, and the dialogue with a remote server (greeting, EHLO or HELO,
//! opportunistic STARTTLS, MAIL FROM, RCPT TO, DATA). The caller does the
//! network work and hands replies in; the dialogue says what to do next.
use vstd::prelude::*;

use crate::text::{
    append_chars, append_str, chars_of, contains_chars, contains_sub, string_of, trim, trim_vec,
};

verus! {

// ---------------------------------------------------------------------------
// Reply reading
// ---------------------------------------------------------------------------

/// Bytes read as characters one for one (each byte is the code point).
pub open spec fn latin1(bs: Seq<u8>) -> Seq<char> {
    bs.map_values(|b: u8| b as char)
}

/// UTF-8 encoding of the characters `latin1(bs)`: bytes below 0x80 stay,
/// the others take two bytes.
pub open spec fn widen(bs: Seq<u8>) -> Seq<u8>
    decreases bs.len(),
{
    if bs.len() == 0 {
        Seq::empty()
    } else {
        let b = bs.last();
        widen(bs.drop_last()) + if b < 0x80 {
            seq![b]
        } else {
            seq![0xC0u8 | (b >> 6u8), 0x80u8 | (b & 0x3Fu8)]
        }
    }
}

/// A reply line is the last one when its fourth byte, in the text the
/// reply is collected in, is a space (`250 ok`, not `250-PIPELINING`).
pub open spec fn is_last_reply_line(line: Seq<u8>) -> bool {
    widen(line).len() >= 4 && widen(line)[3] == 0x20u8
}

/// Abstract state of a [`ReplyReader`].
pub struct ReaderView {
    pub line: Seq<u8>,
    pub text: Seq<char>,
}

/// Effect of one byte: it joins the current line; at LF the line joins the
/// reply text, and the reply is complete when that line is the last one.
pub open spec fn spec_push_byte(r: ReaderView, b: u8) -> (ReaderView, bool) {
    let line = r.line.push(b);
    if b == 10u8 {
        (ReaderView { line: Seq::empty(), text: r.text + latin1(line) }, is_last_reply_line(line))
    } else {
        (ReaderView { line, text: r.text }, false)
    }
}

/// Collects the lines of one SMTP reply.
pub struct ReplyReader {
    pub line: Vec<u8>,
    pub text: Vec<char>,
}

impl View for ReplyReader {
    type V = ReaderView;

    open spec fn view(&self) -> ReaderView {
        ReaderView { line: self.line@, text: self.text@ }
    }
}

/// UTF-8 form of `latin1(bs)`.
fn widen_bytes(bs: &Vec<u8>) -> (w: Vec<u8>)
    ensures
        w@ == widen(bs@),
{
    let mut w: Vec<u8> = Vec::new();
    let mut i: usize = 0;
    while i < bs.len()
        invariant
            i <= bs@.len(),
            w@ == widen(bs@.take(i as int)),
        decreases bs@.len() - i,
    {
        assert(bs@.take(i + 1).drop_last() =~= bs@.take(i as int));
        let b = bs[i];
        if b < 0x80 {
            w.push(b);
            assert(w@ =~= widen(bs@.take(i + 1)));
        } else {
            w.push(0xC0u8 | (b >> 6u8));
            w.push(0x80u8 | (b & 0x3Fu8));
            assert(w@ =~= widen(bs@.take(i + 1)));
        }
        i = i + 1;
    }
    assert(bs@.take(bs@.len() as int) =~= bs@);
    w
}

impl ReplyReader {
    /// A reader with nothing read.
    pub fn new() -> (r: ReplyReader)
        ensures
            r@.line.len() == 0,
            r@.text.len() == 0,
    {
        ReplyReader { line: Vec::new(), text: Vec::new() }
    }

    /// Take one byte; true when it completed the reply.
    pub fn push_byte(&mut self, b: u8) -> (done: bool)
        ensures
            (final(self)@, done) == spec_push_byte(old(self)@, b),
    {
        self.line.push(b);
        if b == 10u8 {
            let ghost t0 = self.text@;
            let mut i: usize = 0;
            while i < self.line.len()
                invariant
                    i <= self.line@.len(),
                    self.line@ == old(self)@.line.push(b),
                    self.text@ == t0 + latin1(self.line@.take(i as int)),
                decreases self.line@.len() - i,
            {
                let c = self.line[i] as char;
                self.text.push(c);
                i = i + 1;
                assert(self.text@ =~= t0 + latin1(self.line@.take(i as int)));
            }
            assert(self.line@.take(self.line@.len() as int) =~= self.line@);
            let w = widen_bytes(&self.line);
            let last = w.len() >= 4 && w[3] == 0x20u8;
            self.line.clear();
            assert(self.line@ =~= Seq::<u8>::empty());
            last
        } else {
            false
        }
    }

    /// The collected reply, surrounding whitespace removed.
    pub fn reply(&self) -> (s: String)
        ensures
            s@ == trim(self@.text),
    {
        let t = trim_vec(&self.text);
        string_of(&t)
    }
}

// ---------------------------------------------------------------------------
// Dialogue
// ---------------------------------------------------------------------------

/// Where the dialogue stands: which reply it waits for.
pub enum ClientPhase {
    Greeting,
    Ehlo,
    Helo,
    StartTls,
    /// Waiting for the TLS handshake, not for a reply.
    Handshake,
    TlsEhlo,
    MailFrom,
    /// Reply to the RCPT TO of the recipient at this index.
    Rcpt(usize),
    Data,
    Body,
    Finished,
}

/// What the caller does next.
pub enum ClientAction {
    /// Write this command line (followed by CRLF) and read the reply.
    Send(String),
    /// Upgrade the connection to TLS, then call [`ClientDialog::on_handshake`].
    UpgradeTls,
    /// Write the dot-stuffed message with its final `.` line and read the reply.
    SendBody,
    /// The message was accepted: send QUIT, ignoring its outcome, and report success.
    Delivered,
    /// Give up with this error.
    Failed(String),
}

/// Abstract form of a [`ClientAction`].
pub enum ActionView {
    Send(Seq<char>),
    UpgradeTls,
    SendBody,
    Delivered,
    Failed(Seq<char>),
}

impl View for ClientAction {
    type V = ActionView;

    open spec fn view(&self) -> ActionView {
        match self {
            ClientAction::Send(c) => ActionView::Send(c@),
            ClientAction::UpgradeTls => ActionView::UpgradeTls,
            ClientAction::SendBody => ActionView::SendBody,
            ClientAction::Delivered => ActionView::Delivered,
            ClientAction::Failed(e) => ActionView::Failed(e@),
        }
    }
}

/// One delivery attempt to one host.
pub struct ClientDialog {
    pub host: String,
    pub helo_host: String,
    pub from: String,
    pub recipients: Vec<String>,
    pub phase: ClientPhase,
}

/// Abstract state of a [`ClientDialog`].
pub struct DialogView {
    pub host: Seq<char>,
    pub helo_host: Seq<char>,
    pub from: Seq<char>,
    pub recipients: Seq<Seq<char>>,
    pub phase: ClientPhase,
}

impl View for ClientDialog {
    type V = DialogView;

    open spec fn view(&self) -> DialogView {
        DialogView {
            host: self.host@,
            helo_host: self.helo_host@,
            from: self.from@,
            recipients: self.recipients.deep_view(),
            phase: self.phase,
        }
    }
}

/// A positive completion reply (`2xx`).
pub open spec fn positive(reply: Seq<char>) -> bool {
    reply.len() > 0 && reply[0] == '2'
}

/// A positive intermediate reply (`3xx`).
pub open spec fn intermediate(reply: Seq<char>) -> bool {
    reply.len() > 0 && reply[0] == '3'
}

/// `what by <host>: <reply>`.
pub open spec fn rejection(what: Seq<char>, host: Seq<char>, reply: Seq<char>) -> Seq<char> {
    what + " by "@ + host + ": "@ + reply
}

/// The command that starts the mail transaction.
pub open spec fn mail_from_cmd(from: Seq<char>) -> Seq<char> {
    "MAIL FROM:<"@ + from + ">"@
}

/// The command that names one recipient.
pub open spec fn rcpt_cmd(rcpt: Seq<char>) -> Seq<char> {
    "RCPT TO:<"@ + rcpt + ">"@
}

/// After the sender was accepted: the first recipient, or DATA when there is none.
pub open spec fn first_rcpt(d: DialogView) -> (ClientPhase, ActionView) {
    if d.recipients.len() > 0 {
        (ClientPhase::Rcpt(0), ActionView::Send(rcpt_cmd(d.recipients[0])))
    } else {
        (ClientPhase::Data, ActionView::Send("DATA"@))
    }
}

/// Next phase and action after a reply.
pub open spec fn spec_on_reply(d: DialogView, reply: Seq<char>) -> (ClientPhase, ActionView) {
    let mail = (ClientPhase::MailFrom, ActionView::Send(mail_from_cmd(d.from)));
    let fail = |what: Seq<char>| (ClientPhase::Finished, ActionView::Failed(rejection(what, d.host, reply)));
    match d.phase {
        ClientPhase::Greeting => if positive(reply) {
            (ClientPhase::Ehlo, ActionView::Send("EHLO "@ + d.helo_host))
        } else {
            (ClientPhase::Finished, ActionView::Failed("Bad greeting from "@ + d.host + ": "@ + reply))
        },
        ClientPhase::Ehlo => if !positive(reply) {
            (ClientPhase::Helo, ActionView::Send("HELO "@ + d.helo_host))
        } else if contains_sub(reply, "STARTTLS"@) {
            (ClientPhase::StartTls, ActionView::Send("STARTTLS"@))
        } else {
            mail
        },
        ClientPhase::Helo => if positive(reply) { mail } else { fail("EHLO/HELO rejected"@) },
        ClientPhase::StartTls => if positive(reply) {
            (ClientPhase::Handshake, ActionView::UpgradeTls)
        } else {
            mail
        },
        ClientPhase::TlsEhlo => if positive(reply) { mail } else { fail("Post-STARTTLS EHLO rejected"@) },
        ClientPhase::MailFrom => if positive(reply) { first_rcpt(d) } else { fail("MAIL FROM rejected"@) },
        ClientPhase::Rcpt(i) => if i + 1 < d.recipients.len() {
            (ClientPhase::Rcpt((i + 1) as usize), ActionView::Send(rcpt_cmd(d.recipients[i + 1])))
        } else {
            (ClientPhase::Data, ActionView::Send("DATA"@))
        },
        ClientPhase::Data => if intermediate(reply) {
            (ClientPhase::Body, ActionView::SendBody)
        } else {
            fail("DATA rejected"@)
        },
        ClientPhase::Body => if positive(reply) {
            (ClientPhase::Finished, ActionView::Delivered)
        } else {
            fail("Message rejected"@)
        },
        _ => (d.phase, ActionView::Failed(Seq::empty())),
    }
}

/// The phase waits for a reply.
pub open spec fn awaits_reply(d: DialogView) -> bool {
    &&& !(d.phase is Handshake)
    &&& !(d.phase is Finished)
    &&& (d.phase matches ClientPhase::Rcpt(i) ==> i < d.recipients.len())
}

fn reject(what: &str, host: &String, reply: &str) -> (a: ClientAction)
    ensures
        a@ == ActionView::Failed(rejection(what@, host@, reply@)),
{
    let mut v = chars_of(what);
    append_str(&mut v, " by ");
    append_str(&mut v, host.as_str());
    append_str(&mut v, ": ");
    append_str(&mut v, reply);
    ClientAction::Failed(string_of(&v))
}

fn command(verb: &str, arg: &String, close: &str) -> (c: ClientAction)
    ensures
        c@ == ActionView::Send(verb@ + arg@ + close@),
{
    let mut v = chars_of(verb);
    append_str(&mut v, arg.as_str());
    append_str(&mut v, close);
    ClientAction::Send(string_of(&v))
}

fn starts_with_char(s: &Vec<char>, c: char) -> (b: bool)
    ensures
        b == (s@.len() > 0 && s@[0] == c),
{
    s.len() > 0 && s[0] == c
}

impl ClientDialog {
    /// A dialogue that waits for the server's greeting.
    pub fn new(host: String, helo_host: String, from: String, recipients: Vec<String>) -> (d: ClientDialog)
        ensures
            d@ == (DialogView {
                host: host@,
                helo_host: helo_host@,
                from: from@,
                recipients: recipients.deep_view(),
                phase: ClientPhase::Greeting,
            }),
    {
        ClientDialog { host, helo_host, from, recipients, phase: ClientPhase::Greeting }
    }

    /// Handle the (trimmed) reply to the last command.
    pub fn on_reply(&mut self, reply: &str) -> (a: ClientAction)
        requires
            awaits_reply(old(self)@),
        ensures
            (final(self)@.phase, a@) == spec_on_reply(old(self)@, reply@),
            final(self)@ == (DialogView { phase: final(self)@.phase, ..old(self)@ }),
            awaits_reply(final(self)@) || final(self)@.phase is Handshake || final(self)@.phase is Finished,
    {
        proof {
            reveal_strlit("");
        }
        let r = chars_of(reply);
        let ok = starts_with_char(&r, '2');
        let (phase, action) = match self.phase {
            ClientPhase::Greeting => {
                if ok {
                    (ClientPhase::Ehlo, command("EHLO ", &self.helo_host, ""))
                } else {
                    let mut v = chars_of("Bad greeting from ");
                    append_str(&mut v, self.host.as_str());
                    append_str(&mut v, ": ");
                    append_chars(&mut v, &r);
                    (ClientPhase::Finished, ClientAction::Failed(string_of(&v)))
                }
            },
            ClientPhase::Ehlo => {
                if !ok {
                    (ClientPhase::Helo, command("HELO ", &self.helo_host, ""))
                } else if contains_chars(&r, &chars_of("STARTTLS")) {
                    (ClientPhase::StartTls, ClientAction::Send("STARTTLS".to_owned()))
                } else {
                    (ClientPhase::MailFrom, command("MAIL FROM:<", &self.from, ">"))
                }
            },
            ClientPhase::Helo => {
                if ok {
                    (ClientPhase::MailFrom, command("MAIL FROM:<", &self.from, ">"))
                } else {
                    (ClientPhase::Finished, reject("EHLO/HELO rejected", &self.host, reply))
                }
            },
            ClientPhase::StartTls => {
                if ok {
                    (ClientPhase::Handshake, ClientAction::UpgradeTls)
                } else {
                    (ClientPhase::MailFrom, command("MAIL FROM:<", &self.from, ">"))
                }
            },
            ClientPhase::TlsEhlo => {
                if ok {
                    (ClientPhase::MailFrom, command("MAIL FROM:<", &self.from, ">"))
                } else {
                    (ClientPhase::Finished, reject("Post-STARTTLS EHLO rejected", &self.host, reply))
                }
            },
            ClientPhase::MailFrom => {
                if !ok {
                    (ClientPhase::Finished, reject("MAIL FROM rejected", &self.host, reply))
                } else if self.recipients.len() > 0 {
                    (ClientPhase::Rcpt(0), command("RCPT TO:<", &self.recipients[0], ">"))
                } else {
                    (ClientPhase::Data, ClientAction::Send("DATA".to_owned()))
                }
            },
            ClientPhase::Rcpt(i) => {
                assert(self.recipients.deep_view().len() == self.recipients@.len());
                if i < self.recipients.len() && i + 1 < self.recipients.len() {
                    (ClientPhase::Rcpt(i + 1), command("RCPT TO:<", &self.recipients[i + 1], ">"))
                } else {
                    (ClientPhase::Data, ClientAction::Send("DATA".to_owned()))
                }
            },
            ClientPhase::Data => {
                if starts_with_char(&r, '3') {
                    (ClientPhase::Body, ClientAction::SendBody)
                } else {
                    (ClientPhase::Finished, reject("DATA rejected", &self.host, reply))
                }
            },
            ClientPhase::Body => {
                if ok {
                    (ClientPhase::Finished, ClientAction::Delivered)
                } else {
                    (ClientPhase::Finished, reject("Message rejected", &self.host, reply))
                }
            },
            ClientPhase::Handshake => (ClientPhase::Handshake, ClientAction::Failed(String::new())),
            ClientPhase::Finished => (ClientPhase::Finished, ClientAction::Failed(String::new())),
        };
        proof {
            reveal_strlit("STARTTLS");
            reveal_strlit("DATA");
        }
        self.phase = phase;
        action
    }

    /// Outcome of the TLS handshake: `None` when it succeeded (the EHLO is
    /// repeated on the secure channel), else the handshake error.
    pub fn on_handshake(&mut self, error: Option<String>) -> (a: ClientAction)
        requires
            old(self)@.phase is Handshake,
        ensures
            final(self)@ == (DialogView { phase: final(self)@.phase, ..old(self)@ }),
            match error {
                None => final(self)@.phase is TlsEhlo && a@ == ActionView::Send(
                    "EHLO "@ + old(self)@.helo_host,
                ),
                Some(e) => final(self)@.phase is Finished && a@ == ActionView::Failed(
                    "STARTTLS TLS handshake failed with "@ + old(self)@.host + ": "@ + e@,
                ),
            },
    {
        proof {
            reveal_strlit("");
        }
        match error {
            None => {
                self.phase = ClientPhase::TlsEhlo;
                command("EHLO ", &self.helo_host, "")
            },
            Some(e) => {
                self.phase = ClientPhase::Finished;
                let mut v = chars_of("STARTTLS TLS handshake failed with ");
                append_str(&mut v, self.host.as_str());
                append_str(&mut v, ": ");
                append_str(&mut v, e.as_str());
                ClientAction::Failed(string_of(&v))
            },
        }
    }
}

/// Only a server that accepted the message body reports it delivered, and
/// it gets there only from the body phase.
pub proof fn law_delivered_needs_accepted_body(d: DialogView, reply: Seq<char>)
    requires
        spec_on_reply(d, reply).1 is Delivered,
    ensures
        d.phase is Body,
        positive(reply),
{
}

/// A rejected greeting, HELO, sender or body ends the attempt.
pub proof fn law_rejection_ends_attempt(d: DialogView, reply: Seq<char>)
    requires
        !positive(reply),
        d.phase is Greeting || d.phase is Helo || d.phase is TlsEhlo || d.phase is MailFrom || d.phase is Body,
    ensures
        spec_on_reply(d, reply).0 is Finished,
        spec_on_reply(d, reply).1 is Failed,
{
}

/// A refused recipient is skipped, not fatal: in the recipient phase the
/// reply, whatever its code, does not change what comes next. The next step
/// is the next recipient's RCPT, or DATA after the last one; the dialogue
/// never ends there.
pub proof fn law_rcpt_reply_never_ends(d: DialogView, reply: Seq<char>, other: Seq<char>)
    requires
        d.phase matches ClientPhase::Rcpt(i) && i < d.recipients.len(),
    ensures
        spec_on_reply(d, reply) == spec_on_reply(d, other),
        !(spec_on_reply(d, reply).0 is Finished),
        !(spec_on_reply(d, reply).1 is Failed),
        d.phase matches ClientPhase::Rcpt(i) && spec_on_reply(d, reply) == if i + 1 < d.recipients.len() {
            (ClientPhase::Rcpt((i + 1) as usize), ActionView::Send("RCPT TO:<"@ + d.recipients[i + 1] + ">"@))
        } else {
            (ClientPhase::Data, ActionView::Send("DATA"@))
        },
{
}

} // verus!
