use cosmix::delivery::{
    address_domain, backoff_minutes, delivery_hosts, failure_actions, group_by_domain,
    count_delivered, is_retryable, mx_hosts_in_order, plan_entry, plan_queue_entry, should_bounce, stuff_message, QueueAction,
};
use cosmix::smtp_addr::{extract_angle_addr, parse_mail_from, parse_rcpt_to};
use cosmix::smtp_auth::{check_password, plain_credentials, AuthExchange, AuthStep};
use cosmix::smtp_client::{ClientAction, ClientDialog, ClientPhase, ReplyReader};
use cosmix::smtp_session::{Session, Step};

fn lines(step: Step) -> Vec<String> {
    match step {
        Step::Reply(l) => l,
        Step::Quit(l) => l,
        Step::StartTls(l) => l,
        _ => panic!("expected reply lines"),
    }
}

#[test]
fn angle_address_is_lowercased() {
    assert_eq!(extract_angle_addr("<Alice@Example.COM>"), Some("alice@example.com".to_string()));
    assert_eq!(extract_angle_addr("<a@b.c> SIZE=100"), Some("a@b.c".to_string()));
    assert_eq!(extract_angle_addr("  <A@b.c> SIZE=100"), Some("<a@b.c>".to_string()));
    assert_eq!(extract_angle_addr("Plain@Addr more"), Some("plain@addr".to_string()));
    assert_eq!(extract_angle_addr("<unclosed"), None);
    assert_eq!(extract_angle_addr("   "), None);
    assert_eq!(extract_angle_addr("<>"), Some(String::new()));
}

#[test]
fn mail_from_and_rcpt_to_arguments() {
    assert_eq!(parse_mail_from("FROM:<Bob@Example.org>"), Some("bob@example.org".to_string()));
    assert_eq!(parse_mail_from("from:<x@y.z>"), Some("x@y.z".to_string()));
    assert_eq!(parse_mail_from("FROM:<>"), Some(String::new()));
    assert_eq!(parse_mail_from("TO:<x@y.z>"), None);
    assert_eq!(parse_rcpt_to("TO:<Carol@Example.net>"), Some("carol@example.net".to_string()));
    assert_eq!(parse_rcpt_to("FROM:<x@y.z>"), None);
}

#[test]
fn smtp_session_full_conversation() {
    let mut s = Session::new("mx.example.com".to_string(), 1000, false, false, false);
    assert_eq!(s.greeting(), "220 mx.example.com ESMTP cosmix-jmap");
    let ehlo = lines(s.on_line(b"EHLO client.example\r\n"));
    assert_eq!(
        ehlo,
        vec![
            "250-mx.example.com".to_string(),
            "250-SIZE 1000".to_string(),
            "250-8BITMIME".to_string(),
            "250-PIPELINING".to_string(),
            "250 ENHANCEDSTATUSCODES".to_string(),
        ]
    );
    assert_eq!(lines(s.on_line(b"MAIL FROM:<Sender@Remote.org>\r\n")), vec!["250 2.1.0 OK".to_string()]);
    match s.on_line(b"RCPT TO:<User@Example.com>\r\n") {
        Step::CheckRecipient(a) => assert_eq!(a, "user@example.com"),
        _ => panic!("expected a recipient check"),
    }
    assert_eq!(s.on_recipient_checked("user@example.com".to_string(), true), vec!["250 2.1.5 OK".to_string()]);
    assert_eq!(
        lines(s.on_line(b"DATA\r\n")),
        vec!["354 Start mail input; end with <CRLF>.<CRLF>".to_string()]
    );
    assert!(lines(s.on_line(b"Subject: hi\r\n")).is_empty());
    assert!(lines(s.on_line(b"..leading dot\r\n")).is_empty());
    assert!(matches!(s.on_line(b".\r\n"), Step::Deliver));
    assert_eq!(s.data_buf, b"Subject: hi\r\n.leading dot\r\n".to_vec());
    assert_eq!(s.mail_from, Some("sender@remote.org".to_string()));
    assert_eq!(s.on_delivered(true), vec!["250 2.0.0 Message accepted".to_string()]);
    assert!(s.mail_from.is_none());
    assert!(s.rcpt_to.is_empty());
    assert_eq!(lines(s.on_line(b"QUIT\r\n")), vec!["221 2.0.0 Bye".to_string()]);
}

#[test]
fn smtp_session_rejects_out_of_order_commands() {
    let mut s = Session::new("h".to_string(), 100, false, false, false);
    assert_eq!(lines(s.on_line(b"MAIL FROM:<a@b.c>\r\n")), vec!["503 5.5.1 Say EHLO first".to_string()]);
    assert_eq!(lines(s.on_line(b"HELO me\r\n")), vec!["250 h".to_string()]);
    assert_eq!(lines(s.on_line(b"RCPT TO:<a@b.c>\r\n")), vec!["503 5.5.1 MAIL FROM first".to_string()]);
    assert_eq!(
        lines(s.on_line(b"DATA\r\n")),
        vec!["503 5.5.1 MAIL FROM and RCPT TO required".to_string()]
    );
    assert_eq!(lines(s.on_line(b"MAIL FROM:\r\n")), vec!["501 5.1.7 Bad sender address".to_string()]);
    assert_eq!(lines(s.on_line(b"STARTTLS\r\n")), vec!["502 5.5.1 STARTTLS not available".to_string()]);
    assert_eq!(
        lines(s.on_line(b"AUTH PLAIN\r\n")),
        vec!["502 5.5.1 AUTH not available on this port".to_string()]
    );
    assert_eq!(lines(s.on_line(b"VRFY x\r\n")), vec!["502 5.5.2 Command not recognized".to_string()]);
    assert_eq!(lines(s.on_line(b"NOOP\r\n")), vec!["250 2.0.0 OK".to_string()]);
    assert_eq!(lines(s.on_line(b"RSET\r\n")), vec!["250 2.0.0 OK".to_string()]);
}

#[test]
fn smtp_session_message_too_big() {
    let mut s = Session::new("h".to_string(), 10, false, false, false);
    lines(s.on_line(b"EHLO me\r\n"));
    lines(s.on_line(b"MAIL FROM:<a@b.c>\r\n"));
    assert!(matches!(s.on_line(b"RCPT TO:<d@e.f>\r\n"), Step::CheckRecipient(_)));
    s.on_recipient_checked("d@e.f".to_string(), true);
    lines(s.on_line(b"DATA\r\n"));
    assert_eq!(
        lines(s.on_line(b"this line is longer than ten bytes\r\n")),
        vec!["552 5.3.4 Message too big".to_string()]
    );
    assert!(!s.data_mode);
    assert!(s.mail_from.is_none());
}

#[test]
fn smtp_session_submission_requires_tls_and_auth() {
    let mut s = Session::new("h".to_string(), 100, true, true, false);
    let ehlo = lines(s.on_line(b"EHLO me\r\n"));
    assert!(ehlo.contains(&"250-STARTTLS".to_string()));
    assert!(!ehlo.contains(&"250-AUTH PLAIN LOGIN".to_string()));
    assert_eq!(lines(s.on_line(b"AUTH PLAIN\r\n")), vec!["530 5.7.0 Must use TLS".to_string()]);
    assert_eq!(
        lines(s.on_line(b"MAIL FROM:<a@b.c>\r\n")),
        vec!["530 5.7.0 Authentication required".to_string()]
    );
    assert_eq!(
        lines(s.on_line(b"STARTTLS\r\n")),
        vec!["220 2.0.0 Ready to start TLS".to_string()]
    );
    s.begin_tls();
    let ehlo = lines(s.on_line(b"EHLO me\r\n"));
    assert!(ehlo.contains(&"250-AUTH PLAIN LOGIN".to_string()));
    assert!(!ehlo.contains(&"250-STARTTLS".to_string()));
    match s.on_line(b"AUTH PLAIN AHVzZXIAcGFzcw==\r\n") {
        Step::Authenticate(a) => assert_eq!(a, "PLAIN AHVzZXIAcGFzcw=="),
        _ => panic!("expected authentication"),
    }
    assert_eq!(s.on_auth_result(None), vec!["535 5.7.8 Authentication failed".to_string()]);
    assert_eq!(s.on_auth_result(Some(7)), vec!["235 2.7.0 Authentication successful".to_string()]);
    assert_eq!(lines(s.on_line(b"AUTH PLAIN\r\n")), vec!["503 5.5.1 Already authenticated".to_string()]);
    assert_eq!(lines(s.on_line(b"MAIL FROM:<a@b.c>\r\n")), vec!["250 2.1.0 OK".to_string()]);
    assert_eq!(lines(s.on_line(b"RCPT TO:<x@y.z>\r\n")), vec!["250 2.1.5 OK".to_string()]);
}

#[test]
fn auth_plain_decodes_credentials() {
    match plain_credentials("AHVzZXIAcGFzcw==") {
        AuthStep::Credentials { username, password } => {
            assert_eq!(username, "user");
            assert_eq!(password, "pass");
        }
        _ => panic!("expected credentials"),
    }
    assert!(matches!(plain_credentials("dXNlcg=="), AuthStep::NoCredentials));
    assert!(matches!(plain_credentials("!!!"), AuthStep::Error));
}

#[test]
fn auth_login_exchange() {
    let (st, step) = AuthExchange::start("LOGIN");
    match step {
        AuthStep::Send(l) => assert_eq!(l, "334 VXNlcm5hbWU6"),
        _ => panic!("expected a prompt"),
    }
    let (st, step) = st.unwrap().on_response(b"dXNlcg==\r\n");
    match step {
        AuthStep::Send(l) => assert_eq!(l, "334 UGFzc3dvcmQ6"),
        _ => panic!("expected a prompt"),
    }
    let (st, step) = st.unwrap().on_response(b"cGFzcw==\r\n");
    assert!(st.is_none());
    match step {
        AuthStep::Credentials { username, password } => {
            assert_eq!(username, "user");
            assert_eq!(password, "pass");
        }
        _ => panic!("expected credentials"),
    }
    let (st, step) = AuthExchange::start("plain");
    assert!(matches!(st, Some(AuthExchange::PlainAwaitingResponse)));
    assert!(matches!(step, AuthStep::Send(ref l) if l == "334 "));
    let (st, step) = AuthExchange::start("CRAM-MD5");
    assert!(st.is_none());
    assert!(matches!(step, AuthStep::Error));
}

#[test]
fn password_check_uses_bcrypt() {
    let hash = bcrypt::hash("secret", 4).unwrap();
    assert_eq!(check_password(Some((3, hash.clone())), "secret"), Some(3));
    assert_eq!(check_password(Some((3, hash)), "wrong"), None);
    assert_eq!(check_password(None, "secret"), None);
}

#[test]
fn recipients_grouped_by_domain() {
    let addrs = vec![
        "a@X.org".to_string(),
        "b@y.org".to_string(),
        "c@x.ORG".to_string(),
        "nodomain".to_string(),
    ];
    let g = group_by_domain(&addrs);
    assert_eq!(
        g,
        vec![
            ("x.org".to_string(), vec!["a@X.org".to_string(), "c@x.ORG".to_string()]),
            ("y.org".to_string(), vec!["b@y.org".to_string()]),
            ("nodomain".to_string(), vec!["nodomain".to_string()]),
        ]
    );
    assert_eq!(address_domain("u@a@Host.Example"), "host.example");
}

#[test]
fn retry_backoff_grows_by_three() {
    let expected = [1i64, 3, 9, 27, 81, 243, 729, 2187, 6561];
    for (i, m) in expected.iter().enumerate() {
        assert_eq!(backoff_minutes(i as i32), *m);
    }
    assert!(is_retryable(9));
    assert!(!is_retryable(10));
}

#[test]
fn queue_plan_for_results() {
    assert_eq!(plan_entry(0, &[true, true]), vec![QueueAction::MarkDelivered]);
    assert_eq!(plan_entry(2, &[true, false]), vec![QueueAction::MarkFailed]);
    assert_eq!(
        plan_entry(9, &[false]),
        vec![QueueAction::MarkPermanentFailure, QueueAction::SendBounce]
    );
    assert_eq!(failure_actions(8), vec![QueueAction::MarkFailed]);
    assert!(should_bounce("a@b.c"));
    assert!(!should_bounce(""));
}

#[test]
fn mx_hosts_sorted_by_preference() {
    let recs = vec![
        (20u16, "mx2.example.com.".to_string()),
        (10u16, "mx1.example.com.".to_string()),
        (20u16, "mx3.example.com".to_string()),
    ];
    assert_eq!(
        mx_hosts_in_order(recs.clone()),
        vec!["mx1.example.com".to_string(), "mx2.example.com".to_string(), "mx3.example.com".to_string()]
    );
    assert_eq!(delivery_hosts(Some(recs), "example.com").len(), 3);
    assert_eq!(delivery_hosts(None, "example.com"), vec!["example.com".to_string()]);
}

#[test]
fn dot_stuffing_of_message() {
    assert_eq!(stuff_message(b"a\n.b\r\nc"), b"a\r\n..b\r\nc\r\n.\r\n".to_vec());
    assert_eq!(stuff_message(b""), b"\r\n.\r\n".to_vec());
}

#[test]
fn reply_reader_collects_multiline_reply() {
    let mut r = ReplyReader::new();
    let mut done = false;
    for b in b"250-first\r\n250 last\r\n" {
        assert!(!done);
        done = r.push_byte(*b);
    }
    assert!(done);
    assert_eq!(r.reply(), "250-first\r\n250 last");
}

#[test]
fn client_dialogue_with_starttls() {
    let mut d = ClientDialog::new(
        "mx.remote".to_string(),
        "me.local".to_string(),
        "a@me.local".to_string(),
        vec!["x@remote".to_string(), "y@remote".to_string()],
    );
    let send = |a: ClientAction| match a {
        ClientAction::Send(c) => c,
        _ => panic!("expected a command"),
    };
    assert_eq!(send(d.on_reply("220 hi")), "EHLO me.local");
    assert_eq!(send(d.on_reply("250-mx.remote\r\n250 STARTTLS")), "STARTTLS");
    assert!(matches!(d.on_reply("220 go ahead"), ClientAction::UpgradeTls));
    assert_eq!(send(d.on_handshake(None)), "EHLO me.local");
    assert_eq!(send(d.on_reply("250 ok")), "MAIL FROM:<a@me.local>");
    assert_eq!(send(d.on_reply("250 ok")), "RCPT TO:<x@remote>");
    assert_eq!(send(d.on_reply("550 no such user")), "RCPT TO:<y@remote>");
    assert_eq!(send(d.on_reply("250 ok")), "DATA");
    assert!(matches!(d.on_reply("354 go"), ClientAction::SendBody));
    assert!(matches!(d.on_reply("250 queued"), ClientAction::Delivered));
    assert!(matches!(d.phase, ClientPhase::Finished));
}

#[test]
fn client_dialogue_failures() {
    let mut d = ClientDialog::new("h".to_string(), "me".to_string(), "a@b".to_string(), vec!["c@d".to_string()]);
    match d.on_reply("554 go away") {
        ClientAction::Failed(e) => assert_eq!(e, "Bad greeting from h: 554 go away"),
        _ => panic!("expected failure"),
    }
    let mut d = ClientDialog::new("h".to_string(), "me".to_string(), "a@b".to_string(), vec!["c@d".to_string()]);
    d.on_reply("220 hi");
    match d.on_reply("500 what") {
        ClientAction::Send(c) => assert_eq!(c, "HELO me"),
        _ => panic!("expected HELO"),
    }
    match d.on_reply("550 no") {
        ClientAction::Failed(e) => assert_eq!(e, "EHLO/HELO rejected by h: 550 no"),
        _ => panic!("expected failure"),
    }
    let mut d = ClientDialog::new("h".to_string(), "me".to_string(), "a@b".to_string(), vec!["c@d".to_string()]);
    d.on_reply("220 hi");
    d.on_reply("250 STARTTLS");
    d.on_reply("220 ready");
    match d.on_handshake(Some("bad cert".to_string())) {
        ClientAction::Failed(e) => assert_eq!(e, "STARTTLS TLS handshake failed with h: bad cert"),
        _ => panic!("expected failure"),
    }
    let mut d = ClientDialog::new("h".to_string(), "me".to_string(), "a@b".to_string(), vec!["c@d".to_string()]);
    d.on_reply("220 hi");
    d.on_reply("250 ok");
    d.on_reply("250 ok");
    d.on_reply("250 ok");
    match d.on_reply("451 later") {
        ClientAction::Failed(e) => assert_eq!(e, "DATA rejected by h: 451 later"),
        _ => panic!("expected failure"),
    }
}

#[test]
fn stuffed_message_read_back_by_session() {
    let data = b"Subject: t\n.hidden dot\n\nlast".to_vec();
    let wire = stuff_message(&data);
    let mut s = Session::new("h".to_string(), 1000, false, false, false);
    lines(s.on_line(b"EHLO me\r\n"));
    lines(s.on_line(b"MAIL FROM:<a@b.c>\r\n"));
    assert!(matches!(s.on_line(b"RCPT TO:<d@e.f>\r\n"), Step::CheckRecipient(_)));
    s.on_recipient_checked("d@e.f".to_string(), true);
    lines(s.on_line(b"DATA\r\n"));
    let mut last = None;
    for line in wire.split_inclusive(|b| *b == b'\n') {
        last = Some(s.on_line(line));
    }
    assert!(matches!(last, Some(Step::Deliver)));
    assert_eq!(s.data_buf, b"Subject: t\r\n.hidden dot\r\n\r\nlast\r\n".to_vec());
}

#[test]
fn missing_blob_fails_for_good_and_delivered_count() {
    assert_eq!(plan_queue_entry(false, 0, &[true]), vec![QueueAction::MarkPermanentFailure]);
    assert_eq!(plan_queue_entry(true, 0, &[true]), vec![QueueAction::MarkDelivered]);
    let plans = vec![
        plan_queue_entry(true, 0, &[true, true]),
        plan_queue_entry(false, 3, &[]),
        plan_queue_entry(true, 1, &[false]),
        plan_queue_entry(true, 5, &[]),
    ];
    assert_eq!(count_delivered(&plans), 2);
}
