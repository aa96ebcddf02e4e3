use cosmix::mail::{
    address_list, can_send, compose_forward, compose_reply, find_mailbox, forward_draft, reply_draft,
    role_rank, sort_mailboxes, BodyPart, BodyValue, ComposeState, Email, EmailAddress, Keyword, Mailbox,
};

fn addr(name: Option<&str>, email: &str) -> EmailAddress {
    EmailAddress { name: name.map(|n| n.to_string()), email: email.to_string() }
}

fn sample() -> Email {
    Email {
        id: "e1".to_string(),
        subject: Some("Lunch".to_string()),
        from: Some(vec![addr(Some("Ann Smith"), "ann@example.com")]),
        to: Some(vec![addr(None, "me@example.com")]),
        cc: None,
        message_id: Some(vec!["<m1@example.com>".to_string()]),
        date: Some("2024-03-05T14:07:00Z".to_string()),
        preview: None,
        received_at: None,
        has_attachment: Some(false),
        keywords: Some(vec![Keyword { name: "$seen".to_string(), flag: Some(true) }]),
        body_values: Some(vec![
            BodyValue { part_id: "1".to_string(), value: Some("<b>hi</b>".to_string()) },
            BodyValue { part_id: "0".to_string(), value: Some("Noon?\r\nOr later".to_string()) },
        ]),
        text_body: Some(vec![BodyPart { part_id: "0".to_string(), content_type: Some("text/plain".to_string()) }]),
        html_body: Some(vec![BodyPart { part_id: "1".to_string(), content_type: None }]),
    }
}

#[test]
fn email_display_helpers() {
    let e = sample();
    assert_eq!(e.from_display(), "Ann Smith");
    assert_eq!(e.text_body_value(), Some("Noon?\r\nOr later".to_string()));
    assert_eq!(e.html_body_value(), Some("<b>hi</b>".to_string()));
    assert!(e.is_read());
    assert_eq!(e.date_short(), "Mar 05 14:07");
}

#[test]
fn email_display_fallbacks() {
    let mut e = sample();
    e.from = Some(vec![addr(Some(""), "x@y")]);
    assert_eq!(e.from_display(), "x@y");
    e.from = None;
    assert_eq!(e.from_display(), "");
    e.keywords = Some(vec![Keyword { name: "$seen".to_string(), flag: None }]);
    assert!(!e.is_read());
    e.keywords = None;
    assert!(!e.is_read());
    e.date = None;
    e.received_at = Some("2023-12-31T23:59:00+02:00".to_string());
    assert_eq!(e.date_short(), "Dec 31 23:59");
    e.date = Some("not a date".to_string());
    assert_eq!(e.date_short(), "");
    e.text_body = Some(vec![]);
    assert_eq!(e.text_body_value(), None);
    e.text_body = Some(vec![BodyPart { part_id: "9".to_string(), content_type: None }]);
    assert_eq!(e.text_body_value(), None);
}

#[test]
fn reply_quotes_each_line() {
    let c = compose_reply(&sample());
    assert_eq!(c.to, "ann@example.com");
    assert_eq!(c.subject, "Re: Lunch");
    assert_eq!(c.body, "\n\nOn Mar 05 14:07, Ann Smith wrote:\n> Noon?\n> Or later\n");
    assert_eq!(c.in_reply_to, Some("<m1@example.com>".to_string()));
    assert!(c.cc.is_empty() && c.bcc.is_empty());
    let mut e = sample();
    e.subject = Some("re: Lunch".to_string());
    assert_eq!(reply_draft(&e, "D").subject, "re: Lunch");
    e.body_values = None;
    assert_eq!(reply_draft(&e, "D").body, "");
}

#[test]
fn forward_carries_header_block() {
    let c = compose_forward(&sample());
    assert_eq!(c.subject, "Fwd: Lunch");
    assert_eq!(
        c.body,
        "\n\n---------- Forwarded message ----------\nFrom: Ann Smith\nDate: Mar 05 14:07\nSubject: Lunch\n\nNoon?\r\nOr later"
    );
    assert!(c.to.is_empty() && c.in_reply_to.is_none());
    let mut e = sample();
    e.subject = None;
    let c = forward_draft(&e, "D");
    assert_eq!(c.subject, "");
    assert!(c.body.contains("Subject: (no subject)\n"));
}

#[test]
fn reply_subject_does_not_stack() {
    let mut e = sample();
    let first = reply_draft(&e, "D").subject;
    e.subject = Some(first.clone());
    assert_eq!(reply_draft(&e, "D").subject, first);
    let mut e = sample();
    let first = forward_draft(&e, "D").subject;
    e.subject = Some(first.clone());
    assert_eq!(forward_draft(&e, "D").subject, first);
}

#[test]
fn compose_state_default_is_empty() {
    let c = ComposeState::default();
    assert!(c.to.is_empty() && c.subject.is_empty() && c.body.is_empty() && c.in_reply_to.is_none());
}

fn mbox(id: &str, role: Option<&str>) -> Mailbox {
    Mailbox {
        id: id.to_string(),
        name: id.to_string(),
        parent_id: None,
        role: role.map(|r| r.to_string()),
        sort_order: 0,
        total_emails: 0,
        unread_emails: 0,
    }
}

#[test]
fn sidebar_order_and_lookup() {
    let boxes = vec![
        mbox("custom", None),
        mbox("t", Some("trash")),
        mbox("s", Some("sent")),
        mbox("other", Some("projects")),
        mbox("i", Some("inbox")),
        mbox("d", Some("drafts")),
    ];
    let ids: Vec<String> = sort_mailboxes(boxes).into_iter().map(|m| m.id).collect();
    assert_eq!(ids, vec!["i", "d", "s", "t", "custom", "other"]);
    let boxes = vec![mbox("a", Some("junk")), mbox("b", Some("inbox")), mbox("c", Some("inbox"))];
    assert_eq!(find_mailbox(&boxes, "inbox"), Some("b".to_string()));
    assert_eq!(find_mailbox(&boxes, "drafts"), None);
    assert_eq!(role_rank(&Some("archive".to_string())), 3);
    assert_eq!(role_rank(&None), 6);
}

#[test]
fn compose_address_fields() {
    assert_eq!(
        address_list(" a@x , ,b@y,"),
        vec!["a@x".to_string(), "b@y".to_string()]
    );
    assert!(address_list("  ").is_empty());
    assert!(can_send(" a@x ", false));
    assert!(!can_send("   ", false));
    assert!(!can_send("a@x", true));
}
