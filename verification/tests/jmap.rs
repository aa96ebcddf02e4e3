use cosmix::sql::{listing_sql, mailbox_update_columns, update_sql};
use base64::Engine;
use cosmix::blob::{blob_location, blob_path};
use cosmix::smtp_auth::basic_credentials;
use cosmix::bounce::{build_ndr, generate_ndr};
use cosmix::changes::{changes_response, max_changes, since_state, summarize_changes, ChangeRow};
use cosmix::inbound::{
    auth_results, auth_results_unavailable, dkim_summary, flatten_addresses, spf_identity,
    recipient_mailbox, stamp_message, target_mailbox, wants_junk, DkimSummary, ParsedAddress, SpfVerdict,
};
use cosmix::jmap_set::{
    body_structure, id_strings, parse_id, parse_ids, retrain_for_move, submission_envelope, Envelope, MimePart, Retrain, SetReport,
};
use cosmix::jmap_types::{
    fill_counts, query_response, query_window, EmailFlags, JmapError, Mailbox, SmtpConfig, SpamFilter,
};

fn row(id: &str, kind: &str, seq: i64) -> ChangeRow {
    ChangeRow { object_id: id.to_string(), change_type: kind.to_string(), id: seq }
}

#[test]
fn jmap_error_constructors() {
    let e = JmapError::method_not_found("Foo/bar");
    assert_eq!(e.error_type, "unknownMethod");
    assert_eq!(e.description, Some("Unknown method: Foo/bar".to_string()));
    let e = JmapError::invalid_arguments("bad");
    assert_eq!(e.error_type, "invalidArguments");
    assert_eq!(e.description, Some("bad".to_string()));
    let e = JmapError::not_found();
    assert_eq!(e.error_type, "notFound");
    assert!(e.description.is_none());
}

#[test]
fn query_response_counts_ids() {
    let r = query_response(-3, "7".to_string(), vec!["a".to_string(), "b".to_string()]);
    assert_eq!(r.account_id, "-3");
    assert_eq!(r.query_state, "7");
    assert!(!r.can_calculate_changes);
    assert_eq!(r.position, 0);
    assert_eq!(r.total, 2);
    assert_eq!(query_window(None, None), (0, 50));
    assert_eq!(query_window(Some(5), Some(10)), (5, 10));
}

#[test]
fn smtp_config_defaults() {
    let c = SmtpConfig::default();
    assert_eq!(c.hostname, "localhost");
    assert_eq!(c.listen_inbound, Some("0.0.0.0:25".to_string()));
    assert_eq!(c.max_message_size, 25 * 1024 * 1024);
    assert!(c.tls_cert.is_none() && c.dkim_selector.is_none());
}

#[test]
fn spam_filter_db_path() {
    let f = SpamFilter::new("/var/lib/spam".to_string(), None);
    assert_eq!(f.db_path(42), "/var/lib/spam/42/db.sqlite");
    let f = SpamFilter::new("base/".to_string(), Some("seed.db".to_string()));
    assert_eq!(f.db_path(7), "base/7/db.sqlite");
    assert_eq!(f.baseline_db, Some("seed.db".to_string()));
}

#[test]
fn changes_summary_keeps_last_kind() {
    let rows = vec![
        row("a", "created", 5),
        row("b", "created", 6),
        row("a", "updated", 7),
        row("c", "destroyed", 8),
    ];
    let r = summarize_changes(&rows, 4, 10);
    assert!(!r.has_more_changes);
    assert_eq!(r.new_state, "8");
    assert_eq!(r.created, vec!["b".to_string()]);
    assert_eq!(r.updated, vec!["a".to_string()]);
    assert_eq!(r.destroyed, vec!["c".to_string()]);
    let r = summarize_changes(&rows, 4, 2);
    assert!(r.has_more_changes);
    assert_eq!(r.new_state, "6");
    assert_eq!(r.created, vec!["a".to_string(), "b".to_string()]);
    let r = summarize_changes(&[], 9, 10);
    assert_eq!(r.new_state, "9");
    let resp = changes_response(1, 4, summarize_changes(&rows, 4, 10));
    assert_eq!(resp.account_id, "1");
    assert_eq!(resp.old_state, "4");
    assert_eq!(resp.new_state, "8");
}

#[test]
fn changes_arguments() {
    assert_eq!(since_state(Some("42")), 42);
    assert_eq!(since_state(Some("-7")), -7);
    assert_eq!(since_state(Some("+3")), 3);
    assert_eq!(since_state(Some("abc")), 0);
    assert_eq!(since_state(Some("")), 0);
    assert_eq!(since_state(Some("-")), 0);
    assert_eq!(since_state(Some("9223372036854775807")), i64::MAX);
    assert_eq!(since_state(Some("-9223372036854775808")), i64::MIN);
    assert_eq!(since_state(Some("9223372036854775808")), 0);
    assert_eq!(since_state(None), 0);
    assert_eq!(max_changes(None), 500);
    assert_eq!(max_changes(Some(3)), 3);
}

#[test]
fn ndr_text_layout() {
    let m = build_ndr("mx.h", "s@x", &["a@y".to_string(), "b@z".to_string()], "550 no", "DATE", "TOKEN");
    let t = String::from_utf8(m).unwrap();
    assert!(t.starts_with("From: Mail Delivery System <postmaster@mx.h>\r\nTo: <s@x>\r\n"));
    assert!(t.contains("Date: DATE\r\nMessage-ID: <bounce-TOKEN@mx.h>\r\n"));
    assert!(t.contains("one or more recipients:\r\n\r\na@y, b@z\r\n\r\nError: 550 no\r\n"));
    assert!(t.ends_with("No further delivery attempts will be made.\r\n"));
    let g = String::from_utf8(generate_ndr("mx.h", "s@x", &["a@y".to_string()], "e")).unwrap();
    let id_start = g.find("<bounce-").unwrap() + 8;
    let id_end = g[id_start..].find('@').unwrap();
    assert_eq!(id_end, 36);
}

#[test]
fn mailbox_counts_filled() {
    let mb = |id: &str| Mailbox {
        id: id.to_string(),
        account_id: 1,
        name: id.to_string(),
        parent_id: None,
        role: None,
        sort_order: 0,
        total_emails: 0,
        unread_emails: 0,
    };
    let mut boxes = vec![mb("inbox"), mb("sent"), mb("junk")];
    let rows = vec![
        EmailFlags { mailbox_ids: vec!["inbox".to_string()], seen: false },
        EmailFlags { mailbox_ids: vec!["inbox".to_string(), "sent".to_string()], seen: true },
        EmailFlags { mailbox_ids: vec![], seen: false },
    ];
    fill_counts(&mut boxes, &rows);
    assert_eq!((boxes[0].total_emails, boxes[0].unread_emails), (2, 1));
    assert_eq!((boxes[1].total_emails, boxes[1].unread_emails), (1, 0));
    assert_eq!((boxes[2].total_emails, boxes[2].unread_emails), (0, 0));
}

#[test]
fn authentication_results_stamp() {
    assert!(matches!(dkim_summary(&vec![false, true]), DkimSummary::Pass));
    assert!(matches!(dkim_summary(&vec![]), DkimSummary::Absent));
    assert!(matches!(dkim_summary(&vec![false]), DkimSummary::Fail));
    assert_eq!(auth_results(Some(&vec![true]), &SpfVerdict::SoftFail), "dkim=pass; spf=SoftFail");
    assert_eq!(auth_results(None, &SpfVerdict::Absent), "dkim=none; spf=None");
    assert_eq!(auth_results(Some(&vec![false]), &SpfVerdict::Pass), "dkim=fail; spf=Pass");
    assert_eq!(auth_results_unavailable(), "dkim=temperror; spf=temperror");
    let stamped = stamp_message("mx.h", "dkim=none; spf=None", b"Subject: x\r\n\r\nbody");
    assert_eq!(
        stamped,
        b"Authentication-Results: mx.h; dkim=none; spf=None\r\nSubject: x\r\n\r\nbody".to_vec()
    );
}

#[test]
fn spf_identity_of_sender() {
    let id = spf_identity("bob@mail.example.org");
    assert_eq!(id.domain, "mail.example.org");
    assert!(!id.helo);
    let id = spf_identity("");
    assert_eq!(id.domain, "");
    assert!(id.helo);
    let id = spf_identity("a@b@c");
    assert_eq!(id.domain, "c");
}

#[test]
fn addresses_flattened_with_defaults() {
    let groups = vec![
        vec![ParsedAddress { name: Some("Ann".to_string()), address: Some("ann@x".to_string()) }],
        vec![
            ParsedAddress { name: None, address: Some("bob@y".to_string()) },
            ParsedAddress { name: Some("Nobody".to_string()), address: None },
        ],
    ];
    let f = flatten_addresses(&groups);
    let pairs: Vec<(String, String)> = f.into_iter().map(|a| (a.name, a.email)).collect();
    assert_eq!(
        pairs,
        vec![
            ("Ann".to_string(), "ann@x".to_string()),
            (String::new(), "bob@y".to_string()),
            ("Nobody".to_string(), String::new()),
        ]
    );
}

#[test]
fn spam_routing() {
    let spam = Some("SPAM".to_string());
    let ham = Some("HAM".to_string());
    assert!(wants_junk(&spam));
    assert!(!wants_junk(&ham));
    assert!(!wants_junk(&None));
    assert_eq!(target_mailbox(&spam, Some(9), 1), 9);
    assert_eq!(target_mailbox(&spam, None, 1), 1);
    assert_eq!(target_mailbox(&ham, Some(9), 1), 1);
    assert_eq!(recipient_mailbox(true, &spam, Some(9), 1), 9);
    assert_eq!(recipient_mailbox(false, &spam, Some(9), 1), 1);
    assert_eq!(recipient_mailbox(true, &ham, Some(9), 1), 1);
    assert_eq!(recipient_mailbox(true, &spam, None, 1), 1);
}

#[test]
fn set_report_leaves_out_empty_lists() {
    let mut r = SetReport::new();
    r.record_updated("e1".to_string());
    r.reject_update_invalid_id("zz".to_string());
    r.reject_destroy("d1".to_string());
    r.reject_destroy("d1".to_string());
    let resp = r.finish("1".to_string(), "3".to_string(), "4".to_string());
    assert!(resp.created.is_none());
    assert_eq!(resp.updated, Some(vec!["e1".to_string()]));
    assert!(resp.destroyed.is_none());
    let nu = resp.not_updated.unwrap();
    assert_eq!(nu.len(), 1);
    assert_eq!(nu[0].0, "zz");
    assert_eq!(nu[0].1.error_type, "invalidArguments");
    assert_eq!(nu[0].1.description, Some("Invalid id".to_string()));
    let nd = resp.not_destroyed.unwrap();
    assert_eq!(nd.len(), 1);
    assert_eq!(nd[0].1.error_type, "notFound");
    let mut r = SetReport::new();
    r.record_created("c1".to_string(), "id-1".to_string());
    r.record_destroyed("x".to_string());
    let resp = r.finish("1".to_string(), "0".to_string(), "2".to_string());
    assert_eq!(resp.created, Some(vec![("c1".to_string(), "id-1".to_string())]));
    assert_eq!(resp.destroyed, Some(vec!["x".to_string()]));
    assert!(resp.not_updated.is_none() && resp.not_destroyed.is_none() && resp.not_created.is_none());
}

#[test]
fn body_structure_numbers_parts() {
    let parts = vec![
        MimePart::Text("hello".to_string()),
        MimePart::Other,
        MimePart::Html(String::new()),
        MimePart::Html("<p>hi</p>".to_string()),
    ];
    let s = body_structure(&parts, true, false);
    assert_eq!(s.text_body.len(), 1);
    assert_eq!(s.text_body[0].part_id, "0");
    assert_eq!(s.text_body[0].content_type, "text/plain");
    assert_eq!(s.html_body.len(), 1);
    assert_eq!(s.html_body[0].part_id, "1");
    assert_eq!(s.html_body[0].content_type, "text/html");
    assert_eq!(s.body_values, vec![("0".to_string(), "hello".to_string())]);
    let s = body_structure(&parts, true, true);
    assert_eq!(s.body_values.len(), 2);
    assert_eq!(s.body_values[1], ("1".to_string(), "<p>hi</p>".to_string()));
}

#[test]
fn retraining_on_junk_moves() {
    assert!(matches!(retrain_for_move(&vec![1], &vec![9], Some(9)), Retrain::Spam));
    assert!(matches!(retrain_for_move(&vec![9], &vec![1], Some(9)), Retrain::Good));
    assert!(matches!(retrain_for_move(&vec![1], &vec![2], Some(9)), Retrain::Nothing));
    assert!(matches!(retrain_for_move(&vec![1], &vec![9], None), Retrain::Nothing));
}

#[test]
fn submission_envelope_from_headers() {
    let from = Some(vec![Some("me@x".to_string())]);
    let to = Some(vec![Some("a@y".to_string()), Some(String::new()), None]);
    let cc = Some(vec![Some("c@z".to_string())]);
    let e = submission_envelope(None, &from, &to, &cc).unwrap();
    assert_eq!(e.mail_from, "me@x");
    assert_eq!(e.rcpt_to, vec!["a@y".to_string(), "c@z".to_string()]);
    assert!(submission_envelope(None, &from, &None, &Some(vec![])).is_none());
    let given = Envelope { mail_from: "g@x".to_string(), rcpt_to: vec!["r@y".to_string()] };
    let e = submission_envelope(Some(given), &None, &None, &None).unwrap();
    assert_eq!(e.mail_from, "g@x");
    let empty = Envelope { mail_from: "g@x".to_string(), rcpt_to: vec![] };
    assert!(submission_envelope(Some(empty), &from, &to, &cc).is_none());
}

#[test]
fn basic_auth_credentials() {
    let enc = base64::engine::general_purpose::STANDARD.encode("me@x.org:p:w");
    assert_eq!(
        basic_credentials(&format!("Basic {enc}")),
        Some(("me@x.org".to_string(), "p:w".to_string()))
    );
    let no_colon = base64::engine::general_purpose::STANDARD.encode("nocolon");
    assert_eq!(basic_credentials(&format!("Basic {no_colon}")), None);
    assert_eq!(basic_credentials("Bearer abc"), None);
    assert_eq!(basic_credentials("Basic !!!"), None);
}

#[test]
fn blob_paths_are_content_addressed() {
    let (hash, path) = blob_location("/blobs", b"");
    assert_eq!(hash, "af1349b9f5f9a1a6a0404dea36dcc9499bcb25c9adc112b7cc9a93cae41f3262");
    assert_eq!(path, format!("/blobs/af/13/{hash}"));
    assert_eq!(blob_path("d/", "abcdef"), "d/ab/cd/abcdef");
}

#[test]
fn ids_parse_and_print() {
    let ids = vec![
        "not-a-uuid".to_string(),
        "67e55044-10b1-426f-9247-bb680e5fe0c8".to_string(),
        "67E55044-10B1-426F-9247-BB680E5FE0C9".to_string(),
    ];
    let parsed = parse_ids(&ids);
    assert_eq!(parsed, vec![0x67e5504410b1426f9247bb680e5fe0c8u128, 0x67e5504410b1426f9247bb680e5fe0c9u128]);
    assert_eq!(
        id_strings(&parsed),
        vec![
            "67e55044-10b1-426f-9247-bb680e5fe0c8".to_string(),
            "67e55044-10b1-426f-9247-bb680e5fe0c9".to_string(),
        ]
    );
}

#[test]
fn partial_update_statements() {
    let cols = mailbox_update_columns(true, false, true);
    assert_eq!(cols, vec!["name".to_string(), "sort_order".to_string()]);
    assert_eq!(
        update_sql("mailboxes", &cols),
        Some("UPDATE mailboxes SET name = ?3, sort_order = ?4 WHERE account_id = ?1 AND id = ?2".to_string())
    );
    assert_eq!(update_sql("mailboxes", &mailbox_update_columns(false, false, false)), None);
}

fn filter(pieces: &[&str]) -> Vec<String> {
    pieces.iter().map(|p| p.to_string()).collect()
}

#[test]
fn listing_statements() {
    let (count, select) = listing_sql(
        "calendar_events",
        "start_dt",
        &vec![filter(&["calendar_id = ", ""]), filter(&["end_dt >= ", ""])],
    );
    assert_eq!(count, "SELECT COUNT(*) FROM calendar_events WHERE account_id = ?1 AND calendar_id = ?2 AND end_dt >= ?3");
    assert_eq!(
        select,
        "SELECT id FROM calendar_events WHERE account_id = ?1 AND calendar_id = ?2 AND end_dt >= ?3 ORDER BY start_dt OFFSET ?4 LIMIT ?5"
    );
    let (count, _) = listing_sql(
        "contacts",
        "full_name",
        &vec![filter(&["(full_name LIKE ", " OR email LIKE ", " OR company LIKE ", ")"])],
    );
    assert_eq!(
        count,
        "SELECT COUNT(*) FROM contacts WHERE account_id = ?1 AND (full_name LIKE ?2 OR email LIKE ?2 OR company LIKE ?2)"
    );
    let (_, select) = listing_sql("contacts", "full_name", &vec![]);
    assert_eq!(select, "SELECT id FROM contacts WHERE account_id = ?1 ORDER BY full_name OFFSET ?2 LIMIT ?3");
}

#[test]
fn destroy_outcomes_and_uuid_text() {
    let id = "67e55044-10b1-426f-9247-bb680e5fe0c8";
    let u = parse_id(id).unwrap();
    assert_eq!(u, 0x67e5504410b1426f9247bb680e5fe0c8u128);
    assert_eq!(parse_id("nope"), None);
    assert_eq!(id_strings(&vec![u, 0]), vec![id.to_string(), "00000000-0000-0000-0000-000000000000".to_string()]);
    let mut r = SetReport::new();
    r.record_destroy_result(id.to_string(), true);
    r.record_destroy_result("other".to_string(), false);
    let resp = r.finish("1".to_string(), "0".to_string(), "1".to_string());
    assert_eq!(resp.destroyed, Some(vec![id.to_string()]));
    let nd = resp.not_destroyed.unwrap();
    assert_eq!(nd.len(), 1);
    assert_eq!(nd[0].0, "other");
    assert_eq!(nd[0].1.error_type, "notFound");
}
