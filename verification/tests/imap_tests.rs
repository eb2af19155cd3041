use northmail::imap_envelope::{
    envelope_line_ok_exec, envelope_ok, extract_envelope, parse_address_list_from_envelope, parse_envelope_parts,
};
use northmail::imap_fetch::{
    detect_attachments, extract_flags, extract_uid, flag_summary_exec, parse_fetch_response,
};
use northmail::imap_response::{
    append_uid_exec, auth_step_exec, ends_idle_exec, idle_step, exists_count_exec, format_tag, greeting_ok, idle_event_exec,
    literal_line_ok_exec, literal_size_exec, parse_status_line, status_line_update_exec,
    store_all_empty_exec, tagged_outcome_exec, AuthStep, IdleEvent, StatusCollector, TagCounter,
};

#[test]
fn tags_are_zero_padded_and_counted() {
    assert_eq!(format_tag(1), "A0001");
    assert_eq!(format_tag(42), "A0042");
    assert_eq!(format_tag(12345), "A12345");
    let mut t = TagCounter::new();
    assert_eq!(t.next_tag(), "A0001");
    assert_eq!(t.next_tag(), "A0002");
}

#[test]
fn tagged_completion() {
    assert_eq!(tagged_outcome_exec("A0003 OK SELECT completed\r\n", "A0003"), Some(true));
    assert_eq!(tagged_outcome_exec("A0003 NO no such mailbox\r\n", "A0003"), Some(false));
    assert_eq!(tagged_outcome_exec("* 3 EXISTS\r\n", "A0003"), None);
    assert!(greeting_ok("* OK IMAP4rev1 ready\r\n"));
    assert!(!greeting_ok("* BYE\r\n"));
    assert!(store_all_empty_exec("A0009 NO No matching messages"));
    assert!(ends_idle_exec("A0010 OK IDLE terminated\r\n"));
    assert!(!ends_idle_exec("* 4 EXISTS\r\n"));
}

#[test]
fn select_and_literals() {
    assert_eq!(exists_count_exec("* 172 EXISTS\r\n"), Some(172));
    assert_eq!(exists_count_exec("* 1 RECENT\r\n"), None);
    assert_eq!(literal_size_exec("* 1 FETCH (UID 5 BODY[] {1024}\r\n"), Some(1024));
    assert_eq!(literal_size_exec("* 1 FETCH (UID 5 FLAGS ())\r\n"), None);
    assert!(!literal_line_ok_exec("} {"));
    assert_eq!(append_uid_exec("A0004 OK [APPENDUID 38505 3955] APPEND completed"), Some(3955));
    assert_eq!(append_uid_exec("A0004 OK APPEND completed"), None);
}

#[test]
fn status_lines() {
    let (name, m, u) = parse_status_line("* STATUS \"INBOX\" (MESSAGES 42 UNSEEN 5)\r\n").unwrap();
    assert_eq!(name, "INBOX");
    assert_eq!((m, u), (42, 5));
    let (name, m, u) = parse_status_line("* STATUS Archive (UNSEEN 2 MESSAGES 9)").unwrap();
    assert_eq!(name, "Archive");
    assert_eq!((m, u), (9, 2));
    assert!(parse_status_line("* LIST () \"/\" x").is_none());
    assert_eq!(status_line_update_exec("* STATUS \"X\" (MESSAGES 7)", 1, 3), (7, 3));
    assert_eq!(status_line_update_exec("A1 OK", 1, 3), (1, 3));
}

#[test]
fn pipelined_status_collects_per_tag() {
    let mut c = StatusCollector::new();
    assert_eq!(c.observe("* STATUS \"INBOX\" (MESSAGES 3 UNSEEN 1)\r\n", "A0001"), None);
    assert_eq!(c.observe("A0001 OK STATUS completed\r\n", "A0001"), Some((3, 1)));
    assert_eq!(c.observe("A0002 BAD no such folder\r\n", "A0002"), Some((0, 0)));
}

#[test]
fn idle_events() {
    assert_eq!(idle_event_exec("* 23 EXISTS\r\n"), Some(IdleEvent::NewMessages(23)));
    assert_eq!(idle_event_exec("* 2 recent\r\n"), Some(IdleEvent::NewMessages(2)));
    assert_eq!(idle_event_exec("* 0 RECENT\r\n"), None);
    assert_eq!(idle_event_exec("* 5 EXPUNGE\r\n"), Some(IdleEvent::Expunge(5)));
    assert_eq!(idle_event_exec("* 5 FETCH (FLAGS (\\Seen))\r\n"), Some(IdleEvent::FlagsChanged));
    assert_eq!(idle_event_exec("* BYE logging out\r\n"), Some(IdleEvent::ServerBye));
    assert_eq!(idle_event_exec("+ idling\r\n"), None);
}

#[test]
fn uid_and_flags() {
    let line = "* 12 FETCH (UID 4827 FLAGS (\\Seen \\Flagged $Work))\r\n";
    assert_eq!(extract_uid(line), Some(4827));
    assert_eq!(extract_flags(line), vec!["\\Seen", "\\Flagged", "$Work"]);
    assert_eq!(flag_summary_exec(line), Some((4827, true, true)));
    assert_eq!(flag_summary_exec("* 1 FETCH (UID 9 FLAGS ())"), Some((9, false, false)));
    assert_eq!(extract_uid("* 1 FETCH (FLAGS ())"), None);
}

#[test]
fn attachment_detection() {
    assert!(!detect_attachments("* 1 FETCH (UID 1 ENVELOPE (\"application\"))"));
    assert!(detect_attachments(
        "* 1 FETCH (UID 1 BODYSTRUCTURE ((\"TEXT\" \"PLAIN\") (\"APPLICATION\" \"PDF\") \"MIXED\"))"
    ));
    assert!(!detect_attachments(
        "* 1 FETCH (UID 1 BODYSTRUCTURE ((\"text\" \"plain\") (\"image\" \"png\") \"related\"))"
    ));
    assert!(!detect_attachments(
        "* 1 FETCH (UID 1 BODYSTRUCTURE ((\"text\" \"plain\") (\"application\" \"pkcs7-signature\") \"signed\"))"
    ));
    assert!(detect_attachments(
        "* 1 FETCH (UID 1 BODYSTRUCTURE ((\"text\" \"plain\") (\"image\" \"png\" (\"attachment\")) \"mixed\"))"
    ));
    assert!(detect_attachments("* 1 FETCH (UID 1 BODYSTRUCTURE (\"audio\" \"ogg\"))"));
}

#[test]
fn envelope_parts_and_addresses() {
    let env = "\"Mon, 7 Feb 1994 21:52:25 -0800\" \"Re: \\\"hi\\\"\" ((\"Fred Foobar\" NIL \"foobar\" \"Blurdybloop.COM\")) NIL NIL ((NIL NIL \"mooch\" \"owatagu.siam.edu\")) NIL NIL NIL \"<B27397-0100000@cac.washington.edu>\")";
    assert!(envelope_ok(env));
    let parts = parse_envelope_parts(env);
    assert_eq!(parts.len(), 10);
    assert_eq!(parts[1], "Re: \"hi\"");
    assert_eq!(parts[3], "NIL");
    let from = parse_address_list_from_envelope(&parts[2]).unwrap();
    assert_eq!(from.len(), 1);
    assert_eq!(from[0].name.as_deref(), Some("Fred Foobar"));
    assert_eq!(from[0].address, "foobar@Blurdybloop.COM");
    assert!(parse_address_list_from_envelope("NIL").is_none());
    assert!(parse_address_list_from_envelope("((NIL NIL NIL NIL))").is_none());
    let only_mailbox = parse_address_list_from_envelope("((NIL NIL \"team@x.org\" NIL))").unwrap();
    assert_eq!(only_mailbox[0].address, "team@x.org");
    assert_eq!(only_mailbox[0].name, None);
    assert!(!envelope_ok("(\"unterminated"));
}

#[test]
fn whole_fetch_line() {
    let line = "* 3 FETCH (UID 77 FLAGS (\\Seen) ENVELOPE (\"Tue, 1 Apr 2025 10:00:00 +0000\" \"Hello\" ((\"Ann\" NIL \"ann\" \"x.org\")) NIL NIL ((NIL NIL \"bob\" \"y.org\")) ((NIL NIL \"cat\" \"z.org\")) NIL NIL \"<id@x.org>\") BODYSTRUCTURE (\"text\" \"plain\"))\r\n";
    let h = parse_fetch_response(line).unwrap();
    assert_eq!(h.uid, 77);
    assert!(h.flags.seen);
    assert_eq!(h.envelope.subject.as_deref(), Some("Hello"));
    assert_eq!(h.envelope.date.as_deref(), Some("Tue, 1 Apr 2025 10:00:00 +0000"));
    assert_eq!(h.envelope.from[0].address, "ann@x.org");
    assert_eq!(h.envelope.to[0].address, "bob@y.org");
    assert_eq!(h.envelope.cc[0].address, "cat@z.org");
    assert_eq!(h.envelope.message_id.as_deref(), Some("<id@x.org>"));
    assert!(!h.has_attachments);
    let e = extract_envelope("* 1 FETCH (UID 2)");
    assert!(e.subject.is_none() && e.from.is_empty());
    assert!(parse_fetch_response("* 1 FETCH (FLAGS ())").is_none());
}

#[test]
fn test_tags_never_repeat() {
    let mut seen = std::collections::HashSet::new();
    let mut t = TagCounter::new();
    for _ in 0..20000 {
        assert!(seen.insert(t.next_tag()));
    }
    assert!(seen.contains("A0007"));
    assert!(seen.contains("A20000"));
}

#[test]
fn test_envelope_line_ok() {
    assert!(envelope_line_ok_exec("* 1 FETCH (UID 5 FLAGS (\\Seen))"));
    assert!(envelope_line_ok_exec(
        "* 1 FETCH (UID 5 ENVELOPE (\"Mon, 1 Jan 2024\" \"Hi\" ((\"Ann\" NIL \"ann\" \"example.com\")) NIL NIL NIL NIL NIL NIL \"<id@x>\"))"
    ));
    assert!(!envelope_line_ok_exec("* 1 FETCH (UID 5 ENVELOPE (\"d\" \"s\" ((\"Ann\" NIL \"ann"));
}

#[test]
fn test_auth_and_idle_steps() {
    assert_eq!(auth_step_exec("+ eyJzdGF0dXMiOiI0MDAifQ==\r\n", "A0001"), AuthStep::AnswerEmpty);
    assert_eq!(auth_step_exec("A0001 OK Success\r\n", "A0001"), AuthStep::Succeeded);
    assert_eq!(auth_step_exec("A0001 NO [AUTHENTICATIONFAILED] Invalid\r\n", "A0001"), AuthStep::Failed);
    assert_eq!(auth_step_exec("* CAPABILITY IMAP4rev1\r\n", "A0001"), AuthStep::Wait);
    assert_eq!(idle_step(0, ""), Some(IdleEvent::ServerBye));
    assert_eq!(idle_step(12, "* 5 EXISTS\r\n"), Some(IdleEvent::NewMessages(5)));
    assert_eq!(idle_step(12, "* OK still here\r\n"), None);
}
