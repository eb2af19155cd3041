use northmail::message::{EmailAddress, Envelope, MessageFlags, MessageHeader};

#[test]
fn flags_parse_case_insensitively() {
    let f = MessageFlags::from_imap_flags(&["\\SEEN", "\\Flagged", "$Label1", "\\Draft"]);
    assert!(f.seen);
    assert!(f.flagged);
    assert!(f.draft);
    assert!(!f.answered);
    assert!(!f.deleted);
    assert_eq!(f.custom, vec!["$label1".to_string()]);
}

#[test]
fn custom_flags_are_held_once() {
    let f = MessageFlags::from_imap_flags(&["Work", "work", "WORK", "\\Answered", "\\Deleted"]);
    assert_eq!(f.custom, vec!["work".to_string()]);
    assert!(f.answered && f.deleted);
}

#[test]
fn flags_round_trip_to_store_strings() {
    let f = MessageFlags::from_imap_flags(&["\\Deleted", "\\Seen", "label"]);
    assert_eq!(
        f.to_imap_flags(),
        vec!["\\Seen".to_string(), "\\Deleted".to_string(), "label".to_string()]
    );
    let back = MessageFlags::from_imap_flags(&["\\Seen", "\\Deleted", "label"]);
    assert_eq!(back.seen, f.seen);
    assert_eq!(back.deleted, f.deleted);
    assert_eq!(back.custom, f.custom);
    assert!(MessageFlags::default().to_imap_flags().is_empty());
}

#[test]
fn address_display() {
    let a = EmailAddress::new(Some("John Doe".into()), "john@example.com".into());
    assert_eq!(a.to_display_string(), "John Doe <john@example.com>");
    let b = EmailAddress::new(Some(String::new()), "x@y.z".into());
    assert_eq!(b.to_display_string(), "x@y.z");
    let c = EmailAddress::new(None, "a@b.c".into());
    assert_eq!(c.to_display_string(), "a@b.c");
}

#[test]
fn header_defaults() {
    let mut h = MessageHeader {
        uid: 7,
        seq: 1,
        envelope: Envelope::default(),
        flags: MessageFlags::from_imap_flags(&["\\Seen"]),
        size: 10,
        has_attachments: false,
    };
    assert_eq!(h.subject(), "(No subject)");
    assert_eq!(h.from_display(), "(Unknown sender)");
    assert!(h.is_read());
    assert!(!h.is_starred());
    h.envelope.subject = Some(String::new());
    assert_eq!(h.subject(), "(No subject)");
    h.envelope.subject = Some("Hi".into());
    h.envelope.from = vec![EmailAddress::new(Some("Ann".into()), "ann@x.org".into())];
    assert_eq!(h.subject(), "Hi");
    assert_eq!(h.from_display(), "Ann <ann@x.org>");
}

#[test]
fn flags_round_trip() {
    let f = MessageFlags::from_imap_flags(&["\\Seen", "\\Draft", "Work", "$label1"]);
    let v = f.to_imap_flags();
    let refs: Vec<&str> = v.iter().map(|s| s.as_str()).collect();
    let g = MessageFlags::from_imap_flags(&refs);
    assert_eq!((g.seen, g.answered, g.flagged, g.deleted, g.draft), (f.seen, f.answered, f.flagged, f.deleted, f.draft));
    let mut a = g.custom.clone();
    let mut b = f.custom.clone();
    a.sort();
    b.sort();
    assert_eq!(a, b);
    assert_eq!(b, vec!["$label1".to_string(), "work".to_string()]);
}

#[test]
fn flags_round_trip_non_ascii() {
    let f = MessageFlags::from_imap_flags(&["\\Flagged", "Ärger", "büro"]);
    let v = f.to_imap_flags();
    let refs: Vec<&str> = v.iter().map(|s| s.as_str()).collect();
    let g = MessageFlags::from_imap_flags(&refs);
    assert!(g.flagged && !g.seen);
    let mut a = g.custom.clone();
    let mut b = f.custom.clone();
    a.sort();
    b.sort();
    assert_eq!(a, b);
    assert_eq!(b, vec!["büro".to_string(), "ärger".to_string()]);
}

#[test]
fn address_from_parts() {
    let a = EmailAddress::from_parts(Some("Ann".to_string()), Some("ann".to_string()), Some("example.com".to_string()));
    assert_eq!(a.address, "ann@example.com");
    assert_eq!(a.name.as_deref(), Some("Ann"));
    let b = EmailAddress::from_parts(None, Some("x".to_string()), None);
    assert_eq!(b.address, "x@");
}
