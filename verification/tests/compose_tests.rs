use northmail::compose::{
    attachment_display_name, attachments_prompt, avatar_color_index, draft_message, draft_recipients,
    edit_draft_mode, extract_email_address, format_forward_body, format_quoted_body, forward_mode, forward_subject,
    forward_to_list, get_initials, guess_mime_type, icon_for_mime_type, prefill, reply_all_cc, reply_all_mode,
    reply_mode, reply_subject, reply_target_email, sender_display_name, sender_email, string_to_color,
    view_initials, view_sender_name, ComposeMode,
};
use northmail::compose::{body_display_text, body_display_text_checked, contact_vcard, header_view, line_list_state, toggle_bullets, toggle_numbers};
use northmail::listing::MessageInfo;

fn message() -> MessageInfo {
    MessageInfo {
        id: 1,
        uid: 77,
        folder_id: 2,
        message_id: None,
        subject: "Plans".to_string(),
        from: "Alice Smith <alice@example.com>".to_string(),
        from_address: String::new(),
        to: "me@example.com, Bob <bob@example.com>, nobody".to_string(),
        cc: String::new(),
        date: "Mon, 3 Mar 2025 10:00:00 +0000".to_string(),
        date_epoch: None,
        snippet: None,
        is_read: true,
        is_starred: false,
        has_attachments: false,
    }
}

#[test]
fn addresses_are_extracted() {
    assert_eq!(extract_email_address("Alice <alice@x.org>"), "alice@x.org");
    assert_eq!(extract_email_address("  bob@x.org  "), "bob@x.org");
    assert_eq!(extract_email_address("<  c@x.org >"), "c@x.org");
    assert_eq!(extract_email_address("no close <x"), "no close <x");
    assert_eq!(reply_target_email("alice@x.org", "Whatever"), "alice@x.org");
    assert_eq!(reply_target_email("alice", "Al <al@x.org>"), "al@x.org");
    assert_eq!(sender_email("", "Al <al@x.org>"), "al@x.org");
    assert_eq!(sender_email("kept", "Al <al@x.org>"), "kept");
}

#[test]
fn sender_names() {
    assert_eq!(sender_display_name("", "carol@x.org"), "carol");
    assert_eq!(sender_display_name("carol@x.org", "carol@x.org"), "carol");
    assert_eq!(sender_display_name("Carol King <carol@x.org>", "carol@x.org"), "Carol King");
    assert_eq!(sender_display_name("Carol", "carol@x.org"), "Carol");
    assert_eq!(view_sender_name("", "dan@x.org"), "dan");
    assert_eq!(view_sender_name("Dan <dan@x.org>", "dan@x.org"), "Dan <dan@x.org>");
}

#[test]
fn subjects_get_one_prefix() {
    assert_eq!(reply_subject("Plans"), "Re: Plans");
    assert_eq!(reply_subject("RE: Plans"), "RE: Plans");
    assert_eq!(reply_subject("re:x"), "re:x");
    assert_eq!(forward_subject("Plans"), "Fwd: Plans");
    assert_eq!(forward_subject("FWD: Plans"), "FWD: Plans");
    assert_eq!(forward_subject("Re: Plans"), "Fwd: Re: Plans");
}

#[test]
fn quoted_and_forwarded_bodies() {
    assert_eq!(
        format_quoted_body("Al", "Mon", "one\r\ntwo\n"),
        "\n\nOn Mon, Al wrote:\n> one\n> two\n"
    );
    assert_eq!(format_quoted_body("Al", "Mon", ""), "\n\nOn Mon, Al wrote:\n");
    assert_eq!(format_quoted_body("Al", "Mon", "\n"), "\n\nOn Mon, Al wrote:\n> \n");
    assert_eq!(
        format_forward_body("Al", &["a@x".to_string(), "b@x".to_string()], "Mon", "S", "body"),
        "\n\n---------- Forwarded message ----------\nFrom: Al\nDate: Mon\nSubject: S\nTo: a@x, b@x\n\nbody"
    );
    assert_eq!(
        format_forward_body("Al", &[], "Mon", "S", ""),
        "\n\n---------- Forwarded message ----------\nFrom: Al\nDate: Mon\nSubject: S\n\n"
    );
}

#[test]
fn recipient_lists() {
    let cc = reply_all_cc("me@x.org, Bob <bob@x.org>, , plain, alice@x.org", "alice@x.org");
    assert_eq!(cc, vec![
        ("me@x.org".to_string(), "me@x.org".to_string()),
        ("bob@x.org".to_string(), "bob@x.org".to_string()),
    ]);
    assert_eq!(draft_recipients("me@x.org, b@x.org,", "me@x.org"), vec!["b@x.org".to_string()]);
    assert_eq!(forward_to_list(" a , b "), vec!["a".to_string(), "b".to_string()]);
    assert_eq!(forward_to_list(""), vec!["".to_string()]);
}

#[test]
fn initials_and_colors() {
    assert_eq!(get_initials("Alice Smith", "alice@x.org"), "AS");
    assert_eq!(get_initials("", "bob@x.org"), "B");
    assert_eq!(get_initials("Carol King <carol@x.org>", "carol@x.org"), "C");
    assert_eq!(get_initials("Carol King <carol>", "carol@x.org"), "CK");
    assert_eq!(get_initials("dan@x.org", "dan@x.org"), "D");
    assert_eq!(get_initials("", "@x.org"), "?");
    assert_eq!(get_initials("élodie martin", "e@x"), "ÉM");
    assert_eq!(view_initials("ann lee jones", "a@x"), "AJ");
    assert_eq!(view_initials("", "zed@x"), "Z");
    assert_eq!(avatar_color_index("alice@example.com"), 7);
    assert_eq!(avatar_color_index(""), 0);
    assert_eq!(string_to_color("bob@example.com"), "#00BCD4");
    assert_eq!(string_to_color(""), "#4A90D9");
}

#[test]
fn attachments_types_and_names() {
    assert_eq!(guess_mime_type("Report.PDF"), "application/pdf");
    assert_eq!(guess_mime_type("archive.tar.gz"), "application/gzip");
    assert_eq!(guess_mime_type("photo.JPEG"), "image/jpeg");
    assert_eq!(guess_mime_type("README"), "application/octet-stream");
    assert_eq!(guess_mime_type("pdf"), "application/pdf");
    assert_eq!(icon_for_mime_type("image/png"), "image-x-generic-symbolic");
    assert_eq!(icon_for_mime_type("application/pdf"), "x-office-document-symbolic");
    assert_eq!(icon_for_mime_type("text/csv"), "text-x-generic-symbolic");
    assert_eq!(icon_for_mime_type("application/zip"), "document-symbolic");
    assert_eq!(attachment_display_name("short.txt"), "short.txt");
    assert_eq!(attachment_display_name("a_really_long_file_name_for_testing.pdf"), "a_really_long_fil....pdf");
    assert_eq!(attachment_display_name("abcdefghijklmnopqrstu.extension"), "abcdefghijklmnopq....extension");
    assert_eq!(attachment_display_name("abcdefghijklmnopqrst.extension1"), "abcdefghijklmnopqrst.extension1");
    assert_eq!(attachments_prompt(1), "This message has 1 attachment. Do you want to include it in the forwarded message?");
    assert_eq!(attachments_prompt(3), "This message has 3 attachments. Do you want to include them in the forwarded message?");
}

#[test]
fn reply_and_forward_modes() {
    let m = message();
    match reply_mode(&m, Some("hi".to_string())) {
        ComposeMode::Reply { to, to_display, subject, quoted_body, in_reply_to, references } => {
            assert_eq!(to, "alice@example.com");
            assert_eq!(to_display, "Alice Smith <alice@example.com>");
            assert_eq!(subject, "Re: Plans");
            assert_eq!(quoted_body, "\n\nOn Mon, 3 Mar 2025 10:00:00 +0000, Alice Smith <alice@example.com> wrote:\n> hi\n");
            assert!(in_reply_to.is_none() && references.is_empty());
        },
        _ => panic!("expected a reply"),
    }
    match reply_all_mode(&m, None) {
        ComposeMode::ReplyAll { to, cc, quoted_body, .. } => {
            assert_eq!(to, vec![("alice@example.com".to_string(), "Alice Smith <alice@example.com>".to_string())]);
            assert_eq!(cc.len(), 2);
            assert_eq!(cc[1].0, "bob@example.com");
            assert!(quoted_body.ends_with("> (Message body is still loading...)\n"));
        },
        _ => panic!("expected a reply-all"),
    }
    match forward_mode(&m, Some("b".to_string()), vec![("f".to_string(), "text/plain".to_string(), vec![1])]) {
        ComposeMode::Forward { subject, quoted_body, attachments } => {
            assert_eq!(subject, "Fwd: Plans");
            assert!(quoted_body.contains("To: me@example.com, Bob <bob@example.com>, nobody\n"));
            assert_eq!(attachments.len(), 1);
        },
        _ => panic!("expected a forward"),
    }
    match edit_draft_mode(&m, "draft body".to_string(), "me@example.com") {
        ComposeMode::EditDraft { to, cc, subject, body, draft_uid, account_index } => {
            assert_eq!(to, vec!["bob@example.com".to_string(), "nobody".to_string()]);
            assert!(cc.is_empty());
            assert_eq!(subject, "Plans");
            assert_eq!(body, "draft body");
            assert_eq!((draft_uid, account_index), (77, 0));
        },
        _ => panic!("expected a draft"),
    }
}

#[test]
fn compose_window_prefill() {
    let f = prefill(ComposeMode::New { to: Some(("x@y.z".to_string(), "X".to_string())) });
    assert_eq!(f.to, vec![("X".to_string(), "x@y.z".to_string())]);
    assert!(f.draft.is_none() && f.subject.is_empty());
    let d = prefill(ComposeMode::EditDraft {
        to: vec!["a@b".to_string()],
        cc: vec![],
        subject: "s".to_string(),
        body: "b".to_string(),
        draft_uid: 9,
        account_index: 1,
    });
    assert_eq!(d.to, vec![("a@b".to_string(), "a@b".to_string())]);
    assert_eq!(d.draft, Some((1, 9)));
    let r = prefill(ComposeMode::ReplyAll {
        to: vec![("a@b".to_string(), "A".to_string())],
        cc: vec![("c@d".to_string(), "c@d".to_string())],
        subject: "Re: s".to_string(),
        quoted_body: "q".to_string(),
        in_reply_to: None,
        references: vec![],
    });
    assert_eq!(r.to, vec![("A".to_string(), "a@b".to_string())]);
    assert_eq!(r.body, "q");
}

#[test]
fn drafts_need_a_recipient() {
    let d = draft_message("me@x", "S", "Unknown", &[], &[], "body");
    assert_eq!(d.to, vec!["me@x".to_string()]);
    assert!(d.from_name.is_none());
    assert_eq!(d.text_body.as_deref(), Some("body"));
    let e = draft_message("me@x", "S", "Me Myself", &["a@x".to_string()], &["c@x".to_string()], "");
    assert_eq!(e.to, vec!["a@x".to_string()]);
    assert_eq!(e.cc, vec!["c@x".to_string()]);
    assert_eq!(e.from_name.as_deref(), Some("Me Myself"));
    let f = draft_message("me@x", "S", "", &[], &["c@x".to_string()], "");
    assert!(f.to.is_empty());
    assert!(f.from_name.is_none());
}

#[test]
fn editor_list_buttons() {
    assert_eq!(line_list_state("• item"), (true, false));
    assert_eq!(line_list_state("3. step"), (false, true));
    assert_eq!(line_list_state("3 steps"), (false, false));
    let lines = vec!["• a".to_string(), "2. b".to_string(), "  ".to_string(), "c".to_string()];
    assert_eq!(toggle_bullets(&lines), vec!["a".to_string(), "• b".to_string(), "  ".to_string(), "• c".to_string()]);
    let plain = vec!["x".to_string(), "".to_string(), "• y".to_string()];
    assert_eq!(toggle_numbers(&plain), vec!["1. x".to_string(), "".to_string(), "2. y".to_string()]);
    let numbered = vec!["1. x".to_string(), "2. y".to_string(), "z".to_string()];
    assert_eq!(toggle_numbers(&numbered), vec!["x".to_string(), "y".to_string(), "z".to_string()]);
}

#[test]
fn message_header_and_body() {
    let mut m = message();
    m.is_starred = true;
    m.is_read = false;
    m.to = String::new();
    let h = header_view(&m, true);
    assert_eq!(h.star_icon, "starred-symbolic");
    assert_eq!(h.star_tooltip, "Unstar");
    assert_eq!(h.read_icon, "mail-unread-symbolic");
    assert_eq!(h.read_tooltip, "Mark as Read");
    assert_eq!(h.from_email, "alice@example.com");
    assert_eq!(h.display_name, "Alice Smith");
    assert_eq!(h.initials, "A");
    assert_eq!(h.to_display, "(sync to update)");
    assert!(!h.show_cc);
    assert!(h.show_edit);
    assert_eq!(body_display_text(&Some("t".to_string()), &Some("<b>h</b>".to_string())).as_deref(), Some("t"));
    assert_eq!(body_display_text(&None, &Some("<b>h</b>".to_string())).as_deref(), Some("h"));
    assert_eq!(body_display_text(&None, &None), None);
}

#[test]
fn test_contact_vcard() {
    assert_eq!(
        contact_vcard("Ann Lee", "ann@example.com"),
        "BEGIN:VCARD\r\nVERSION:3.0\r\nFN:Ann Lee\r\nEMAIL:ann@example.com\r\nEND:VCARD"
    );
}

#[test]
fn test_body_display_text_checked() {
    assert_eq!(body_display_text_checked(&None, &Some("<b>Grüße</b>".to_string())), Some(Some("Grüße".to_string())));
    assert_eq!(body_display_text_checked(&None, &Some("<p>ééééé</p>".to_string())), None);
    assert_eq!(body_display_text_checked(&Some("t".to_string()), &Some("<p>ééééé</p>".to_string())), Some(Some("t".to_string())));
    assert_eq!(body_display_text_checked(&None, &None), Some(None));
}
