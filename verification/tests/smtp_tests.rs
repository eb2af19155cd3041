use base64::prelude::BASE64_STANDARD;
use base64::Engine;
use northmail::error::SmtpError;
use northmail::oauth2::XOAuth2Authenticator;
use northmail::outgoing::{
    build_lettre_message, graph_request_failed, graph_response_outcome, graph_send_request, PartKind,
    GRAPH_SEND_MAIL_URL,
};
use northmail::smtp::{OutgoingMessage, SmtpClient};

#[test]
fn test_xoauth2_response() {
    let auth = XOAuth2Authenticator::new("user@gmail.com", "ya29.test_token");

    let expected = "user=user@gmail.com\x01auth=Bearer ya29.test_token\x01\x01";
    assert_eq!(auth.auth_string(), expected);

    let encoded = auth.response();
    let decoded = String::from_utf8(BASE64_STANDARD.decode(&encoded).unwrap()).unwrap();
    assert_eq!(decoded, expected);
}

#[test]
fn xoauth2_response_is_encoded_not_plain() {
    let auth = XOAuth2Authenticator::new("a@b.c", "t");
    assert_ne!(auth.response(), auth.auth_string());
    assert_eq!(auth.response(), "dXNlcj1hQGIuYwFhdXRoPUJlYXJlciB0AQE=");
}

#[test]
fn builder_collects_everything() {
    let m = OutgoingMessage::new("me@example.com", "Hello")
        .from_name("Me")
        .to("a@example.com")
        .to("b@example.com")
        .cc("c@example.com")
        .bcc("d@example.com")
        .text("plain")
        .html("<p>html</p>")
        .reply_to_message("<id1@x>")
        .reference("<id0@x>")
        .reference("<id1@x>")
        .attachment("a.txt", "text/plain", vec![1, 2, 3]);
    assert_eq!(m.from, "me@example.com");
    assert_eq!(m.from_name.as_deref(), Some("Me"));
    assert_eq!(m.to, vec!["a@example.com".to_string(), "b@example.com".to_string()]);
    assert_eq!(m.cc, vec!["c@example.com".to_string()]);
    assert_eq!(m.bcc, vec!["d@example.com".to_string()]);
    assert_eq!(m.subject, "Hello");
    assert_eq!(m.text_body.as_deref(), Some("plain"));
    assert_eq!(m.html_body.as_deref(), Some("<p>html</p>"));
    assert_eq!(m.in_reply_to.as_deref(), Some("<id1@x>"));
    assert_eq!(m.references.len(), 2);
    assert_eq!(m.attachments.len(), 1);
    assert_eq!(m.attachments[0].data, vec![1, 2, 3]);
}

#[test]
fn smtp_servers() {
    let g = SmtpClient::gmail();
    assert_eq!(g.host(), "smtp.gmail.com");
    assert_eq!(g.port(), 587);
    let o = SmtpClient::outlook();
    assert_eq!(o.host(), "smtp.office365.com");
    assert_eq!(o.port(), 587);
    let c = SmtpClient::new("mail.example.org", 465);
    assert_eq!(c.host(), "mail.example.org");
    assert_eq!(c.port(), 465);
}

#[test]
fn lettre_plan_of_a_full_message() {
    let m = OutgoingMessage::new("me@example.com", "Hi")
        .from_name("Me")
        .to("a@example.com")
        .cc("c@example.com")
        .text("t")
        .html("h")
        .reference("<a@x>")
        .reference("<b@x>")
        .attachment("x.bin", "not a mime type", vec![9])
        .attachment("y.txt", "text/plain", vec![8]);
    let p = build_lettre_message(&m).ok().unwrap();
    assert_eq!(p.from, "me@example.com");
    assert_eq!(p.from_name.as_deref(), Some("Me"));
    assert_eq!(p.to, vec!["a@example.com".to_string()]);
    assert_eq!(p.references.as_deref(), Some("<a@x> <b@x>"));
    assert_eq!(p.body_parts.len(), 2);
    assert_eq!(p.body_parts[0].0, PartKind::Plain);
    assert_eq!(p.body_parts[0].1, "t");
    assert_eq!(p.body_parts[1].0, PartKind::Html);
    assert_eq!(p.attachments[0].1, "application/octet-stream");
    assert_eq!(p.attachments[1].1, "text/plain");
    assert_eq!(p.attachments[1].2, vec![8]);
}

#[test]
fn lettre_plan_without_bodies_has_empty_text() {
    let m = OutgoingMessage::new("me@example.com", "Hi").to("a@example.com");
    let p = build_lettre_message(&m).ok().unwrap();
    assert_eq!(p.body_parts.len(), 1);
    assert_eq!(p.body_parts[0].0, PartKind::Plain);
    assert_eq!(p.body_parts[0].1, "");
    assert!(p.references.is_none());
    let h = OutgoingMessage::new("me@example.com", "Hi").to("a@example.com").html("x");
    let ph = build_lettre_message(&h).ok().unwrap();
    assert_eq!(ph.body_parts.len(), 1);
    assert_eq!(ph.body_parts[0].0, PartKind::Html);
}

#[test]
fn lettre_plan_reports_the_first_bad_address() {
    let m = OutgoingMessage::new("me@example.com", "Hi").to("good@example.com").cc("broken").cc("alsobroken");
    match build_lettre_message(&m) {
        Err(SmtpError::InvalidAddress(t)) => {
            assert_eq!(t, "broken: Missing domain or user");
        },
        _ => panic!("expected an invalid address"),
    }
    let f = OutgoingMessage::new("nobody", "Hi").to("a@example.com");
    match build_lettre_message(&f) {
        Err(SmtpError::InvalidAddress(t)) => assert!(t.starts_with("nobody: ")),
        _ => panic!("expected an invalid sender"),
    }
}

#[test]
fn graph_request_prefers_html_and_adds_headers() {
    let m = OutgoingMessage::new("me@example.com", "Subj")
        .to("a@example.com")
        .bcc("b@example.com")
        .text("plain")
        .html("<b>x</b>")
        .reply_to_message("<r@x>")
        .reference("<1@x>")
        .reference("<2@x>")
        .attachment("f.bin", "application/octet-stream", vec![0, 1, 2]);
    let r = graph_send_request(&m);
    assert_eq!(r.subject, "Subj");
    assert_eq!(r.content_type, "HTML");
    assert_eq!(r.content, "<b>x</b>");
    assert_eq!(r.to_recipients, vec!["a@example.com".to_string()]);
    assert!(r.cc_recipients.is_empty());
    assert_eq!(r.bcc_recipients, vec!["b@example.com".to_string()]);
    assert_eq!(r.headers, vec![
        ("In-Reply-To".to_string(), "<r@x>".to_string()),
        ("References".to_string(), "<1@x> <2@x>".to_string()),
    ]);
    assert_eq!(r.attachments[0].odata_type, "#microsoft.graph.fileAttachment");
    assert_eq!(r.attachments[0].content_bytes, "AAEC");
    assert!(r.save_to_sent_items);
    assert_eq!(GRAPH_SEND_MAIL_URL, "https://graph.microsoft.com/v1.0/me/sendMail");
}

#[test]
fn graph_request_text_or_empty() {
    let t = graph_send_request(&OutgoingMessage::new("me@example.com", "S").text("hello"));
    assert_eq!(t.content_type, "Text");
    assert_eq!(t.content, "hello");
    assert!(t.headers.is_empty());
    let e = graph_send_request(&OutgoingMessage::new("me@example.com", "S"));
    assert_eq!(e.content_type, "Text");
    assert_eq!(e.content, "");
}

#[test]
fn graph_responses() {
    assert!(graph_response_outcome(202, "202 Accepted", None).is_ok());
    match graph_response_outcome(401, "401 Unauthorized", Some("denied".to_string())) {
        Err(SmtpError::SendFailed(t)) => assert_eq!(t, "Graph API returned 401 Unauthorized: denied"),
        _ => panic!("expected a failure"),
    }
    match graph_response_outcome(500, "500 Internal Server Error", None) {
        Err(SmtpError::SendFailed(t)) => {
            assert_eq!(t, "Graph API returned 500 Internal Server Error: Failed to read response body")
        },
        _ => panic!("expected a failure"),
    }
    match graph_request_failed("timeout") {
        SmtpError::SendFailed(t) => assert_eq!(t, "Graph API request failed: timeout"),
        _ => panic!("expected SendFailed"),
    }
}

#[test]
fn lettre_plan_needs_a_recipient() {
    let m = OutgoingMessage::new("me@example.com", "Hi").text("body");
    match build_lettre_message(&m) {
        Err(SmtpError::MessageBuildError(t)) => {
            assert_eq!(t, "missing destination address, invalid envelope");
        },
        _ => panic!("expected a build error"),
    }
    let b = OutgoingMessage::new("me@example.com", "Hi").bcc("hidden@example.com");
    assert!(build_lettre_message(&b).is_ok());
}

#[test]
fn graph_attachment_is_standard_base64() {
    let m = OutgoingMessage::new("me@example.com", "Subj")
        .to("a@example.com")
        .attachment("a.bin", "application/octet-stream", vec![1, 2, 3, 4])
        .attachment("b.bin", "application/octet-stream", vec![0xff, 0xfe])
        .attachment("c.txt", "text/plain", b"Man".to_vec());
    let r = graph_send_request(&m);
    assert_eq!(r.attachments[0].content_bytes, "AQIDBA==");
    assert_eq!(r.attachments[1].content_bytes, "//4=");
    assert_eq!(r.attachments[2].content_bytes, "TWFu");
}
