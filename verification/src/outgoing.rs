//! Turning an outgoing message into what a transport sends: the parts of a
//! MIME message (checked with `lettre`'s address and content-type parsers),
//! and the request body of Microsoft Graph's `sendMail`.
use vstd::prelude::*;
use crate::error::SmtpError;
use crate::oauth2::{base64_encode, base64_standard};
use crate::smtp::{OutgoingAttachment, OutgoingMessage, opt_view};
use crate::text::{chars_of, extend_chars, extend_str, signed_decimal, signed_decimal_exec, string_of};
use crate::compose::{join_strings, join_text, strings};

verus! {

// ───────────────────────── trusted parsers of lettre ─────────────────────────

/// What `lettre`'s address parser says of a text: `None` when it accepts it
/// as an address, else the text of its error.
pub uninterp spec fn address_parse_error(s: Seq<char>) -> Option<Seq<char>>;

/// Whether `lettre` parses a text as a `Content-Type` value.
pub uninterp spec fn content_type_accepted(s: Seq<char>) -> bool;

/// Parses an address with `lettre::Address`'s `FromStr`; on failure returns
/// the error's `Display` text. Claimed: the outcome depends on the text alone.
#[verifier::external_body]
fn lettre_check_address(s: &str) -> (r: Result<(), String>)
    ensures
        match r {
            Ok(()) => address_parse_error(s@) is None,
            Err(e) => address_parse_error(s@) == Some(e@),
        },
{
    match s.parse::<lettre::Address>() {
        Ok(_) => Ok(()),
        Err(e) => Err(e.to_string()),
    }
}

/// Parses a MIME type with `lettre::message::header::ContentType::parse`.
/// Claimed: whether it succeeds depends on the text alone.
#[verifier::external_body]
fn lettre_content_type_ok(s: &str) -> (r: bool)
    ensures
        r == content_type_accepted(s@),
{
    lettre::message::header::ContentType::parse(s).is_ok()
}

/// The text of the error `lettre` gives when a message's envelope gets no
/// recipient (`Envelope::new` with an empty recipient list).
pub uninterp spec fn missing_recipient_error(from: Seq<char>) -> Seq<char>;

/// Asks `lettre::address::Envelope::new` for an envelope from `from` with no
/// recipient, which it always refuses (`Error::MissingTo`), and returns the
/// error's `Display` text. Claimed: the text depends on `from` alone.
#[verifier::external_body]
fn lettre_missing_recipient_error(from: &str) -> (r: String)
    ensures
        r@ == missing_recipient_error(from@),
{
    match lettre::address::Envelope::new(from.parse().ok(), Vec::new()) {
        Ok(_) => String::new(),
        Err(e) => e.to_string(),
    }
}

// ───────────────────────── the MIME message ─────────────────────────

/// The kind of a body part.
#[derive(Clone, Copy, Debug, PartialEq, Eq, Structural)]
pub enum PartKind {
    /// `text/plain; charset=utf-8`
    Plain,
    /// `text/html; charset=utf-8`
    Html,
}

/// A message ready to be assembled by `lettre`: every address checked,
/// the body parts of the `multipart/alternative` in order, and the
/// attachments (wrapped with it in a `multipart/mixed` when there are any)
/// with the content type to use.
pub struct MessagePlan {
    pub from_name: Option<String>,
    pub from: String,
    pub subject: String,
    pub to: Vec<String>,
    pub cc: Vec<String>,
    pub bcc: Vec<String>,
    pub in_reply_to: Option<String>,
    pub references: Option<String>,
    pub body_parts: Vec<(PartKind, String)>,
    pub attachments: Vec<(String, String, Vec<u8>)>,
}

/// The first address of the list that `lettre` refuses, with its error text.
pub open spec fn first_bad_address(addrs: Seq<Seq<char>>) -> Option<(Seq<char>, Seq<char>)>
    decreases addrs.len(),
{
    if addrs.len() == 0 {
        None
    } else {
        match address_parse_error(addrs[0]) {
            Some(e) => Some((addrs[0], e)),
            None => first_bad_address(addrs.drop_first()),
        }
    }
}

/// The addresses in the order they are checked: sender, To, Cc, Bcc.
pub open spec fn checked_addresses(m: OutgoingMessage) -> Seq<Seq<char>> {
    seq![m.from@] + strings(m.to@) + strings(m.cc@) + strings(m.bcc@)
}

/// The body parts: plain text then HTML, whichever are present, or an empty
/// plain text part when neither is.
pub open spec fn body_parts_of(text: Option<Seq<char>>, html: Option<Seq<char>>) -> Seq<(PartKind, Seq<char>)> {
    match (text, html) {
        (Some(t), Some(h)) => seq![(PartKind::Plain, t), (PartKind::Html, h)],
        (Some(t), None) => seq![(PartKind::Plain, t)],
        (None, Some(h)) => seq![(PartKind::Html, h)],
        (None, None) => seq![(PartKind::Plain, Seq::empty())],
    }
}

/// The content type an attachment is sent with: its MIME type when `lettre`
/// reads it, else `application/octet-stream`.
pub open spec fn attachment_content_type(mime: Seq<char>) -> Seq<char> {
    if content_type_accepted(mime) { mime } else { "application/octet-stream"@ }
}

/// The views of the body parts.
pub open spec fn part_views(v: Seq<(PartKind, String)>) -> Seq<(PartKind, Seq<char>)> {
    v.map_values(|p: (PartKind, String)| (p.0, p.1@))
}

/// The (file name, content type, data) of the attachments as sent.
pub open spec fn planned_attachments(v: Seq<OutgoingAttachment>) -> Seq<(Seq<char>, Seq<char>, Seq<u8>)> {
    v.map_values(|a: OutgoingAttachment| (a.filename@, attachment_content_type(a.mime_type@), a.data@))
}

/// The views of planned attachments.
pub open spec fn attachment_views(v: Seq<(String, String, Vec<u8>)>) -> Seq<(Seq<char>, Seq<char>, Seq<u8>)> {
    v.map_values(|a: (String, String, Vec<u8>)| (a.0@, a.1@, a.2@))
}

fn check_all(addrs: &[String]) -> (r: Result<(), SmtpError>)
    ensures
        match first_bad_address(strings(addrs@)) {
            None => r is Ok,
            Some((a, e)) => r matches Err(SmtpError::InvalidAddress(t)) && t@ == a + ": "@ + e,
        },
{
    let mut i: usize = 0;
    let ghost all = strings(addrs@);
    proof {
        assert(all.skip(0) =~= all);
    }
    while i < addrs.len()
        invariant
            all == strings(addrs@),
            i <= addrs@.len(),
            first_bad_address(all) == first_bad_address(all.skip(i as int)),
        decreases addrs@.len() - i,
    {
        proof {
            assert(all.skip(i as int)[0] == addrs@[i as int]@);
            assert(all.skip(i as int).drop_first() =~= all.skip(i + 1));
        }
        match lettre_check_address(addrs[i].as_str()) {
            Ok(()) => {},
            Err(e) => {
                let mut v: Vec<char> = Vec::new();
                extend_str(&mut v, addrs[i].as_str());
                extend_str(&mut v, ": ");
                extend_str(&mut v, e.as_str());
                return Err(SmtpError::InvalidAddress(string_of(&v)));
            },
        }
        i += 1;
    }
    Ok(())
}

proof fn lemma_first_bad_concat(a: Seq<Seq<char>>, b: Seq<Seq<char>>)
    ensures
        first_bad_address(a + b) == match first_bad_address(a) {
            Some(x) => Some(x),
            None => first_bad_address(b),
        },
    decreases a.len(),
{
    if a.len() > 0 {
        lemma_first_bad_concat(a.drop_first(), b);
        assert((a + b).drop_first() =~= a.drop_first() + b);
    } else {
        assert(a + b =~= b);
    }
}

fn copy_strings(v: &[String]) -> (r: Vec<String>)
    ensures
        strings(r@) == strings(v@),
{
    let mut r: Vec<String> = Vec::new();
    let mut i: usize = 0;
    while i < v.len()
        invariant
            i <= v@.len(),
            strings(r@) == strings(v@).take(i as int),
        decreases v@.len() - i,
    {
        let ghost before = r@;
        r.push(v[i].clone());
        proof {
            assert(strings(r@) =~= strings(before).push(v@[i as int]@));
            assert(strings(v@).take(i + 1) =~= strings(v@).take(i as int).push(v@[i as int]@));
        }
        i += 1;
    }
    proof {
        assert(strings(v@).take(i as int) =~= strings(v@));
    }
    r
}

/// Check the addresses of an outgoing message and lay out its MIME parts
/// for `lettre` (which then assembles the `Message`). Fails with
/// `InvalidAddress("<address>: <reason>")` at the first address that
/// `lettre` refuses, checking the sender, then To, Cc and Bcc in order, and
/// with `MessageBuildError` (`lettre`'s envelope error) when there is no
/// recipient at all.
pub fn build_lettre_message(msg: &OutgoingMessage) -> (r: Result<MessagePlan, SmtpError>)
    ensures
        match first_bad_address(checked_addresses(*msg)) {
            Some((a, e)) => r matches Err(SmtpError::InvalidAddress(t)) && t@ == a + ": "@ + e,
            None => if msg.to@.len() == 0 && msg.cc@.len() == 0 && msg.bcc@.len() == 0 {
                r matches Err(SmtpError::MessageBuildError(t)) && t@ == missing_recipient_error(msg.from@)
            } else {
                r matches Ok(p) && {
                &&& opt_view(p.from_name) == opt_view(msg.from_name)
                &&& p.from@ == msg.from@
                &&& p.subject@ == msg.subject@
                &&& strings(p.to@) == strings(msg.to@)
                &&& strings(p.cc@) == strings(msg.cc@)
                &&& strings(p.bcc@) == strings(msg.bcc@)
                &&& opt_view(p.in_reply_to) == opt_view(msg.in_reply_to)
                &&& opt_view(p.references) == if msg.references@.len() > 0 {
                    Some(join_text(strings(msg.references@), " "@))
                } else {
                    None
                }
                &&& part_views(p.body_parts@) == body_parts_of(opt_view(msg.text_body), opt_view(msg.html_body))
                &&& attachment_views(p.attachments@) == planned_attachments(msg.attachments@)
                }
            },
        },
{
    proof {
        let c = checked_addresses(*msg);
        lemma_first_bad_concat(seq![msg.from@], strings(msg.to@));
        lemma_first_bad_concat(seq![msg.from@] + strings(msg.to@), strings(msg.cc@));
        lemma_first_bad_concat(seq![msg.from@] + strings(msg.to@) + strings(msg.cc@), strings(msg.bcc@));
        assert(seq![msg.from@].drop_first() =~= Seq::<Seq<char>>::empty());
    }
    match lettre_check_address(msg.from.as_str()) {
        Ok(()) => {},
        Err(e) => {
            let mut v: Vec<char> = Vec::new();
            extend_str(&mut v, msg.from.as_str());
            extend_str(&mut v, ": ");
            extend_str(&mut v, e.as_str());
            return Err(SmtpError::InvalidAddress(string_of(&v)));
        },
    }
    let ghost f = seq![msg.from@];
    assert(f[0] == msg.from@);
    assert(f.drop_first() =~= Seq::<Seq<char>>::empty());
    assert(first_bad_address(f.drop_first()) is None);
    assert(first_bad_address(f) is None);
    match check_all(&msg.to) {
        Ok(()) => {},
        Err(e) => return Err(e),
    }
    assert(first_bad_address(f + strings(msg.to@)) is None);
    match check_all(&msg.cc) {
        Ok(()) => {},
        Err(e) => {
            assert(first_bad_address(f + strings(msg.to@) + strings(msg.cc@)) == first_bad_address(strings(msg.cc@)));
            return Err(e);
        },
    }
    assert(first_bad_address(f + strings(msg.to@) + strings(msg.cc@)) is None);
    match check_all(&msg.bcc) {
        Ok(()) => {},
        Err(e) => {
            assert(checked_addresses(*msg) == f + strings(msg.to@) + strings(msg.cc@) + strings(msg.bcc@));
            return Err(e);
        },
    }
    if msg.to.len() == 0 && msg.cc.len() == 0 && msg.bcc.len() == 0 {
        return Err(SmtpError::MessageBuildError(lettre_missing_recipient_error(msg.from.as_str())));
    }
    let references = if msg.references.len() > 0 {
        let j = join_strings(&msg.references, " ");
        Some(string_of(&j))
    } else {
        None
    };
    let mut parts: Vec<(PartKind, String)> = Vec::new();
    match (&msg.text_body, &msg.html_body) {
        (Some(t), Some(h)) => {
            parts.push((PartKind::Plain, t.clone()));
            parts.push((PartKind::Html, h.clone()));
        },
        (Some(t), None) => {
            parts.push((PartKind::Plain, t.clone()));
        },
        (None, Some(h)) => {
            parts.push((PartKind::Html, h.clone()));
        },
        (None, None) => {
            parts.push((PartKind::Plain, String::new()));
        },
    }
    proof {
        assert(part_views(parts@) =~= body_parts_of(opt_view(msg.text_body), opt_view(msg.html_body)));
    }
    let mut atts: Vec<(String, String, Vec<u8>)> = Vec::new();
    let mut i: usize = 0;
    while i < msg.attachments.len()
        invariant
            i <= msg.attachments@.len(),
            attachment_views(atts@) == planned_attachments(msg.attachments@).take(i as int),
        decreases msg.attachments@.len() - i,
    {
        let a = &msg.attachments[i];
        let ct = if lettre_content_type_ok(a.mime_type.as_str()) {
            a.mime_type.clone()
        } else {
            "application/octet-stream".to_string()
        };
        let ghost before = atts@;
        atts.push((a.filename.clone(), ct, a.data.clone()));
        proof {
            assert(attachment_views(atts@) =~= attachment_views(before).push(
                (a.filename@, attachment_content_type(a.mime_type@), a.data@)));
            assert(planned_attachments(msg.attachments@).take(i + 1) =~= planned_attachments(msg.attachments@).take(i as int).push(
                (a.filename@, attachment_content_type(a.mime_type@), a.data@)));
        }
        i += 1;
    }
    proof {
        assert(planned_attachments(msg.attachments@).take(i as int) =~= planned_attachments(msg.attachments@));
    }
    Ok(MessagePlan {
        from_name: match &msg.from_name {
            Some(n) => Some(n.clone()),
            None => None,
        },
        from: msg.from.clone(),
        subject: msg.subject.clone(),
        to: copy_strings(&msg.to),
        cc: copy_strings(&msg.cc),
        bcc: copy_strings(&msg.bcc),
        in_reply_to: match &msg.in_reply_to {
            Some(s) => Some(s.clone()),
            None => None,
        },
        references,
        body_parts: parts,
        attachments: atts,
    })
}

// ───────────────────────── Microsoft Graph ─────────────────────────

/// The endpoint that sends a message for the signed-in user.
pub const GRAPH_SEND_MAIL_URL: &'static str = "https://graph.microsoft.com/v1.0/me/sendMail";

/// An attachment of a Graph message.
pub struct GraphAttachment {
    pub odata_type: String,
    pub name: String,
    pub content_type: String,
    pub content_bytes: String,
}

/// The body of a Graph `sendMail` request.
pub struct GraphSendMail {
    pub subject: String,
    pub content_type: String,
    pub content: String,
    pub to_recipients: Vec<String>,
    pub cc_recipients: Vec<String>,
    pub bcc_recipients: Vec<String>,
    /// `internetMessageHeaders`: (name, value).
    pub headers: Vec<(String, String)>,
    pub attachments: Vec<GraphAttachment>,
    pub save_to_sent_items: bool,
}

/// The body of a Graph message: the HTML when there is some, else the text.
pub open spec fn graph_body(text: Option<Seq<char>>, html: Option<Seq<char>>) -> (Seq<char>, Seq<char>) {
    match (html, text) {
        (Some(h), _) => ("HTML"@, h),
        (None, Some(t)) => ("Text"@, t),
        (None, None) => ("Text"@, Seq::empty()),
    }
}

/// The extra headers of a Graph message: `In-Reply-To` and `References`
/// (the message IDs joined with spaces), when present.
pub open spec fn graph_headers(in_reply_to: Option<Seq<char>>, references: Seq<Seq<char>>) -> Seq<(Seq<char>, Seq<char>)> {
    (match in_reply_to {
        Some(r) => seq![("In-Reply-To"@, r)],
        None => Seq::empty(),
    }) + (if references.len() > 0 { seq![("References"@, join_text(references, " "@))] } else { Seq::empty() })
}

/// The attachments of a Graph message, their data in standard base64.
pub open spec fn graph_attachments(v: Seq<OutgoingAttachment>) -> Seq<(Seq<char>, Seq<char>, Seq<char>, Seq<char>)> {
    v.map_values(|a: OutgoingAttachment| ("#microsoft.graph.fileAttachment"@, a.filename@, a.mime_type@, base64_standard(a.data@)))
}

/// The views of Graph attachments.
pub open spec fn graph_attachment_views(v: Seq<GraphAttachment>) -> Seq<(Seq<char>, Seq<char>, Seq<char>, Seq<char>)> {
    v.map_values(|a: GraphAttachment| (a.odata_type@, a.name@, a.content_type@, a.content_bytes@))
}

/// The views of header pairs.
pub open spec fn header_views(v: Seq<(String, String)>) -> Seq<(Seq<char>, Seq<char>)> {
    v.map_values(|h: (String, String)| (h.0@, h.1@))
}

/// The `sendMail` request for an outgoing message (the message is saved to
/// Sent Items).
pub fn graph_send_request(message: &OutgoingMessage) -> (r: GraphSendMail)
    ensures
        r.subject@ == message.subject@,
        (r.content_type@, r.content@) == graph_body(opt_view(message.text_body), opt_view(message.html_body)),
        strings(r.to_recipients@) == strings(message.to@),
        strings(r.cc_recipients@) == strings(message.cc@),
        strings(r.bcc_recipients@) == strings(message.bcc@),
        header_views(r.headers@) == graph_headers(opt_view(message.in_reply_to), strings(message.references@)),
        graph_attachment_views(r.attachments@) == graph_attachments(message.attachments@),
        r.save_to_sent_items,
{
    let (content_type, content) = match (&message.html_body, &message.text_body) {
        (Some(html), _) => ("HTML".to_string(), html.clone()),
        (None, Some(text)) => ("Text".to_string(), text.clone()),
        (None, None) => ("Text".to_string(), String::new()),
    };
    let mut headers: Vec<(String, String)> = Vec::new();
    match &message.in_reply_to {
        Some(r) => {
            headers.push(("In-Reply-To".to_string(), r.clone()));
        },
        None => {},
    }
    let ghost first = header_views(headers@);
    if message.references.len() > 0 {
        let j = join_strings(&message.references, " ");
        headers.push(("References".to_string(), string_of(&j)));
    }
    proof {
        assert(header_views(headers@) =~= graph_headers(opt_view(message.in_reply_to), strings(message.references@)));
    }
    let mut atts: Vec<GraphAttachment> = Vec::new();
    let mut i: usize = 0;
    while i < message.attachments.len()
        invariant
            i <= message.attachments@.len(),
            graph_attachment_views(atts@) == graph_attachments(message.attachments@).take(i as int),
        decreases message.attachments@.len() - i,
    {
        let a = &message.attachments[i];
        let ghost before = atts@;
        atts.push(GraphAttachment {
            odata_type: "#microsoft.graph.fileAttachment".to_string(),
            name: a.filename.clone(),
            content_type: a.mime_type.clone(),
            content_bytes: base64_encode(a.data.as_slice()),
        });
        proof {
            let e = ("#microsoft.graph.fileAttachment"@, a.filename@, a.mime_type@, base64_standard(a.data@));
            assert(graph_attachment_views(atts@) =~= graph_attachment_views(before).push(e));
            assert(graph_attachments(message.attachments@).take(i + 1) =~= graph_attachments(message.attachments@).take(i as int).push(e));
        }
        i += 1;
    }
    proof {
        assert(graph_attachments(message.attachments@).take(i as int) =~= graph_attachments(message.attachments@));
    }
    GraphSendMail {
        subject: message.subject.clone(),
        content_type,
        content,
        to_recipients: copy_strings(&message.to),
        cc_recipients: copy_strings(&message.cc),
        bcc_recipients: copy_strings(&message.bcc),
        headers,
        attachments: atts,
        save_to_sent_items: true,
    }
}

/// The error of a Graph request that could not be made.
pub fn graph_request_failed(reason: &str) -> (r: SmtpError)
    ensures
        r matches SmtpError::SendFailed(t) && t@ == "Graph API request failed: "@ + reason@,
{
    let mut v: Vec<char> = Vec::new();
    extend_str(&mut v, "Graph API request failed: ");
    extend_str(&mut v, reason);
    SmtpError::SendFailed(string_of(&v))
}

/// What a Graph `sendMail` response means: success for a 2xx status, else
/// `SendFailed("Graph API returned <status>: <body>")`, the status as
/// shown with its reason phrase and the body as read (or a note that it
/// could not be read).
pub fn graph_response_outcome(status: u16, status_text: &str, body: Option<String>) -> (r: Result<(), SmtpError>)
    ensures
        200 <= status <= 299 ==> r is Ok,
        !(200 <= status <= 299) ==> (r matches Err(SmtpError::SendFailed(t)) && t@ == "Graph API returned "@ + status_text@
            + ": "@ + match body {
                Some(b) => b@,
                None => "Failed to read response body"@,
            }),
{
    if 200 <= status && status <= 299 {
        return Ok(());
    }
    let mut v: Vec<char> = Vec::new();
    extend_str(&mut v, "Graph API returned ");
    extend_str(&mut v, status_text);
    extend_str(&mut v, ": ");
    match body {
        Some(b) => extend_str(&mut v, b.as_str()),
        None => extend_str(&mut v, "Failed to read response body"),
    }
    Err(SmtpError::SendFailed(string_of(&v)))
}

} // verus!
