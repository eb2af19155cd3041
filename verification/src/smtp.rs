//! Outgoing messages and SMTP server settings.
use vstd::prelude::*;

verus! {

/// An attachment to include in an outgoing message
#[derive(Debug, Clone)]
pub struct OutgoingAttachment {
    /// Filename to display
    pub filename: String,
    /// MIME type (e.g., "application/pdf")
    pub mime_type: String,
    /// Raw file data
    pub data: Vec<u8>,
}

/// Email message to send
#[derive(Debug, Clone)]
pub struct OutgoingMessage {
    /// From address
    pub from: String,
    /// From display name
    pub from_name: Option<String>,
    /// To addresses
    pub to: Vec<String>,
    /// CC addresses
    pub cc: Vec<String>,
    /// BCC addresses
    pub bcc: Vec<String>,
    /// Subject line
    pub subject: String,
    /// Plain text body
    pub text_body: Option<String>,
    /// HTML body
    pub html_body: Option<String>,
    /// In-Reply-To header
    pub in_reply_to: Option<String>,
    /// References header
    pub references: Vec<String>,
    /// File attachments
    pub attachments: Vec<OutgoingAttachment>,
}

/// The text of an optional string.
pub open spec fn opt_view(s: Option<String>) -> Option<Seq<char>> {
    match s {
        Some(x) => Some(x@),
        None => None,
    }
}

impl OutgoingMessage {
    /// Every field but the one named is the same in both messages.
    pub open spec fn same_except_lists(self, other: OutgoingMessage) -> bool {
        &&& self.from == other.from
        &&& self.from_name == other.from_name
        &&& self.subject == other.subject
        &&& self.text_body == other.text_body
        &&& self.html_body == other.html_body
        &&& self.in_reply_to == other.in_reply_to
    }

    /// Create a new message builder
    pub fn new(from: &str, subject: &str) -> (r: OutgoingMessage)
        ensures
            r.from@ == from@,
            r.subject@ == subject@,
            r.from_name is None,
            r.to@.len() == 0,
            r.cc@.len() == 0,
            r.bcc@.len() == 0,
            r.text_body is None,
            r.html_body is None,
            r.in_reply_to is None,
            r.references@.len() == 0,
            r.attachments@.len() == 0,
    {
        OutgoingMessage {
            from: String::from_str(from),
            from_name: None,
            to: Vec::new(),
            cc: Vec::new(),
            bcc: Vec::new(),
            subject: String::from_str(subject),
            text_body: None,
            html_body: None,
            in_reply_to: None,
            references: Vec::new(),
            attachments: Vec::new(),
        }
    }

    /// Set the from display name
    pub fn from_name(self, name: &str) -> (r: OutgoingMessage)
        ensures
            opt_view(r.from_name) == Some(name@),
            r.from == self.from,
            r.subject == self.subject,
            r.text_body == self.text_body,
            r.html_body == self.html_body,
            r.in_reply_to == self.in_reply_to,
            r.to == self.to,
            r.cc == self.cc,
            r.bcc == self.bcc,
            r.references == self.references,
            r.attachments == self.attachments,
    {
        let mut m = self;
        m.from_name = Some(String::from_str(name));
        m
    }

    /// Add a To recipient
    pub fn to(self, address: &str) -> (r: OutgoingMessage)
        ensures
            r.same_except_lists(self),
            r.to@.len() == self.to@.len() + 1,
            r.to@.drop_last() == self.to@,
            r.to@.last()@ == address@,
            r.cc == self.cc,
            r.bcc == self.bcc,
            r.references == self.references,
            r.attachments == self.attachments,
    {
        let mut m = self;
        m.to.push(String::from_str(address));
        assert(m.to@.drop_last() =~= self.to@);
        m
    }

    /// Add a CC recipient
    pub fn cc(self, address: &str) -> (r: OutgoingMessage)
        ensures
            r.same_except_lists(self),
            r.cc@.len() == self.cc@.len() + 1,
            r.cc@.drop_last() == self.cc@,
            r.cc@.last()@ == address@,
            r.to == self.to,
            r.bcc == self.bcc,
            r.references == self.references,
            r.attachments == self.attachments,
    {
        let mut m = self;
        m.cc.push(String::from_str(address));
        assert(m.cc@.drop_last() =~= self.cc@);
        m
    }

    /// Add a BCC recipient
    pub fn bcc(self, address: &str) -> (r: OutgoingMessage)
        ensures
            r.same_except_lists(self),
            r.bcc@.len() == self.bcc@.len() + 1,
            r.bcc@.drop_last() == self.bcc@,
            r.bcc@.last()@ == address@,
            r.to == self.to,
            r.cc == self.cc,
            r.references == self.references,
            r.attachments == self.attachments,
    {
        let mut m = self;
        m.bcc.push(String::from_str(address));
        assert(m.bcc@.drop_last() =~= self.bcc@);
        m
    }

    /// Set the plain text body
    pub fn text(self, body: &str) -> (r: OutgoingMessage)
        ensures
            opt_view(r.text_body) == Some(body@),
            r.from == self.from,
            r.from_name == self.from_name,
            r.subject == self.subject,
            r.html_body == self.html_body,
            r.in_reply_to == self.in_reply_to,
            r.to == self.to,
            r.cc == self.cc,
            r.bcc == self.bcc,
            r.references == self.references,
            r.attachments == self.attachments,
    {
        let mut m = self;
        m.text_body = Some(String::from_str(body));
        m
    }

    /// Set the HTML body
    pub fn html(self, body: &str) -> (r: OutgoingMessage)
        ensures
            opt_view(r.html_body) == Some(body@),
            r.from == self.from,
            r.from_name == self.from_name,
            r.subject == self.subject,
            r.text_body == self.text_body,
            r.in_reply_to == self.in_reply_to,
            r.to == self.to,
            r.cc == self.cc,
            r.bcc == self.bcc,
            r.references == self.references,
            r.attachments == self.attachments,
    {
        let mut m = self;
        m.html_body = Some(String::from_str(body));
        m
    }

    /// Set the In-Reply-To header
    pub fn reply_to_message(self, message_id: &str) -> (r: OutgoingMessage)
        ensures
            opt_view(r.in_reply_to) == Some(message_id@),
            r.from == self.from,
            r.from_name == self.from_name,
            r.subject == self.subject,
            r.text_body == self.text_body,
            r.html_body == self.html_body,
            r.to == self.to,
            r.cc == self.cc,
            r.bcc == self.bcc,
            r.references == self.references,
            r.attachments == self.attachments,
    {
        let mut m = self;
        m.in_reply_to = Some(String::from_str(message_id));
        m
    }

    /// Add a reference
    pub fn reference(self, message_id: &str) -> (r: OutgoingMessage)
        ensures
            r.same_except_lists(self),
            r.references@.len() == self.references@.len() + 1,
            r.references@.drop_last() == self.references@,
            r.references@.last()@ == message_id@,
            r.to == self.to,
            r.cc == self.cc,
            r.bcc == self.bcc,
            r.attachments == self.attachments,
    {
        let mut m = self;
        m.references.push(String::from_str(message_id));
        assert(m.references@.drop_last() =~= self.references@);
        m
    }

    /// Add an attachment
    pub fn attachment(self, filename: &str, mime_type: &str, data: Vec<u8>) -> (r: OutgoingMessage)
        ensures
            r.same_except_lists(self),
            r.attachments@.len() == self.attachments@.len() + 1,
            r.attachments@.drop_last() == self.attachments@,
            r.attachments@.last().filename@ == filename@,
            r.attachments@.last().mime_type@ == mime_type@,
            r.attachments@.last().data@ == data@,
            r.to == self.to,
            r.cc == self.cc,
            r.bcc == self.bcc,
            r.references == self.references,
    {
        let mut m = self;
        m.attachments.push(
            OutgoingAttachment {
                filename: String::from_str(filename),
                mime_type: String::from_str(mime_type),
                data,
            },
        );
        assert(m.attachments@.drop_last() =~= self.attachments@);
        m
    }
}

/// SMTP client settings for sending emails
pub struct SmtpClient {
    host: String,
    port: u16,
}

impl SmtpClient {
    /// The server host name.
    pub closed spec fn spec_host(&self) -> Seq<char> {
        self.host@
    }

    /// The server port.
    pub closed spec fn spec_port(&self) -> u16 {
        self.port
    }

    /// Create a new SMTP client
    pub fn new(host: &str, port: u16) -> (r: SmtpClient)
        ensures
            r.spec_host() == host@,
            r.spec_port() == port,
    {
        SmtpClient { host: String::from_str(host), port }
    }

    /// Create a Gmail SMTP client
    pub fn gmail() -> (r: SmtpClient)
        ensures
            r.spec_host() == "smtp.gmail.com"@,
            r.spec_port() == 587,
    {
        Self::new("smtp.gmail.com", 587)
    }

    /// Create an Outlook SMTP client
    pub fn outlook() -> (r: SmtpClient)
        ensures
            r.spec_host() == "smtp.office365.com"@,
            r.spec_port() == 587,
    {
        Self::new("smtp.office365.com", 587)
    }

    /// The server host name.
    pub fn host(&self) -> (r: &str)
        ensures
            r@ == self.spec_host(),
    {
        self.host.as_str()
    }

    /// The server port.
    pub fn port(&self) -> (r: u16)
        ensures
            r == self.spec_port(),
    {
        self.port
    }
}

} // verus!
