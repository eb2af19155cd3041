//! SASL XOAUTH2 initial response for IMAP and SMTP authentication.
use vstd::prelude::*;

use crate::text::{chars_of, extend_chars, extend_str, string_of};

verus! {

/// The character of a six-bit value in the standard base64 alphabet
/// (RFC 4648, section 4): `A`-`Z`, `a`-`z`, `0`-`9`, `+`, `/`.
pub open spec fn base64_digit(v: int) -> char {
    if v < 26 {
        ('A' as int + v) as char
    } else if v < 52 {
        ('a' as int + v - 26) as char
    } else if v < 62 {
        ('0' as int + v - 52) as char
    } else if v == 62 {
        '+'
    } else {
        '/'
    }
}

/// Standard base64 (RFC 4648, section 4): each group of three bytes gives
/// four characters, six bits each, most significant first; a last group of
/// one or two bytes is padded with `=` to four characters.
pub open spec fn base64_standard(b: Seq<u8>) -> Seq<char>
    decreases b.len(),
{
    let x0 = if b.len() > 0 { b[0] as int } else { 0 };
    let x1 = if b.len() > 1 { b[1] as int } else { 0 };
    let x2 = if b.len() > 2 { b[2] as int } else { 0 };
    if b.len() == 0 {
        Seq::empty()
    } else if b.len() == 1 {
        seq![base64_digit(x0 / 4), base64_digit((x0 % 4) * 16), '=', '=']
    } else if b.len() == 2 {
        seq![base64_digit(x0 / 4), base64_digit((x0 % 4) * 16 + x1 / 16), base64_digit((x1 % 16) * 4), '=']
    } else {
        seq![
            base64_digit(x0 / 4),
            base64_digit((x0 % 4) * 16 + x1 / 16),
            base64_digit((x1 % 16) * 4 + x2 / 64),
            base64_digit(x2 % 64),
        ] + base64_standard(b.skip(3))
    }
}

/// Encodes bytes with the `base64` crate's standard engine (`Engine::encode`),
/// which writes standard base64 with padding (`base64_standard`).
#[verifier::external_body]
pub(crate) fn base64_encode(data: &[u8]) -> (r: String)
    ensures
        r@ == base64_standard(data@),
{
    base64::Engine::encode(&base64::engine::general_purpose::STANDARD, data)
}

/// XOAUTH2 authenticator
///
/// Implements the SASL XOAUTH2 mechanism for Gmail IMAP authentication.
#[derive(Debug, Clone)]
pub struct XOAuth2Authenticator {
    /// Email address
    email: String,
    /// OAuth2 access token
    access_token: String,
}

/// `"user={email}\x01auth=Bearer {token}\x01\x01"`.
pub open spec fn xoauth2_string(email: Seq<char>, token: Seq<char>) -> Seq<char> {
    "user="@ + email + "\x01auth=Bearer "@ + token + "\x01\x01"@
}

impl XOAuth2Authenticator {
    /// The email address being authenticated.
    pub closed spec fn spec_email(&self) -> Seq<char> {
        self.email@
    }

    /// The access token presented.
    pub closed spec fn spec_token(&self) -> Seq<char> {
        self.access_token@
    }

    /// Create a new XOAUTH2 authenticator
    pub fn new(email: &str, access_token: &str) -> (r: XOAuth2Authenticator)
        ensures
            r.spec_email() == email@,
            r.spec_token() == access_token@,
    {
        XOAuth2Authenticator {
            email: String::from_str(email),
            access_token: String::from_str(access_token),
        }
    }

    /// Generate the XOAUTH2 authentication string
    ///
    /// Format: "user={email}\x01auth=Bearer {token}\x01\x01"
    pub fn auth_string(&self) -> (r: String)
        ensures
            r@ == xoauth2_string(self.spec_email(), self.spec_token()),
    {
        xoauth2_auth_string(self.email.as_str(), self.access_token.as_str())
    }

    /// Get the base64-encoded authentication response
    pub fn response(&self) -> (r: String)
        ensures
            r@ == base64_standard(
                crate::text::utf8_bytes(xoauth2_string(self.spec_email(), self.spec_token())),
            ),
    {
        let s = self.auth_string();
        base64_encode(s.as_str().as_bytes())
    }
}

/// The XOAUTH2 string for an email address and an access token.
pub fn xoauth2_auth_string(email: &str, token: &str) -> (r: String)
    ensures
        r@ == xoauth2_string(email@, token@),
{
    let mut v: Vec<char> = Vec::new();
    extend_str(&mut v, "user=");
    let e = chars_of(email);
    extend_chars(&mut v, &e);
    extend_str(&mut v, "\x01auth=Bearer ");
    let t = chars_of(token);
    extend_chars(&mut v, &t);
    extend_str(&mut v, "\x01\x01");
    string_of(&v)
}

/// The base64 SASL response for XOAUTH2, as the raw IMAP client sends it.
pub fn xoauth2_response(email: &str, token: &str) -> (r: String)
    ensures
        r@ == base64_standard(crate::text::utf8_bytes(xoauth2_string(email@, token@))),
{
    let s = xoauth2_auth_string(email, token);
    base64_encode(s.as_str().as_bytes())
}

} // verus!
