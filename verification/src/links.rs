//! Links in HTML mail: every `href` is rewritten so that a click opens the
//! link outside the mail view, through the `northmail-link://open?` scheme
//! with the target URL percent-encoded.
use vstd::prelude::*;
use crate::text::{chars_of, eq_str, extend_str, has_prefix, starts_with_str, string_of, utf8_bytes};

verus! {

/// The pattern of a double-quoted `href` attribute (case-insensitive).
pub const HREF_DOUBLE_QUOTED: &'static str = "(?i)href\\s*=\\s*\"([^\"]*)\"";

/// The pattern of a single-quoted `href` attribute (case-insensitive).
pub const HREF_SINGLE_QUOTED: &'static str = "(?i)href\\s*=\\s*'([^']*)'";

/// A byte that percent-encoding leaves as it is.
pub open spec fn url_safe(b: u8) -> bool {
    (48 <= b <= 57) || (65 <= b <= 90) || (97 <= b <= 122) || b == 45 || b == 46 || b == 95 || b == 126
}

/// The upper-case hexadecimal digit of a value below sixteen.
pub open spec fn hex_digit(d: u8) -> char {
    if d < 10 { ((48 + d) as u8) as char } else { ((55 + d) as u8) as char }
}

/// Every byte percent-encoded but ASCII letters, digits and `-`, `.`, `_`, `~`.
pub open spec fn percent_encoded(bs: Seq<u8>) -> Seq<char>
    decreases bs.len(),
{
    if bs.len() == 0 {
        Seq::empty()
    } else {
        let b = bs.last();
        percent_encoded(bs.drop_last()) + if url_safe(b) { seq![b as char] } else { seq!['%', hex_digit(b / 16), hex_digit(b % 16)] }
    }
}

/// Percent-encodes a text with `urlencoding::encode`, which encodes every
/// byte of its UTF-8 form except ASCII letters, digits and `-`, `.`, `_`, `~`
/// as `%` and two upper-case hex digits.
#[verifier::external_body]
fn url_encode(s: &str) -> (r: String)
    ensures
        r@ == percent_encoded(utf8_bytes(s@)),
{
    urlencoding::encode(s).into_owned()
}

/// What the `regex` crate's `Regex::new(pattern)` and `replace_all` give for
/// a text when every match's first group is replaced by what
/// `rewrite_href` makes of it (`None` when the pattern does not compile).
pub uninterp spec fn href_replacement(pattern: Seq<char>, text: Seq<char>, quote: char) -> Option<Seq<char>>;

/// Replaces every match of `pattern` in `text` with `rewrite_href` of its
/// first group, with the `regex` crate (`Regex::new`, `replace_all`);
/// `None` when the pattern does not compile. The pattern is one of the two
/// `href` patterns, whose first group takes part in every match (indexing a
/// missing group panics). Claimed: the result depends on the pattern, the
/// text and the quote alone.
#[verifier::external_body]
fn regex_rewrite_hrefs(pattern: &str, text: &str, quote: char) -> (r: Option<String>)
    requires
        pattern@ == HREF_DOUBLE_QUOTED@ || pattern@ == HREF_SINGLE_QUOTED@,
    ensures
        match r {
            Some(s) => href_replacement(pattern@, text@, quote) == Some(s@),
            None => href_replacement(pattern@, text@, quote) is None,
        },
{
    match regex::Regex::new(pattern) {
        Ok(re) => Some(re.replace_all(text, |caps: &regex::Captures| rewrite_href(&caps[1], quote)).into_owned()),
        Err(_) => None,
    }
}

/// The link opens in the browser: it is a web or mail link.
pub open spec fn opens_outside(url: Seq<char>) -> bool {
    has_prefix(url, "http://"@) || has_prefix(url, "https://"@) || has_prefix(url, "mailto:"@)
}

/// The attribute that replaces `href=<quote>url<quote>`: web and mail links
/// go through the `northmail-link://open?` scheme, anchors and empty links
/// stay, anything else is disabled (`#`).
pub open spec fn rewritten_href(url: Seq<char>, quote: char) -> Seq<char> {
    "href="@ + seq![quote] + (if opens_outside(url) {
        "northmail-link://open?"@ + percent_encoded(utf8_bytes(url))
    } else if url.len() == 0 || url[0] == '#' {
        url
    } else {
        "#"@
    }) + seq![quote]
}

/// The attribute that replaces one `href` whose target is `url`.
pub fn rewrite_href(url: &str, quote: char) -> (r: String)
    ensures
        r@ == rewritten_href(url@, quote),
{
    let uc = chars_of(url);
    let mut v: Vec<char> = Vec::new();
    extend_str(&mut v, "href=");
    v.push(quote);
    if starts_with_str(&uc, "http://") || starts_with_str(&uc, "https://") || starts_with_str(&uc, "mailto:") {
        extend_str(&mut v, "northmail-link://open?");
        let e = url_encode(url);
        extend_str(&mut v, e.as_str());
    } else if uc.len() == 0 || uc[0] == '#' {
        extend_str(&mut v, url);
    } else {
        extend_str(&mut v, "#");
    }
    v.push(quote);
    string_of(&v)
}

/// The HTML with double-quoted, then single-quoted `href`s rewritten; a
/// pattern that does not compile (both do) leaves the text as it is.
pub open spec fn links_rewritten(html: Seq<char>) -> Seq<char> {
    let pass1 = match href_replacement(HREF_DOUBLE_QUOTED@, html, '"') {
        Some(t) => t,
        None => html,
    };
    match href_replacement(HREF_SINGLE_QUOTED@, pass1, '\'') {
        Some(t) => t,
        None => pass1,
    }
}

/// Rewrite all `href` attributes in HTML so links go through the
/// `northmail-link://` scheme, which opens them in the user's default browser.
pub fn rewrite_links_for_external_open(html: &str) -> (r: String)
    ensures
        r@ == links_rewritten(html@),
{
    let pass1 = match regex_rewrite_hrefs(HREF_DOUBLE_QUOTED, html, '"') {
        Some(t) => t,
        None => html.to_string(),
    };
    match regex_rewrite_hrefs(HREF_SINGLE_QUOTED, pass1.as_str(), '\'') {
        Some(t) => t,
        None => pass1,
    }
}

} // verus!
