//! Attachment detection on a parsed MIME body structure, and folder records
//! built from the mailboxes a LIST command returns.
use vstd::prelude::*;

use crate::folder::{string_views, type_from_attributes_and_name, Folder, FolderType};
use crate::text::{
    ascii_lower, ascii_lower_exec, chars_of, eq_ignore_ascii_case, eq_ignore_ascii_case_str, eq_str,
    find, find_exec, lemma_find_from, slice_of, string_of,
};

verus! {

/// A MIME body structure, holding what attachment detection reads.
pub enum BodyStructure {
    /// A non-text leaf part.
    Basic { mime_type: String, mime_subtype: String, disposition: Option<String> },
    /// A text leaf part.
    Text { disposition: Option<String> },
    /// An encapsulated message.
    Message { disposition: Option<String>, body: Box<BodyStructure> },
    /// A multipart container.
    Multipart { disposition: Option<String>, bodies: Vec<BodyStructure> },
}

/// The disposition is `attachment`, ignoring ASCII case.
pub open spec fn is_attachment_disposition(d: Option<String>) -> bool {
    match d {
        Some(t) => eq_ignore_ascii_case(t@, "attachment"@),
        None => false,
    }
}

/// An S/MIME or PGP signature or encrypted container (lower-cased subtype).
pub open spec fn is_signature_subtype(st: Seq<char>) -> bool {
    st == "pkcs7-signature"@ || st == "x-pkcs7-signature"@ || st == "pgp-signature"@ || st
        == "pkcs7-mime"@
}

/// Whether a body structure contains an attachment: signatures never count;
/// an explicit `attachment` disposition always does; images without it are
/// inline; other non-text leaves count; text parts count only when marked.
pub open spec fn has_attachments(b: BodyStructure) -> bool
    decreases b,
{
    match b {
        BodyStructure::Basic { mime_type, mime_subtype, disposition } => {
            let t = ascii_lower(mime_type@);
            let st = ascii_lower(mime_subtype@);
            if t == "application"@ && is_signature_subtype(st) {
                false
            } else if is_attachment_disposition(disposition) {
                true
            } else if t == "image"@ {
                false
            } else {
                true
            }
        },
        BodyStructure::Text { disposition } => is_attachment_disposition(disposition),
        BodyStructure::Message { disposition, body } => is_attachment_disposition(disposition)
            || has_attachments(*body),
        BodyStructure::Multipart { disposition, bodies } => is_attachment_disposition(disposition)
            || exists|i: int| 0 <= i < bodies.len() && has_attachments(#[trigger] bodies[i]),
    }
}

/// The lower-cased word `attachment` is itself.
proof fn lemma_attachment_word()
    ensures
        ascii_lower("attachment"@) == "attachment"@,
{
    reveal_strlit("attachment");
    assert(ascii_lower("attachment"@) =~= "attachment"@);
}

/// A part whose disposition is `attachment` (in any case) is an attachment,
/// whatever its MIME type (an image too), unless it is an S/MIME or PGP
/// signature or encrypted container; a text part so marked is one too.
pub proof fn law_attachment_disposition(t: String, sub: String, d: Option<String>)
    requires
        d matches Some(x) && ascii_lower(x@) == "attachment"@,
        !(ascii_lower(t@) == "application"@ && (ascii_lower(sub@) == "pkcs7-signature"@
            || ascii_lower(sub@) == "x-pkcs7-signature"@ || ascii_lower(sub@) == "pgp-signature"@
            || ascii_lower(sub@) == "pkcs7-mime"@)),
    ensures
        has_attachments(BodyStructure::Basic { mime_type: t, mime_subtype: sub, disposition: d }),
        has_attachments(BodyStructure::Text { disposition: d }),
{
    lemma_attachment_word();
}

/// An attached image counts: an `image/*` part with the disposition
/// `attachment` is an attachment, and one without a disposition is not.
pub proof fn law_attached_image(sub: String, d: Option<String>, t: String)
    requires
        ascii_lower(t@) == "image"@,
    ensures
        (d matches Some(x) && ascii_lower(x@) == "attachment"@) ==> has_attachments(
            BodyStructure::Basic { mime_type: t, mime_subtype: sub, disposition: d },
        ),
        d is None ==> !has_attachments(BodyStructure::Basic { mime_type: t, mime_subtype: sub, disposition: d }),
{
    lemma_attachment_word();
    reveal_strlit("image");
    reveal_strlit("application");
    assert("image"@.len() != "application"@.len());
}

/// Signatures and encrypted containers never count, whatever their
/// disposition; any other leaf that is neither text nor an image counts even
/// without a disposition; a text part counts only when marked as an
/// attachment.
pub proof fn law_leaf_parts(t: String, sub: String, d: Option<String>)
    ensures
        ascii_lower(t@) == "application"@ && (ascii_lower(sub@) == "pkcs7-signature"@ || ascii_lower(sub@)
            == "x-pkcs7-signature"@ || ascii_lower(sub@) == "pgp-signature"@ || ascii_lower(sub@) == "pkcs7-mime"@)
            ==> !has_attachments(BodyStructure::Basic { mime_type: t, mime_subtype: sub, disposition: d }),
        ascii_lower(t@) != "image"@ && !(ascii_lower(t@) == "application"@ && (ascii_lower(sub@) == "pkcs7-signature"@
            || ascii_lower(sub@) == "x-pkcs7-signature"@ || ascii_lower(sub@) == "pgp-signature"@ || ascii_lower(
            sub@,
        ) == "pkcs7-mime"@)) ==> has_attachments(BodyStructure::Basic { mime_type: t, mime_subtype: sub, disposition: d }),
        has_attachments(BodyStructure::Text { disposition: d }) == (d matches Some(x) && ascii_lower(x@)
            == "attachment"@),
{
    lemma_attachment_word();
}

/// A message or multipart body holding a part with an attachment has an
/// attachment; one without a disposition none of whose parts has one has none.
pub proof fn law_nested_attachments(d: Option<String>, body: Box<BodyStructure>, bodies: Vec<BodyStructure>, i: int)
    requires
        0 <= i < bodies@.len(),
    ensures
        has_attachments(*body) ==> has_attachments(BodyStructure::Message { disposition: d, body }),
        has_attachments(bodies@[i]) ==> has_attachments(BodyStructure::Multipart { disposition: d, bodies }),
        d is None && !has_attachments(*body) ==> !has_attachments(BodyStructure::Message { disposition: d, body }),
        d is None && (forall|k: int| 0 <= k < bodies@.len() ==> !has_attachments(#[trigger] bodies@[k]))
            ==> !has_attachments(BodyStructure::Multipart { disposition: d, bodies }),
{
    let m = BodyStructure::Multipart { disposition: d, bodies };
    if has_attachments(bodies@[i]) {
        assert(has_attachments(bodies[i]));
        assert(exists|k: int| 0 <= k < bodies.len() && has_attachments(#[trigger] bodies[k]));
        assert(has_attachments(m) == (is_attachment_disposition(d) || exists|k: int| 0 <= k < bodies.len() && has_attachments(#[trigger] bodies[k])));
        assert(has_attachments(m));
    }
}

/// Executable `is_attachment_disposition`.
fn is_attachment_disposition_exec(d: &Option<String>) -> (r: bool)
    ensures
        r == is_attachment_disposition(*d),
{
    match d {
        Some(t) => {
            let c = chars_of(t.as_str());
            eq_ignore_ascii_case_str(&c, "attachment")
        },
        None => false,
    }
}

impl BodyStructure {
    /// Recursively check if a BODYSTRUCTURE contains any attachment parts
    #[verifier::loop_isolation(false)]
    pub fn has_attachments(&self) -> (r: bool)
        ensures
            r == has_attachments(*self),
        decreases self,
    {
        match self {
            BodyStructure::Basic { mime_type, mime_subtype, disposition } => {
                let tc = chars_of(mime_type.as_str());
                let t = ascii_lower_exec(&tc);
                let sc = chars_of(mime_subtype.as_str());
                let st = ascii_lower_exec(&sc);
                // Skip S/MIME signatures and encrypted containers
                if eq_str(&t, "application") && (eq_str(&st, "pkcs7-signature") || eq_str(
                    &st,
                    "x-pkcs7-signature",
                ) || eq_str(&st, "pgp-signature") || eq_str(&st, "pkcs7-mime")) {
                    return false;
                }
                // Explicit attachment disposition → real attachment
                if is_attachment_disposition_exec(disposition) {
                    return true;
                }
                // Images without explicit "attachment" disposition are likely inline
                if eq_str(&t, "image") {
                    return false;
                }
                true
            },
            BodyStructure::Text { disposition } => is_attachment_disposition_exec(disposition),
            BodyStructure::Message { disposition, body } => {
                if is_attachment_disposition_exec(disposition) {
                    return true;
                }
                body.has_attachments()
            },
            BodyStructure::Multipart { disposition, bodies } => {
                if is_attachment_disposition_exec(disposition) {
                    return true;
                }
                let mut i: usize = 0;
                while i < bodies.len()
                    invariant
                        i <= bodies@.len(),
                        forall|j: int| 0 <= j < i ==> !has_attachments(#[trigger] bodies@[j]),
                    decreases bodies@.len() - i,
                {
                    proof {
                        assert(decreases_to!(bodies@ => bodies@[i as int]));
                    }
                    if bodies[i].has_attachments() {
                        return true;
                    }
                    i += 1;
                }
                false
            },
        }
    }
}

// ───────────────────────── mailbox names ─────────────────────────

/// The text after the last occurrence of a non-empty `d` in `s` (all of `s`
/// when `d` does not occur): the last piece of `str::split`.
pub open spec fn last_piece(s: Seq<char>, d: Seq<char>) -> Seq<char>
    decreases s.len(),
{
    if d.len() == 0 {
        Seq::empty()
    } else {
        match find(s, d) {
            Some(i) => if i + d.len() <= s.len() && i >= 0 {
                last_piece(s.skip(i + d.len()), d)
            } else {
                s
            },
            None => s,
        }
    }
}

/// Executable `last_piece`.
pub(crate) fn last_piece_exec(s: &[char], d: &[char]) -> (r: Vec<char>)
    ensures
        r@ == last_piece(s@, d@),
{
    if d.len() == 0 {
        return Vec::new();
    }
    let mut cur = slice_of(s, 0, s.len());
    assert(cur@ =~= s@);
    loop
        invariant
            d@.len() > 0,
            last_piece(s@, d@) == last_piece(cur@, d@),
        decreases cur@.len(),
    {
        proof {
            lemma_find_from(cur@, d@, 0);
        }
        match find_exec(&cur, d) {
            Some(i) => {
                let n = cur.len();
                assert(i + d.len() <= n);
                let next = slice_of(&cur, i + d.len(), n);
                assert(next@ =~= cur@.skip(i + d@.len()));
                cur = next;
            },
            None => {
                return cur;
            },
        }
    }
}

/// The folder a LIST mailbox describes: its display name is the last piece of
/// the mailbox name split at the delimiter (`/` when the server gives none).
pub fn folder_from_mailbox(mailbox_name: &str, delimiter: Option<&str>, attributes: Vec<String>) -> (r: Folder)
    ensures
        ({
            let d = match delimiter {
                Some(x) => x@,
                None => "/"@,
            };
            &&& r.name@ == last_piece(mailbox_name@, d)
            &&& r.full_path@ == mailbox_name@
            &&& r.delimiter == (if d.len() > 0 {
                Some(d[0])
            } else {
                None::<char>
            })
            &&& r.folder_type == type_from_attributes_and_name(string_views(attributes@), r.name@)
            &&& r.attributes@ == attributes@
            &&& r.uidvalidity is None && r.message_count is None && r.unread_count is None
                && r.uid_next is None
        }),
{
    let dc = match delimiter {
        Some(x) => chars_of(x),
        None => chars_of("/"),
    };
    let delim_char = if dc.len() > 0 {
        Some(dc[0])
    } else {
        None
    };
    let nc = chars_of(mailbox_name);
    let piece = last_piece_exec(&nc, &dc);
    let name = string_of(&piece);
    Folder::new(name, String::from_str(mailbox_name), delim_char, attributes)
}

/// The folder a SELECT of `folder_path` reports: named by the last `/`-piece
/// of the path, typed from the path, with the counts the server returned.
pub fn selected_folder(folder_path: &str, uid_validity: Option<u32>, exists: u32, uid_next: Option<u32>) -> (r: Folder)
    ensures
        r.name@ == last_piece(folder_path@, "/"@),
        r.full_path@ == folder_path@,
        r.folder_type == type_from_attributes_and_name(Seq::empty(), folder_path@),
        r.delimiter == Some('/'),
        r.attributes@.len() == 0,
        r.uidvalidity == uid_validity,
        r.message_count == Some(exists),
        r.unread_count is None,
        r.uid_next == uid_next,
{
    let nc = chars_of(folder_path);
    let dc = chars_of("/");
    let piece = last_piece_exec(&nc, &dc);
    let attributes: Vec<String> = Vec::new();
    let folder_type = FolderType::from_attributes_and_name(attributes.as_slice(), folder_path);
    assert(string_views(attributes@) =~= Seq::<Seq<char>>::empty());
    Folder {
        name: string_of(&piece),
        full_path: String::from_str(folder_path),
        folder_type,
        delimiter: Some('/'),
        attributes,
        uidvalidity: uid_validity,
        message_count: Some(exists),
        unread_count: None,
        uid_next,
    }
}

/// The folder the raw client's SELECT of `folder` reports: the whole path is
/// its name, typed from the path, with the `EXISTS` count seen.
pub fn simple_selected_folder(folder: &str, exists: u32) -> (r: Folder)
    ensures
        r.name@ == folder@,
        r.full_path@ == folder@,
        r.folder_type == type_from_attributes_and_name(Seq::empty(), folder@),
        r.delimiter == Some('/'),
        r.attributes@.len() == 0,
        r.uidvalidity is None,
        r.message_count == Some(exists),
        r.unread_count is None,
        r.uid_next is None,
{
    let attributes: Vec<String> = Vec::new();
    let folder_type = FolderType::from_attributes_and_name(attributes.as_slice(), folder);
    assert(string_views(attributes@) =~= Seq::<Seq<char>>::empty());
    Folder {
        name: String::from_str(folder),
        full_path: String::from_str(folder),
        folder_type,
        delimiter: Some('/'),
        attributes,
        uidvalidity: None,
        message_count: Some(exists),
        unread_count: None,
        uid_next: None,
    }
}

} // verus!
