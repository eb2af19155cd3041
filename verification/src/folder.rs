//! IMAP folder types: detection from special-use attributes and names, and
//! de-duplication of detected types across a folder list.
use vstd::prelude::*;

use crate::text::{lemma_push_contains, chars_of, contains, contains_str, eq_str, lowercase, slice_of, to_lowercase};

verus! {

/// Type of email folder
#[derive(Debug, Clone, Copy, PartialEq, Eq, Hash, Structural)]
pub enum FolderType {
    /// Inbox folder
    Inbox,
    /// Sent messages
    Sent,
    /// Draft messages
    Drafts,
    /// Trash/deleted messages
    Trash,
    /// Spam/junk
    Spam,
    /// Archive
    Archive,
    /// User-created folder
    Other,
}

/// Represents an IMAP folder/mailbox
#[derive(Debug, Clone)]
pub struct Folder {
    /// Folder name (display name)
    pub name: String,
    /// Full path including hierarchy delimiter
    pub full_path: String,
    /// Folder type
    pub folder_type: FolderType,
    /// Hierarchy delimiter (e.g., "/" for Gmail)
    pub delimiter: Option<char>,
    /// Special-use attributes
    pub attributes: Vec<String>,
    /// UIDVALIDITY value
    pub uidvalidity: Option<u32>,
    /// Number of messages
    pub message_count: Option<u32>,
    /// Number of unread messages
    pub unread_count: Option<u32>,
    /// Highest UID in folder
    pub uid_next: Option<u32>,
}

// ───────────────────────── specifications ─────────────────────────

/// The character content of each string in a list.
pub open spec fn string_views(v: Seq<String>) -> Seq<Seq<char>> {
    v.map_values(|s: String| s@)
}

/// `s` without its leading backslashes (`trim_start_matches('\\')`).
pub open spec fn strip_backslashes(s: Seq<char>) -> Seq<char>
    decreases s.len(),
{
    if s.len() > 0 && s[0] == '\\' {
        strip_backslashes(s.drop_first())
    } else {
        s
    }
}

/// The folder type that one special-use attribute names, if any.
/// Matching ignores case and any leading backslashes.
pub open spec fn attribute_type(attr: Seq<char>) -> Option<FolderType> {
    let n = strip_backslashes(lowercase(attr));
    if n == "inbox"@ {
        Some(FolderType::Inbox)
    } else if n == "sent"@ {
        Some(FolderType::Sent)
    } else if n == "drafts"@ {
        Some(FolderType::Drafts)
    } else if n == "trash"@ {
        Some(FolderType::Trash)
    } else if n == "junk"@ {
        Some(FolderType::Spam)
    } else if n == "archive"@ || n == "all"@ {
        Some(FolderType::Archive)
    } else {
        None
    }
}

/// The type named by the first attribute that names one.
pub open spec fn type_from_attributes(attrs: Seq<Seq<char>>) -> Option<FolderType>
    decreases attrs.len(),
{
    if attrs.len() == 0 {
        None
    } else {
        match attribute_type(attrs[0]) {
            Some(t) => Some(t),
            None => type_from_attributes(attrs.drop_first()),
        }
    }
}

/// The folder type guessed from a folder name (case-insensitive).
pub open spec fn type_from_name(name: Seq<char>) -> FolderType {
    let l = lowercase(name);
    if l == "inbox"@ {
        FolderType::Inbox
    } else if contains(l, "sent"@) {
        FolderType::Sent
    } else if contains(l, "draft"@) {
        FolderType::Drafts
    } else if contains(l, "trash"@) || contains(l, "bin"@) || contains(l, "deleted"@) {
        FolderType::Trash
    } else if contains(l, "spam"@) || contains(l, "junk"@) {
        FolderType::Spam
    } else if contains(l, "archive"@) || contains(l, "all mail"@) {
        FolderType::Archive
    } else {
        FolderType::Other
    }
}

/// Attributes first, then the name.
pub open spec fn type_from_attributes_and_name(attrs: Seq<Seq<char>>, name: Seq<char>) -> FolderType {
    match type_from_attributes(attrs) {
        Some(t) => t,
        None => type_from_name(name),
    }
}

/// The folder carries a special-use attribute that names a type.
pub open spec fn has_special_use(f: Folder) -> bool {
    type_from_attributes(string_views(f.attributes@)) is Some
}

/// A type that de-duplication may take away (everything but `Inbox` and `Other`).
pub open spec fn is_special_kind(t: FolderType) -> bool {
    t != FolderType::Other && t != FolderType::Inbox
}

/// Some folder with a special-use attribute holds type `t`.
pub open spec fn claimed_by_attribute(fs: Seq<Folder>, t: FolderType) -> bool {
    exists|j: int| 0 <= j < fs.len() && has_special_use(#[trigger] fs[j]) && fs[j].folder_type == t
}

/// The type of folder `i` once name-only detections that conflict with an
/// attribute-detected folder are downgraded.
pub open spec fn type_after_claims(fs: Seq<Folder>, i: int) -> FolderType {
    let t = fs[i].folder_type;
    if is_special_kind(t) && !has_special_use(fs[i]) && claimed_by_attribute(fs, t) {
        FolderType::Other
    } else {
        t
    }
}

/// An earlier name-only folder already holds type `t` after the claims pass.
pub open spec fn earlier_name_only(fs: Seq<Folder>, i: int, t: FolderType) -> bool {
    exists|j: int| 0 <= j < i && !has_special_use(#[trigger] fs[j]) && type_after_claims(fs, j) == t
}

/// The type of folder `i` after de-duplication.
pub open spec fn deduplicated_type(fs: Seq<Folder>, i: int) -> FolderType {
    let t = type_after_claims(fs, i);
    if is_special_kind(t) && !has_special_use(fs[i]) && earlier_name_only(fs, i, t) {
        FolderType::Other
    } else {
        t
    }
}

/// Folder `f` with its type replaced by `t`.
pub open spec fn with_type(f: Folder, t: FolderType) -> Folder {
    Folder { folder_type: t, ..f }
}

/// The whole folder list after de-duplication.
pub open spec fn deduplicated(fs: Seq<Folder>) -> Seq<Folder> {
    Seq::new(fs.len(), |i: int| with_type(fs[i], deduplicated_type(fs, i)))
}

/// Whether a folder is selectable: no attribute equals `\Noselect` or `\NonExistent`
/// ignoring case.
pub open spec fn selectable(attrs: Seq<Seq<char>>) -> bool {
    forall|k: int|
        0 <= k < attrs.len() ==> lowercase(#[trigger] attrs[k]) != "\\noselect"@ && lowercase(
            attrs[k],
        ) != "\\nonexistent"@
}

/// Whether some attribute equals `\HasChildren` ignoring case.
pub open spec fn children_flag(attrs: Seq<Seq<char>>) -> bool {
    exists|k: int| 0 <= k < attrs.len() && lowercase(#[trigger] attrs[k]) == "\\haschildren"@
}

// ───────────────────────── detection ─────────────────────────

/// `s` without its leading backslashes.
fn strip_backslashes_exec(s: &[char]) -> (r: Vec<char>)
    ensures
        r@ == strip_backslashes(s@),
{
    let mut i: usize = 0;
    assert(s@.skip(0) =~= s@);
    while i < s.len() && s[i] == '\\'
        invariant
            i <= s@.len(),
            strip_backslashes(s@) == strip_backslashes(s@.skip(i as int)),
        decreases s@.len() - i,
    {
        assert(s@.skip(i as int).drop_first() =~= s@.skip(i + 1));
        i += 1;
    }
    assert(s@.skip(i as int) =~= s@.subrange(i as int, s@.len() as int));
    slice_of(s, i, s.len())
}

/// The folder type one attribute names, if any.
fn attribute_type_exec(attr: &str) -> (r: Option<FolderType>)
    ensures
        r == attribute_type(attr@),
{
    let lower = to_lowercase(attr);
    let lc = chars_of(lower.as_str());
    let n = strip_backslashes_exec(&lc);
    if eq_str(&n, "inbox") {
        Some(FolderType::Inbox)
    } else if eq_str(&n, "sent") {
        Some(FolderType::Sent)
    } else if eq_str(&n, "drafts") {
        Some(FolderType::Drafts)
    } else if eq_str(&n, "trash") {
        Some(FolderType::Trash)
    } else if eq_str(&n, "junk") {
        Some(FolderType::Spam)
    } else if eq_str(&n, "archive") || eq_str(&n, "all") {
        Some(FolderType::Archive)
    } else {
        None
    }
}

impl FolderType {
    /// Detect folder type from IMAP special-use attributes only (RFC 6154)
    /// Also matches without backslash prefix (some servers send "Trash" instead of "\Trash")
    pub fn from_attributes(attributes: &[String]) -> (r: Option<FolderType>)
        ensures
            r == type_from_attributes(string_views(attributes@)),
    {
        let ghost all = string_views(attributes@);
        let mut i: usize = 0;
        assert(all.skip(0) =~= all);
        while i < attributes.len()
            invariant
                i <= attributes@.len(),
                all == string_views(attributes@),
                type_from_attributes(all) == type_from_attributes(all.skip(i as int)),
            decreases attributes@.len() - i,
        {
            let t = attribute_type_exec(attributes[i].as_str());
            assert(all.skip(i as int)[0] == attributes@[i as int]@);
            assert(all.skip(i as int).drop_first() =~= all.skip(i + 1));
            if t.is_some() {
                return t;
            }
            i += 1;
        }
        assert(all.skip(i as int).len() == 0);
        None
    }

    /// Detect folder type from name only (fallback when no attributes)
    pub fn from_name(name: &str) -> (r: FolderType)
        ensures
            r == type_from_name(name@),
    {
        let lower = to_lowercase(name);
        let l = chars_of(lower.as_str());
        if eq_str(&l, "inbox") {
            FolderType::Inbox
        } else if contains_str(&l, "sent") {
            FolderType::Sent
        } else if contains_str(&l, "draft") {
            FolderType::Drafts
        } else if contains_str(&l, "trash") || contains_str(&l, "bin") || contains_str(
            &l,
            "deleted",
        ) {
            FolderType::Trash
        } else if contains_str(&l, "spam") || contains_str(&l, "junk") {
            FolderType::Spam
        } else if contains_str(&l, "archive") || contains_str(&l, "all mail") {
            FolderType::Archive
        } else {
            FolderType::Other
        }
    }

    /// Detect folder type from attributes first, then fall back to name.
    /// Use this for single-folder detection (e.g., cached folders without attributes).
    pub fn from_attributes_and_name(attributes: &[String], name: &str) -> (r: FolderType)
        ensures
            r == type_from_attributes_and_name(string_views(attributes@), name@),
    {
        match Self::from_attributes(attributes) {
            Some(t) => t,
            None => Self::from_name(name),
        }
    }
}

/// One more folder adds at most its own type to the earlier name-only types.
proof fn lemma_earlier_step(fs: Seq<Folder>, i: int, u: FolderType)
    requires
        0 <= i < fs.len(),
    ensures
        earlier_name_only(fs, i + 1, u) <==> earlier_name_only(fs, i, u) || (!has_special_use(fs[i])
            && type_after_claims(fs, i) == u),
{
    if earlier_name_only(fs, i + 1, u) {
        let j = choose|j: int|
            0 <= j < i + 1 && !has_special_use(#[trigger] fs[j]) && type_after_claims(fs, j) == u;
        if j < i {
            assert(earlier_name_only(fs, i, u));
        }
    }
    if earlier_name_only(fs, i, u) {
        let j = choose|j: int|
            0 <= j < i && !has_special_use(#[trigger] fs[j]) && type_after_claims(fs, j) == u;
        assert(0 <= j < i + 1);
    }
    if !has_special_use(fs[i]) && type_after_claims(fs, i) == u {
        assert(0 <= i < i + 1 && !has_special_use(fs[i]) && type_after_claims(fs, i) == u);
    }
}

/// The folder has a special-use attribute (executable form of `has_special_use`).
fn has_special_use_exec(f: &Folder) -> (r: bool)
    ensures
        r == has_special_use(*f),
{
    FolderType::from_attributes(f.attributes.as_slice()).is_some()
}

/// Whether `t` is in the list.
fn type_listed(list: &Vec<FolderType>, t: FolderType) -> (r: bool)
    ensures
        r == list@.contains(t),
{
    let mut i: usize = 0;
    while i < list.len()
        invariant
            i <= list@.len(),
            forall|j: int| 0 <= j < i ==> list@[j] != t,
        decreases list@.len() - i,
    {
        if list[i] == t {
            return true;
        }
        i += 1;
    }
    false
}

impl FolderType {
    /// Deduplicate folder types across a list of folders.
    /// Attribute-detected types always win. Name-based detection only applies
    /// if no folder already claimed that type via IMAP special-use attributes.
    /// When no attributes exist, only the first folder per type is kept.
    pub fn deduplicate_folder_types(folders: &mut Vec<Folder>)
        ensures
            final(folders)@ == deduplicated(old(folders)@),
    {
        let ghost fs = folders@;
        let n = folders.len();
        // First pass: collect types claimed by attribute detection
        let mut attr_types: Vec<FolderType> = Vec::new();
        let mut i: usize = 0;
        while i < n
            invariant
                n == fs.len(),
                folders@ == fs,
                i <= n,
                forall|t: FolderType|
                    attr_types@.contains(t) <==> exists|j: int|
                        0 <= j < i && has_special_use(#[trigger] fs[j]) && fs[j].folder_type == t,
            decreases n - i,
        {
            let ghost before = attr_types@;
            if has_special_use_exec(&folders[i]) {
                let t = folders[i].folder_type;
                attr_types.push(t);
                proof {
                    assert forall|u: FolderType|
                        attr_types@.contains(u) <==> before.contains(u) || u == t by {
                        lemma_push_contains(before, t, u);
                    }
                }
            }
            proof {
                assert forall|u: FolderType|
                    attr_types@.contains(u) <==> exists|j: int|
                        0 <= j < i + 1 && has_special_use(#[trigger] fs[j]) && fs[j].folder_type
                            == u by {
                    if exists|j: int|
                        0 <= j < i + 1 && has_special_use(#[trigger] fs[j]) && fs[j].folder_type
                            == u {
                        let j = choose|j: int|
                            0 <= j < i + 1 && has_special_use(#[trigger] fs[j])
                                && fs[j].folder_type == u;
                        if j < i {
                            assert(before.contains(u));
                        }
                    }
                    if before.contains(u) {
                        let j = choose|j: int|
                            0 <= j < i && has_special_use(#[trigger] fs[j]) && fs[j].folder_type
                                == u;
                        assert(0 <= j < i + 1);
                    }
                }
            }
            i += 1;
        }
        // Second pass: downgrade name-only detections that conflict with attribute ones
        let mut i: usize = 0;
        while i < n
            invariant
                n == fs.len(),
                folders@.len() == n,
                i <= n,
                forall|t: FolderType| attr_types@.contains(t) <==> claimed_by_attribute(fs, t),
                forall|j: int|
                    0 <= j < i ==> #[trigger] folders@[j] == with_type(fs[j], type_after_claims(fs, j)),
                forall|j: int| i <= j < n ==> #[trigger] folders@[j] == fs[j],
            decreases n - i,
        {
            let t = folders[i].folder_type;
            let special = has_special_use_exec(&folders[i]);
            if t == FolderType::Other || t == FolderType::Inbox {
                assert(folders@[i as int] == with_type(fs[i as int], type_after_claims(fs, i as int)));
            } else if !special && type_listed(&attr_types, t) {
                folders[i].folder_type = FolderType::Other;
                assert(folders@[i as int] == with_type(fs[i as int], type_after_claims(fs, i as int)));
            } else {
                assert(folders@[i as int] == with_type(fs[i as int], type_after_claims(fs, i as int)));
            }
            i += 1;
        }
        // Third pass: for types with NO attribute-based winner, keep only the first
        // name-detected folder per type (prevents 3x Trash, 3x Sent, etc.)
        let mut seen_name_types: Vec<FolderType> = Vec::new();
        let mut i: usize = 0;
        while i < n
            invariant
                n == fs.len(),
                folders@.len() == n,
                i <= n,
                forall|t: FolderType|
                    #![trigger seen_name_types@.contains(t)]
                    #![trigger earlier_name_only(fs, i as int, t)]
                    seen_name_types@.contains(t) <==> is_special_kind(t) && earlier_name_only(
                        fs,
                        i as int,
                        t,
                    ),
                forall|j: int|
                    0 <= j < i ==> #[trigger] folders@[j] == with_type(fs[j], deduplicated_type(fs, j)),
                forall|j: int|
                    i <= j < n ==> #[trigger] folders@[j] == with_type(fs[j], type_after_claims(fs, j)),
            decreases n - i,
        {
            let ghost before = seen_name_types@;
            let t = folders[i].folder_type;
            assert(t == type_after_claims(fs, i as int));
            let special = has_special_use_exec(&folders[i]);
            assert(special == has_special_use(fs[i as int]));
            if t == FolderType::Other || t == FolderType::Inbox {
                assert forall|u: FolderType|
                    seen_name_types@.contains(u) <==> is_special_kind(u) && earlier_name_only(
                        fs,
                        i + 1,
                        u,
                    ) by {
                    lemma_earlier_step(fs, i as int, u);
                    assert(before.contains(u) == (is_special_kind(u) && earlier_name_only(fs, i as int, u)));
                }
            } else if special {
                assert forall|u: FolderType|
                    seen_name_types@.contains(u) <==> is_special_kind(u) && earlier_name_only(
                        fs,
                        i + 1,
                        u,
                    ) by {
                    lemma_earlier_step(fs, i as int, u);
                    assert(before.contains(u) == (is_special_kind(u) && earlier_name_only(fs, i as int, u)));
                }
            } else if type_listed(&seen_name_types, t) {
                folders[i].folder_type = FolderType::Other;
                assert forall|u: FolderType|
                    seen_name_types@.contains(u) <==> is_special_kind(u) && earlier_name_only(
                        fs,
                        i + 1,
                        u,
                    ) by {
                    lemma_earlier_step(fs, i as int, u);
                    assert(before.contains(u) == (is_special_kind(u) && earlier_name_only(fs, i as int, u)));
                }
            } else {
                seen_name_types.push(t);
                assert forall|u: FolderType|
                    seen_name_types@.contains(u) <==> is_special_kind(u) && earlier_name_only(
                        fs,
                        i + 1,
                        u,
                    ) by {
                    lemma_earlier_step(fs, i as int, u);
                    lemma_push_contains(before, t, u);
                    assert(before.contains(u) == (is_special_kind(u) && earlier_name_only(fs, i as int, u)));
                }
            }
            assert(folders@[i as int] == with_type(fs[i as int], deduplicated_type(fs, i as int)));
            i += 1;
            assert(forall|u: FolderType|
                #![trigger seen_name_types@.contains(u)]
                #![trigger earlier_name_only(fs, i as int, u)]
                seen_name_types@.contains(u) <==> is_special_kind(u) && earlier_name_only(
                    fs,
                    i as int,
                    u,
                ));
        }
        assert(folders@ =~= deduplicated(fs));
    }
}

// ───────────────────────── laws of de-duplication ─────────────────────────

/// De-duplication keeps every folder in place and changes nothing but its type,
/// which either stays or becomes `Other`.
pub proof fn law_dedup_only_downgrades(fs: Seq<Folder>, i: int)
    requires
        0 <= i < fs.len(),
    ensures
        deduplicated(fs).len() == fs.len(),
        deduplicated(fs)[i] == with_type(fs[i], deduplicated(fs)[i].folder_type),
        deduplicated(fs)[i].folder_type == fs[i].folder_type || deduplicated(fs)[i].folder_type
            == FolderType::Other,
{
}

/// A folder whose special-use attributes name a type keeps its type:
/// attribute-detected types always win.
pub proof fn law_dedup_attribute_wins(fs: Seq<Folder>, i: int)
    requires
        0 <= i < fs.len(),
        has_special_use(fs[i]),
    ensures
        deduplicated(fs)[i].folder_type == fs[i].folder_type,
{
}

/// Inbox folders are never downgraded.
pub proof fn law_dedup_keeps_inbox(fs: Seq<Folder>, i: int)
    requires
        0 <= i < fs.len(),
        fs[i].folder_type == FolderType::Inbox,
    ensures
        deduplicated(fs)[i].folder_type == FolderType::Inbox,
{
}

/// After de-duplication, at most one folder without special-use attributes
/// holds each special type (the first one in the list).
pub proof fn law_dedup_one_name_folder_per_type(fs: Seq<Folder>, i: int, j: int)
    requires
        0 <= i < j < fs.len(),
        !has_special_use(fs[i]),
        !has_special_use(fs[j]),
        is_special_kind(deduplicated(fs)[j].folder_type),
    ensures
        deduplicated(fs)[i].folder_type != deduplicated(fs)[j].folder_type,
{
    if deduplicated(fs)[i].folder_type == deduplicated(fs)[j].folder_type {
        assert(type_after_claims(fs, i) == deduplicated_type(fs, i));
        assert(earlier_name_only(fs, j, type_after_claims(fs, j)));
    }
}

/// A folder without special-use attributes never keeps a type that a folder
/// with special-use attributes holds.
pub proof fn law_dedup_no_clash_with_attribute(fs: Seq<Folder>, i: int, j: int)
    requires
        0 <= i < fs.len(),
        0 <= j < fs.len(),
        !has_special_use(fs[i]),
        has_special_use(fs[j]),
        is_special_kind(deduplicated(fs)[i].folder_type),
    ensures
        deduplicated(fs)[i].folder_type != deduplicated(fs)[j].folder_type,
{
    if deduplicated(fs)[i].folder_type == deduplicated(fs)[j].folder_type {
        assert(claimed_by_attribute(fs, fs[j].folder_type));
    }
}

/// De-duplicating an already de-duplicated list changes nothing.
pub proof fn law_dedup_idempotent(fs: Seq<Folder>)
    ensures
        deduplicated(deduplicated(fs)) == deduplicated(fs),
{
    let d = deduplicated(fs);
    assert forall|i: int| 0 <= i < d.len() implies has_special_use(#[trigger] d[i]) == has_special_use(
        fs[i],
    ) by {
        assert(d[i].attributes == fs[i].attributes);
    }
    assert forall|i: int| 0 <= i < d.len() implies #[trigger] type_after_claims(d, i) == d[i].folder_type by {
        if is_special_kind(d[i].folder_type) && !has_special_use(d[i]) && claimed_by_attribute(
            d,
            d[i].folder_type,
        ) {
            let j = choose|j: int|
                0 <= j < d.len() && has_special_use(#[trigger] d[j]) && d[j].folder_type
                    == d[i].folder_type;
            law_dedup_no_clash_with_attribute(fs, i, j);
        }
    }
    assert forall|i: int| 0 <= i < d.len() implies #[trigger] deduplicated_type(d, i) == d[i].folder_type by {
        let t = d[i].folder_type;
        if is_special_kind(t) && !has_special_use(d[i]) && earlier_name_only(d, i, t) {
            let j = choose|j: int|
                0 <= j < i && !has_special_use(#[trigger] d[j]) && type_after_claims(d, j) == t;
            law_dedup_one_name_folder_per_type(fs, j, i);
        }
    }
    assert(deduplicated(d) =~= d);
}

impl Folder {
    /// Create a new folder from IMAP LIST response
    pub fn new(name: String, full_path: String, delimiter: Option<char>, attributes: Vec<String>) -> (r: Folder)
        ensures
            r.name@ == name@,
            r.full_path@ == full_path@,
            r.folder_type == type_from_attributes_and_name(string_views(attributes@), name@),
            r.delimiter == delimiter,
            r.attributes@ == attributes@,
            r.uidvalidity is None,
            r.message_count is None,
            r.unread_count is None,
            r.uid_next is None,
    {
        let folder_type = FolderType::from_attributes_and_name(attributes.as_slice(), name.as_str());
        Folder {
            name,
            full_path,
            folder_type,
            delimiter,
            attributes,
            uidvalidity: None,
            message_count: None,
            unread_count: None,
            uid_next: None,
        }
    }

    /// Check if this folder can be selected
    pub fn is_selectable(&self) -> (r: bool)
        ensures
            r == selectable(string_views(self.attributes@)),
    {
        let ghost all = string_views(self.attributes@);
        let mut i: usize = 0;
        while i < self.attributes.len()
            invariant
                i <= self.attributes@.len(),
                all == string_views(self.attributes@),
                forall|k: int|
                    0 <= k < i ==> lowercase(#[trigger] all[k]) != "\\noselect"@ && lowercase(all[k])
                        != "\\nonexistent"@,
            decreases self.attributes@.len() - i,
        {
            let lower = to_lowercase(self.attributes[i].as_str());
            let l = chars_of(lower.as_str());
            assert(all[i as int] == self.attributes@[i as int]@);
            if eq_str(&l, "\\noselect") || eq_str(&l, "\\nonexistent") {
                return false;
            }
            i += 1;
        }
        true
    }

    /// Check if this folder has children
    pub fn has_children(&self) -> (r: bool)
        ensures
            r == children_flag(string_views(self.attributes@)),
    {
        let ghost all = string_views(self.attributes@);
        let mut i: usize = 0;
        while i < self.attributes.len()
            invariant
                i <= self.attributes@.len(),
                all == string_views(self.attributes@),
                forall|k: int| 0 <= k < i ==> lowercase(#[trigger] all[k]) != "\\haschildren"@,
            decreases self.attributes@.len() - i,
        {
            let lower = to_lowercase(self.attributes[i].as_str());
            let l = chars_of(lower.as_str());
            assert(all[i as int] == self.attributes@[i as int]@);
            if eq_str(&l, "\\haschildren") {
                return true;
            }
            i += 1;
        }
        false
    }
}

/// Folder names are classified by keyword, case-insensitively, in a fixed
/// order of precedence: a name whose lower-cased text contains "spam" or
/// "junk", and none of the keywords that come first ("sent", "draft",
/// "trash", "bin", "deleted") and is not exactly "inbox", is a Spam folder;
/// so is any folder whose special-use attributes name no type.
pub proof fn law_spam_names(name: Seq<char>, attrs: Seq<Seq<char>>)
    requires
        contains(lowercase(name), "spam"@) || contains(lowercase(name), "junk"@),
        lowercase(name) != "inbox"@,
        !contains(lowercase(name), "sent"@),
        !contains(lowercase(name), "draft"@),
        !contains(lowercase(name), "trash"@),
        !contains(lowercase(name), "bin"@),
        !contains(lowercase(name), "deleted"@),
        type_from_attributes(attrs) is None,
    ensures
        type_from_name(name) == FolderType::Spam,
        type_from_attributes_and_name(attrs, name) == FolderType::Spam,
{
}

/// The name keywords in order of precedence: "inbox" (the whole name), then
/// "sent", "draft", "trash"/"bin"/"deleted", "spam"/"junk",
/// "archive"/"all mail"; a name with none of them is Other.
pub proof fn law_name_keywords(name: Seq<char>)
    ensures
        ({
            let l = lowercase(name);
            let t = type_from_name(name);
            &&& l == "inbox"@ ==> t == FolderType::Inbox
            &&& l != "inbox"@ && contains(l, "sent"@) ==> t == FolderType::Sent
            &&& l != "inbox"@ && !contains(l, "sent"@) && contains(l, "draft"@) ==> t == FolderType::Drafts
            &&& l != "inbox"@ && !contains(l, "sent"@) && !contains(l, "draft"@) && (contains(l, "trash"@)
                || contains(l, "bin"@) || contains(l, "deleted"@)) ==> t == FolderType::Trash
            &&& l != "inbox"@ && !contains(l, "sent"@) && !contains(l, "draft"@) && !contains(l, "trash"@)
                && !contains(l, "bin"@) && !contains(l, "deleted"@) && (contains(l, "spam"@) || contains(l, "junk"@))
                ==> t == FolderType::Spam
            &&& l != "inbox"@ && !contains(l, "sent"@) && !contains(l, "draft"@) && !contains(l, "trash"@)
                && !contains(l, "bin"@) && !contains(l, "deleted"@) && !contains(l, "spam"@) && !contains(l, "junk"@)
                && (contains(l, "archive"@) || contains(l, "all mail"@)) ==> t == FolderType::Archive
            &&& (t == FolderType::Spam) ==> (contains(l, "spam"@) || contains(l, "junk"@))
            &&& (t == FolderType::Archive) ==> (contains(l, "archive"@) || contains(l, "all mail"@))
            &&& (t == FolderType::Trash) ==> (contains(l, "trash"@) || contains(l, "bin"@) || contains(l, "deleted"@))
            &&& (t == FolderType::Other) <==> (l != "inbox"@ && !contains(l, "sent"@) && !contains(l, "draft"@)
                && !contains(l, "trash"@) && !contains(l, "bin"@) && !contains(l, "deleted"@)
                && !contains(l, "spam"@) && !contains(l, "junk"@) && !contains(l, "archive"@)
                && !contains(l, "all mail"@))
        }),
{
}

} // verus!
