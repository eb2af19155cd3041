//! Parsing of IMAP `LIST` responses into folders.
use vstd::prelude::*;

use crate::folder::{string_views, type_from_attributes_and_name, Folder, FolderType};
use crate::text::{
    chars_of, eq_ignore_ascii_case, eq_ignore_ascii_case_str, find_char, find_char_exec, has_prefix,
    lemma_find_from, slice_of, split_on, split_whitespace_exec, starts_with_str, string_of, trim,
    trim_exec, views, words,
};

verus! {

// ───────────────────────── specifications ─────────────────────────

/// What follows `"* LIST "` on a LIST response line.
pub open spec fn list_rest(line: Seq<char>) -> Option<Seq<char>> {
    if has_prefix(line, "* LIST "@) {
        Some(line.skip("* LIST "@.len() as int))
    } else {
        None
    }
}

/// The part after the attribute list's closing parenthesis at `close`, trimmed.
pub open spec fn after_attributes(rest: Seq<char>, close: int) -> Seq<char> {
    trim(rest.skip(close + 1))
}

/// The hierarchy delimiter and the part of the line that names the folder:
/// `NIL` gives no delimiter, a quoted delimiter gives its first character.
pub open spec fn delimiter_and_name_part(after: Seq<char>) -> (Option<char>, Seq<char>) {
    if has_prefix(after, "NIL"@) {
        (None, trim(after.skip("NIL"@.len() as int)))
    } else if after.len() > 0 && after[0] == '"' {
        let d = if after.len() > 1 {
            Some(after[1])
        } else {
            None
        };
        match find_char(after.skip(1), '"') {
            Some(c) => (d, trim(after.skip(c + 2))),
            None => (None, after),
        }
    } else {
        (None, after)
    }
}

/// How many characters of a quoted name precede its closing quote; an escaped
/// character counts with its backslash, and a lone final backslash counts as two.
pub open spec fn quoted_len(s: Seq<char>) -> int
    decreases s.len(),
{
    if s.len() == 0 {
        0
    } else if s[0] == '\\' {
        if s.len() < 2 {
            2
        } else {
            2 + quoted_len(s.skip(2))
        }
    } else if s[0] == '"' {
        0
    } else {
        1 + quoted_len(s.drop_first())
    }
}

/// Every backslash in the quoted name escapes a following ASCII character.
pub open spec fn quoted_scan_ok(s: Seq<char>) -> bool
    decreases s.len(),
{
    if s.len() == 0 {
        true
    } else if s[0] == '\\' {
        s.len() >= 2 && (s[1] as u32) < 128 && quoted_scan_ok(s.skip(2))
    } else if s[0] == '"' {
        true
    } else {
        quoted_scan_ok(s.drop_first())
    }
}

/// The folder name held by the name part: a quoted name up to its closing
/// quote (escapes kept as written), or the trimmed unquoted text.
pub open spec fn folder_name_of(part: Seq<char>) -> Seq<char> {
    if part.len() > 0 && part[0] == '"' {
        part.skip(1).take(quoted_len(part.skip(1)))
    } else {
        trim(part)
    }
}

/// The line is one the LIST parser handles without failing: the attribute
/// list's `)` does not come before its `(`, and a quoted name escapes only
/// ASCII characters and does not end in a lone backslash.
pub open spec fn list_line_ok(line: Seq<char>) -> bool {
    match list_rest(line) {
        None => true,
        Some(rest) => match (find_char(rest, '('), find_char(rest, ')')) {
            (Some(a), Some(e)) => a < e && {
                let part = delimiter_and_name_part(after_attributes(rest, e)).1;
                part.len() > 0 && part[0] == '"' ==> quoted_scan_ok(part.skip(1))
            },
            _ => true,
        },
    }
}

/// The attributes, delimiter and folder name of a LIST line.
pub open spec fn list_fields(line: Seq<char>) -> Option<(Seq<Seq<char>>, Option<char>, Seq<char>)> {
    match list_rest(line) {
        None => None,
        Some(rest) => match (find_char(rest, '('), find_char(rest, ')')) {
            (Some(a), Some(e)) => {
                let attrs = words(rest.subrange(a + 1, e));
                let dp = delimiter_and_name_part(after_attributes(rest, e));
                Some((attrs, dp.0, folder_name_of(dp.1)))
            },
            _ => None,
        },
    }
}

/// Some attribute is `\Noselect`, ignoring ASCII case.
pub open spec fn has_noselect(attrs: Seq<Seq<char>>) -> bool {
    exists|k: int| 0 <= k < attrs.len() && eq_ignore_ascii_case(#[trigger] attrs[k], "\\Noselect"@)
}

/// The name is empty, or is the delimiter alone (a one-byte name).
pub open spec fn is_root_or_empty(name: Seq<char>, delim: Option<char>) -> bool {
    name.len() == 0 || (name.len() == 1 && (name[0] as u32) < 128 && delim == Some(name[0]))
}

/// The folder a LIST line describes, unless it is unselectable, empty or the root.
pub open spec fn list_entry(line: Seq<char>) -> Option<(Seq<Seq<char>>, Option<char>, Seq<char>)> {
    match list_fields(line) {
        Some((a, d, n)) => if !has_noselect(a) && !is_root_or_empty(n, d) {
            Some((a, d, n))
        } else {
            None
        },
        None => None,
    }
}

/// The last segment of a path split at the delimiter (`/` when there is none).
pub open spec fn last_segment(name: Seq<char>, delim: Option<char>) -> Seq<char> {
    let c = match delim {
        Some(d) => d,
        None => '/',
    };
    split_on(name, c).last()
}

/// The folder the parser builds for a LIST entry.
pub open spec fn is_list_folder(f: Folder, attrs: Seq<Seq<char>>, delim: Option<char>, name: Seq<char>) -> bool {
    &&& f.name@ == last_segment(name, delim)
    &&& f.full_path@ == name
    &&& f.folder_type == type_from_attributes_and_name(attrs, name)
    &&& f.delimiter == delim
    &&& string_views(f.attributes@) == attrs
    &&& f.uidvalidity is None
    &&& f.message_count is None
    &&& f.unread_count is None
    &&& f.uid_next is None
}

// ───────────────────────── lemmas ─────────────────────────

/// The pieces of a split are never empty as a list; the last piece is what
/// follows the first separator's pieces.
proof fn lemma_split_last(s: Seq<char>, c: char)
    ensures
        split_on(s, c).len() >= 1,
        find_char(s, c) matches Some(i) ==> 0 <= i < s.len() && split_on(s, c).last() == split_on(
            s.skip(i + 1),
            c,
        ).last(),
        find_char(s, c) is None ==> split_on(s, c).last() == s,
    decreases s.len(),
{
    lemma_find_from(s, seq![c], 0);
    match find_char(s, c) {
        Some(i) => {
            lemma_split_last(s.skip(i + 1), c);
        },
        None => {},
    }
}

/// Within a well-formed quoted name the counted prefix stays inside it.
proof fn lemma_quoted_len(s: Seq<char>)
    requires
        quoted_scan_ok(s),
    ensures
        0 <= quoted_len(s) <= s.len(),
    decreases s.len(),
{
    if s.len() == 0 {
    } else if s[0] == '\\' {
        lemma_quoted_len(s.skip(2));
    } else if s[0] == '"' {
    } else {
        lemma_quoted_len(s.drop_first());
    }
}

// ───────────────────────── executable parsing ─────────────────────────

/// The last segment of `name` after splitting at `c`.
fn last_segment_exec(name: &[char], c: char) -> (r: Vec<char>)
    ensures
        r@ == split_on(name@, c).last(),
{
    let mut cur = slice_of(name, 0, name.len());
    assert(cur@ =~= name@);
    loop
        invariant
            split_on(name@, c).last() == split_on(cur@, c).last(),
        decreases cur@.len(),
    {
        proof {
            lemma_split_last(cur@, c);
        }
        match find_char_exec(&cur, c) {
            Some(i) => {
                let n = cur.len();
                assert(i < n);
                let next = slice_of(&cur, i + 1, n);
                assert(next@ =~= cur@.skip(i + 1));
                cur = next;
            },
            None => {
                return cur;
            },
        }
    }
}

/// The length of the quoted name at the start of `s`, as `quoted_len` counts it.
fn quoted_len_exec(s: &[char]) -> (r: usize)
    requires
        quoted_scan_ok(s@),
    ensures
        r == quoted_len(s@),
{
    proof {
        lemma_quoted_len(s@);
    }
    let mut i: usize = 0;
    let mut end: usize = 0;
    assert(s@.skip(0) =~= s@);
    while i < s.len()
        invariant
            i <= s@.len(),
            end <= i,
            quoted_scan_ok(s@.skip(i as int)),
            quoted_len(s@) == end + quoted_len(s@.skip(i as int)),
        decreases s@.len() - i,
    {
        let c = s[i];
        assert(s@.skip(i as int)[0] == c);
        if c == '\\' {
            assert(s@.skip(i as int).skip(2) =~= s@.skip(i + 2));
            end += 2;
            i += 2;
        } else if c == '"' {
            return end;
        } else {
            assert(s@.skip(i as int).drop_first() =~= s@.skip(i + 1));
            end += 1;
            i += 1;
        }
    }
    end
}

/// The delimiter and the name part after the attribute list.
fn delimiter_and_name_part_exec(after: &[char]) -> (r: (Option<char>, Vec<char>))
    ensures
        r.0 == delimiter_and_name_part(after@).0,
        r.1@ == delimiter_and_name_part(after@).1,
{
    if starts_with_str(after, "NIL") {
        let nil = chars_of("NIL");
        let tail = slice_of(after, nil.len(), after.len());
        assert(tail@ =~= after@.skip("NIL"@.len() as int));
        (None, trim_exec(&tail))
    } else if after.len() > 0 && after[0] == '"' {
        let d = if after.len() > 1 {
            Some(after[1])
        } else {
            None
        };
        let inner = slice_of(after, 1, after.len());
        assert(inner@ =~= after@.skip(1));
        match find_char_exec(&inner, '"') {
            Some(c) => {
                proof {
                    lemma_find_from(inner@, seq!['"'], 0);
                }
                let tail = slice_of(after, c + 2, after.len());
                assert(tail@ =~= after@.skip(c + 2));
                (d, trim_exec(&tail))
            },
            None => (None, slice_of(after, 0, after.len())),
        }
    } else {
        assert(after@.subrange(0, after@.len() as int) =~= after@);
        (None, slice_of(after, 0, after.len()))
    }
}

/// Whether the LIST parser handles `line` without failing.
pub fn list_line_ok_exec(line: &str) -> (r: bool)
    ensures
        r == list_line_ok(line@),
{
    let l = chars_of(line);
    if !starts_with_str(&l, "* LIST ") {
        return true;
    }
    let p = chars_of("* LIST ");
    let rest = slice_of(&l, p.len(), l.len());
    assert(rest@ =~= l@.skip("* LIST "@.len() as int));
    let a = find_char_exec(&rest, '(');
    let e = find_char_exec(&rest, ')');
    match (a, e) {
        (Some(a), Some(e)) => {
            if a >= e {
                return false;
            }
            proof {
                lemma_find_from(rest@, seq![')'], 0);
            }
            let tail = slice_of(&rest, e + 1, rest.len());
            assert(tail@ =~= rest@.skip(e + 1));
            let after = trim_exec(&tail);
            let (_, part) = delimiter_and_name_part_exec(&after);
            if part.len() > 0 && part[0] == '"' {
                let inner = slice_of(&part, 1, part.len());
                assert(inner@ =~= part@.skip(1));
                quoted_scan_ok_exec(&inner)
            } else {
                true
            }
        },
        _ => true,
    }
}

/// Executable `quoted_scan_ok`.
fn quoted_scan_ok_exec(s: &[char]) -> (r: bool)
    ensures
        r == quoted_scan_ok(s@),
{
    let mut i: usize = 0;
    assert(s@.skip(0) =~= s@);
    while i < s.len()
        invariant
            i <= s@.len(),
            quoted_scan_ok(s@) == quoted_scan_ok(s@.skip(i as int)),
        decreases s@.len() - i,
    {
        let c = s[i];
        assert(s@.skip(i as int)[0] == c);
        if c == '\\' {
            if i + 1 >= s.len() || !((s[i + 1] as u32) < 128) {
                return false;
            }
            assert(s@.skip(i as int)[1] == s@[i + 1]);
            assert(s@.skip(i as int).skip(2) =~= s@.skip(i + 2));
            i += 2;
        } else if c == '"' {
            return true;
        } else {
            assert(s@.skip(i as int).drop_first() =~= s@.skip(i + 1));
            i += 1;
        }
    }
    true
}

/// Parse one `* LIST (attrs) "delim" "name"` response line into a folder.
/// Lines for `\Noselect` folders, empty names and the bare root delimiter give `None`.
pub fn parse_list_response(line: &str) -> (r: Option<Folder>)
    requires
        list_line_ok(line@),
    ensures
        match list_entry(line@) {
            None => r is None,
            Some((a, d, n)) => r matches Some(f) && is_list_folder(f, a, d, n),
        },
{
    let l = chars_of(line);
    if !starts_with_str(&l, "* LIST ") {
        return None;
    }
    let p = chars_of("* LIST ");
    let rest = slice_of(&l, p.len(), l.len());
    assert(rest@ =~= l@.skip("* LIST "@.len() as int));
    let a = match find_char_exec(&rest, '(') {
        Some(a) => a,
        None => return None,
    };
    let e = match find_char_exec(&rest, ')') {
        Some(e) => e,
        None => return None,
    };
    proof {
        lemma_find_from(rest@, seq![')'], 0);
    }
    let attrs_str = slice_of(&rest, a + 1, e);
    let attr_words = split_whitespace_exec(&attrs_str);
    let mut attributes: Vec<String> = Vec::new();
    let mut k: usize = 0;
    while k < attr_words.len()
        invariant
            k <= attr_words@.len(),
            string_views(attributes@) == views(attr_words@).take(k as int),
        decreases attr_words@.len() - k,
    {
        let ghost before = attributes@;
        let sk = string_of(&attr_words[k]);
        attributes.push(sk);
        assert(string_views(attributes@) =~= string_views(before).push(attr_words@[k as int]@));
        assert(views(attr_words@).take(k + 1) =~= views(attr_words@).take(k as int).push(
            attr_words@[k as int]@,
        ));
        k += 1;
    }
    assert(views(attr_words@).take(k as int) =~= views(attr_words@));
    let tail = slice_of(&rest, e + 1, rest.len());
    assert(tail@ =~= rest@.skip(e + 1));
    let after = trim_exec(&tail);
    let (delimiter, part) = delimiter_and_name_part_exec(&after);
    let name: Vec<char> = if part.len() > 0 && part[0] == '"' {
        let inner = slice_of(&part, 1, part.len());
        assert(inner@ =~= part@.skip(1));
        let end = quoted_len_exec(&inner);
        proof {
            lemma_quoted_len(inner@);
        }
        slice_of(&inner, 0, end)
    } else {
        trim_exec(&part)
    };
    // Check for \Noselect attribute
    let mut noselect = false;
    let mut k: usize = 0;
    while k < attr_words.len()
        invariant
            k <= attr_words@.len(),
            noselect == exists|j: int|
                0 <= j < k && eq_ignore_ascii_case(#[trigger] views(attr_words@)[j], "\\Noselect"@),
        decreases attr_words@.len() - k,
    {
        assert(views(attr_words@)[k as int] == attr_words@[k as int]@);
        if eq_ignore_ascii_case_str(&attr_words[k], "\\Noselect") {
            noselect = true;
        }
        k += 1;
    }
    if noselect {
        return None;
    }
    // Skip empty or root-delimiter-only folder names
    if name.len() == 0 || (name.len() == 1 && (name[0] as u32) < 128 && delimiter == Some(name[0])) {
        return None;
    }
    let c = match delimiter {
        Some(d) => d,
        None => '/',
    };
    let seg = last_segment_exec(&name, c);
    let name_string = string_of(&name);
    let folder_type = FolderType::from_attributes_and_name(attributes.as_slice(), name_string.as_str());
    Some(
        Folder {
            name: string_of(&seg),
            full_path: name_string,
            folder_type,
            delimiter,
            attributes,
            uidvalidity: None,
            message_count: None,
            unread_count: None,
            uid_next: None,
        },
    )
}

} // verus!
