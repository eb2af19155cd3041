//! Parsing of untagged `FETCH` responses: UID, flags, envelope and whether
//! the body structure holds attachments.
use vstd::prelude::*;

use crate::folder::string_views;
use crate::message::{
    display_string, has_flag, name_view, str_views, EmailAddress, Envelope, MessageFlags,
    MessageHeader,
};
use crate::text::{
    all_digits, ascii_lower, ascii_lower_exec, chars_of, contains, contains_str, eq_ignore_ascii_case,
    eq_ignore_ascii_case_str, eq_str, extend_chars, extend_str, find, find_char, find_char_exec,
    find_str, is_digit, is_ws, is_ws_exec, lemma_find_from, parse_u32, parse_u32_exec, slice_of,
    split_whitespace_exec, string_of, views, words,
};

verus! {

// ───────────────────────── UID and FLAGS ─────────────────────────

/// How many ASCII digits begin `s`.
pub open spec fn digit_run(s: Seq<char>) -> int
    decreases s.len(),
{
    if s.len() > 0 && is_digit(s[0]) {
        1 + digit_run(s.drop_first())
    } else {
        0
    }
}

/// The UID of a FETCH line: the digits right after the first `UID `.
pub open spec fn fetch_uid(line: Seq<char>) -> Option<u32> {
    match find(line, "UID "@) {
        Some(idx) => {
            let rest = line.skip(idx + "UID "@.len());
            parse_u32(rest.take(digit_run(rest)))
        },
        None => None,
    }
}

/// The flags of a FETCH line: the words between `FLAGS (` and the next `)`.
pub open spec fn fetch_flags(line: Seq<char>) -> Seq<Seq<char>> {
    match find(line, "FLAGS ("@) {
        Some(start) => {
            let rest = line.skip(start + "FLAGS ("@.len());
            match find_char(rest, ')') {
                Some(end) => words(rest.take(end)),
                None => Seq::empty(),
            }
        },
        None => Seq::empty(),
    }
}

proof fn lemma_digit_run(s: Seq<char>)
    ensures
        0 <= digit_run(s) <= s.len(),
        forall|i: int| 0 <= i < digit_run(s) ==> is_digit(#[trigger] s[i]),
        digit_run(s) < s.len() ==> !is_digit(s[digit_run(s)]),
    decreases s.len(),
{
    if s.len() > 0 && is_digit(s[0]) {
        lemma_digit_run(s.drop_first());
        assert forall|i: int| 0 <= i < digit_run(s) implies is_digit(#[trigger] s[i]) by {
            if i > 0 {
                assert(s[i] == s.drop_first()[i - 1]);
            }
        }
    }
}

/// Executable `fetch_uid`.
pub fn extract_uid(line: &str) -> (r: Option<u32>)
    ensures
        r == fetch_uid(line@),
{
    let l = chars_of(line);
    let key = chars_of("UID ");
    match find_str(&l, "UID ") {
        Some(idx) => {
            proof {
                lemma_find_from(l@, key@, 0);
            }
            let n = l.len();
            assert(idx + key.len() <= n);
            let rest = slice_of(&l, idx + key.len(), n);
            assert(rest@ =~= l@.skip(idx + "UID "@.len()));
            let mut end: usize = 0;
            assert(rest@.skip(0) =~= rest@);
            while end < rest.len() && rest[end] >= '0' && rest[end] <= '9'
                invariant
                    end <= rest@.len(),
                    digit_run(rest@) == end + digit_run(rest@.skip(end as int)),
                decreases rest@.len() - end,
            {
                assert(rest@.skip(end as int).drop_first() =~= rest@.skip(end + 1));
                end += 1;
            }
            let digits = slice_of(&rest, 0, end);
            assert(digits@ =~= rest@.take(end as int));
            parse_u32_exec(&digits)
        },
        None => None,
    }
}

/// Executable `fetch_flags`.
pub fn extract_flags(line: &str) -> (r: Vec<String>)
    ensures
        string_views(r@) == fetch_flags(line@),
{
    let l = chars_of(line);
    let key = chars_of("FLAGS (");
    let mut flags: Vec<String> = Vec::new();
    match find_str(&l, "FLAGS (") {
        Some(start) => {
            proof {
                lemma_find_from(l@, key@, 0);
            }
            let n = l.len();
            assert(start + key.len() <= n);
            let rest = slice_of(&l, start + key.len(), n);
            assert(rest@ =~= l@.skip(start + "FLAGS ("@.len()));
            match find_char_exec(&rest, ')') {
                Some(end) => {
                    proof {
                        lemma_find_from(rest@, seq![')'], 0);
                    }
                    let inner = slice_of(&rest, 0, end);
                    assert(inner@ =~= rest@.take(end as int));
                    let w = split_whitespace_exec(&inner);
                    let mut k: usize = 0;
                    while k < w.len()
                        invariant
                            k <= w@.len(),
                            string_views(flags@) == views(w@).take(k as int),
                        decreases w@.len() - k,
                    {
                        let ghost before = flags@;
                        flags.push(string_of(&w[k]));
                        assert(string_views(flags@) =~= string_views(before).push(w@[k as int]@));
                        assert(views(w@).take(k + 1) =~= views(w@).take(k as int).push(
                            w@[k as int]@,
                        ));
                        k += 1;
                    }
                    assert(views(w@).take(k as int) =~= views(w@));
                },
                None => {
                    assert(string_views(flags@) =~= Seq::<Seq<char>>::empty());
                },
            }
        },
        None => {
            assert(string_views(flags@) =~= Seq::<Seq<char>>::empty());
        },
    }
    flags
}

/// The read and starred state a `UID FETCH (UID FLAGS)` line reports:
/// `(uid, \Seen present, \Flagged present)`, flags compared ignoring ASCII case.
pub open spec fn flag_summary(line: Seq<char>) -> Option<(u32, bool, bool)> {
    if has_fetch_prefix(line) {
        match fetch_uid(line) {
            Some(uid) => {
                let f = fetch_flags(line);
                Some(
                    (
                        uid,
                        exists|k: int| 0 <= k < f.len() && eq_ignore_ascii_case(#[trigger] f[k], "\\Seen"@),
                        exists|k: int|
                            0 <= k < f.len() && eq_ignore_ascii_case(#[trigger] f[k], "\\Flagged"@),
                    ),
                )
            },
            None => None,
        }
    } else {
        None
    }
}

/// The line is an untagged FETCH response.
pub open spec fn has_fetch_prefix(line: Seq<char>) -> bool {
    crate::imap_response::is_fetch_line(line)
}

/// Executable `flag_summary`.
pub fn flag_summary_exec(line: &str) -> (r: Option<(u32, bool, bool)>)
    ensures
        r == flag_summary(line@),
{
    if !crate::imap_response::is_fetch_line_exec(line) {
        return None;
    }
    let uid = match extract_uid(line) {
        Some(u) => u,
        None => return None,
    };
    let flags = extract_flags(line);
    let ghost fv = string_views(flags@);
    let mut seen = false;
    let mut flagged = false;
    let mut k: usize = 0;
    while k < flags.len()
        invariant
            k <= flags@.len(),
            fv == string_views(flags@),
            seen == exists|j: int| 0 <= j < k && eq_ignore_ascii_case(#[trigger] fv[j], "\\Seen"@),
            flagged == exists|j: int|
                0 <= j < k && eq_ignore_ascii_case(#[trigger] fv[j], "\\Flagged"@),
        decreases flags@.len() - k,
    {
        let c = chars_of(flags[k].as_str());
        assert(fv[k as int] == c@);
        if eq_ignore_ascii_case_str(&c, "\\Seen") {
            seen = true;
        }
        if eq_ignore_ascii_case_str(&c, "\\Flagged") {
            flagged = true;
        }
        k += 1;
    }
    Some((uid, seen, flagged))
}

// ───────────────────────── attachments ─────────────────────────

/// The lower-cased body structure names an S/MIME or PGP signature type.
pub open spec fn names_signature(lower: Seq<char>) -> bool {
    contains(lower, "\"pkcs7-signature\""@) || contains(lower, "\"pgp-signature\""@) || contains(
        lower,
        "\"x-pkcs7-signature\""@,
    ) || contains(lower, "\"pkcs7-mime\""@)
}

/// Whether a lower-cased body structure suggests a real attachment.
pub open spec fn attachment_verdict(lower: Seq<char>) -> bool {
    if contains(lower, "\"attachment\""@) {
        if names_signature(lower) {
            contains(lower, "\"image\""@) || contains(lower, "\"audio\""@) || contains(lower, "\"video\""@)
                || (contains(lower, "\"application\""@) && !contains(lower, "\"pkcs7-signature\""@)
                && !contains(lower, "\"x-pkcs7-signature\""@) && !contains(lower, "\"pgp-signature\""@)
                && !contains(lower, "\"pkcs7-mime\""@))
        } else {
            true
        }
    } else if contains(lower, "\"application\""@) && !names_signature(lower) {
        true
    } else {
        contains(lower, "\"audio\""@) || contains(lower, "\"video\""@)
    }
}

/// Whether the BODYSTRUCTURE part of a FETCH line (from `BODYSTRUCTURE ` on)
/// suggests an attachment; `false` without one.
pub open spec fn line_has_attachments(line: Seq<char>) -> bool {
    match find(line, "BODYSTRUCTURE "@) {
        Some(idx) => attachment_verdict(ascii_lower(line.skip(idx))),
        None => false,
    }
}

/// Executable `line_has_attachments`.
pub fn detect_attachments(line: &str) -> (r: bool)
    ensures
        r == line_has_attachments(line@),
{
    let l = chars_of(line);
    let idx = match find_str(&l, "BODYSTRUCTURE ") {
        Some(i) => i,
        None => return false,
    };
    proof {
        lemma_find_from(l@, "BODYSTRUCTURE "@, 0);
    }
    let area = slice_of(&l, idx, l.len());
    assert(area@ =~= l@.skip(idx as int));
    let lower = ascii_lower_exec(&area);
    if contains_str(&lower, "\"attachment\"") {
        if contains_str(&lower, "\"pkcs7-signature\"") || contains_str(&lower, "\"pgp-signature\"")
            || contains_str(&lower, "\"x-pkcs7-signature\"") || contains_str(
            &lower,
            "\"pkcs7-mime\"",
        ) {
            return contains_str(&lower, "\"image\"") || contains_str(&lower, "\"audio\"")
                || contains_str(&lower, "\"video\"") || (contains_str(&lower, "\"application\"")
                && !contains_str(&lower, "\"pkcs7-signature\"") && !contains_str(
                &lower,
                "\"x-pkcs7-signature\"",
            ) && !contains_str(&lower, "\"pgp-signature\"") && !contains_str(
                &lower,
                "\"pkcs7-mime\"",
            ));
        }
        return true;
    }
    if contains_str(&lower, "\"application\"") {
        if !contains_str(&lower, "\"pkcs7-signature\"") && !contains_str(
            &lower,
            "\"x-pkcs7-signature\"",
        ) && !contains_str(&lower, "\"pgp-signature\"") && !contains_str(&lower, "\"pkcs7-mime\"") {
            return true;
        }
    }
    if contains_str(&lower, "\"audio\"") || contains_str(&lower, "\"video\"") {
        return true;
    }
    false
}

// ───────────────────────── whole FETCH lines ─────────────────────────

/// The header the parser builds from a FETCH line with UID `uid`.
pub open spec fn header_of_line(h: MessageHeader, line: Seq<char>, uid: u32) -> bool {
    &&& h.uid == uid
    &&& h.seq == 0
    &&& h.size == 0
    &&& crate::message::parsed_flags(h.flags, fetch_flags(line))
    &&& crate::imap_envelope::envelope_of_line(h.envelope, line)
    &&& h.has_attachments == line_has_attachments(line)
}

/// Parse one untagged FETCH line; `None` when it carries no UID.
pub fn parse_fetch_response(line: &str) -> (r: Option<MessageHeader>)
    requires
        crate::imap_envelope::envelope_line_ok(line@),
        line@.len() + 4 <= usize::MAX,
    ensures
        match fetch_uid(line@) {
            None => r is None,
            Some(uid) => r matches Some(h) && header_of_line(h, line@, uid),
        },
{
    let uid = match extract_uid(line) {
        Some(u) => u,
        None => return None,
    };
    let flag_strs = extract_flags(line);
    let mut flag_refs: Vec<&str> = Vec::new();
    let mut k: usize = 0;
    while k < flag_strs.len()
        invariant
            k <= flag_strs@.len(),
            str_views(flag_refs@) == string_views(flag_strs@).take(k as int),
        decreases flag_strs@.len() - k,
    {
        let ghost before = flag_refs@;
        flag_refs.push(flag_strs[k].as_str());
        assert(str_views(flag_refs@) =~= str_views(before).push(flag_strs@[k as int]@));
        assert(string_views(flag_strs@).take(k + 1) =~= string_views(flag_strs@).take(k as int).push(
            flag_strs@[k as int]@,
        ));
        k += 1;
    }
    assert(string_views(flag_strs@).take(k as int) =~= string_views(flag_strs@));
    let flags = MessageFlags::from_imap_flags(flag_refs.as_slice());
    let envelope = crate::imap_envelope::extract_envelope(line);
    let has_attachments = detect_attachments(line);
    Some(MessageHeader { uid, seq: 0, envelope, flags, has_attachments, size: 0 })
}

} // verus!
