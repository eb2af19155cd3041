//! Replying, forwarding and composing: the addresses, subjects and quoted
//! bodies that a reply or a forward starts from, and how a sender is shown.
use vstd::prelude::*;
use crate::listing::MessageInfo;
use crate::smtp::{OutgoingMessage, opt_view};
use crate::text::{
    find, find_exec, is_digit, decimal, decimal_exec,
    chars_of, contains, words, split_whitespace_exec, to_uppercase, uppercase, rfind_char,
    rfind_char_exec, eq_str, utf8_bytes, contains_char, extend_chars, extend_str, find_char, find_char_exec,
    has_prefix, lemma_find_from, lemma_occurs_single, lowercase, slice_of, split_on,
    split_on_exec, starts_with_str, string_of, to_lowercase, trim, trim_exec, views,
};

verus! {

// ───────────────────────── addresses ─────────────────────────

/// The first `c` of `s` comes at a valid position.
pub proof fn lemma_find_char_in(s: Seq<char>, c: char)
    ensures
        find_char(s, c) matches Some(i) ==> 0 <= i < s.len() && s[i] == c,
{
    lemma_find_from(s, seq![c], 0);
    match find_char(s, c) {
        Some(i) => {
            lemma_occurs_single(s, c, i);
        },
        None => {},
    }
}

/// The first `>` does not come before the first `<`, so that the text
/// between them can be cut out.
pub open spec fn brackets_in_order(s: Seq<char>) -> bool {
    match (find_char(s, '<'), find_char(s, '>')) {
        (Some(a), Some(b)) => a < b,
        _ => true,
    }
}

/// The address in `Name <email>`, or the whole trimmed text when it has no
/// pair of angle brackets.
pub open spec fn email_of(s: Seq<char>) -> Seq<char> {
    match (find_char(s, '<'), find_char(s, '>')) {
        (Some(a), Some(b)) => trim(s.subrange(a + 1, b)),
        _ => trim(s),
    }
}

/// Extract email address from a "Name <email>" or "email" string
pub fn extract_email_address(from: &str) -> (r: String)
    requires
        brackets_in_order(from@),
    ensures
        r@ == email_of(from@),
{
    let c = chars_of(from);
    proof {
        lemma_find_char_in(from@, '<');
        lemma_find_char_in(from@, '>');
    }
    match find_char_exec(&c, '<') {
        Some(start) => match find_char_exec(&c, '>') {
            Some(end) => {
                let inner = slice_of(&c, start + 1, end);
                let t = trim_exec(&inner);
                return string_of(&t);
            },
            None => {},
        },
        None => {},
    }
    let t = trim_exec(&c);
    string_of(&t)
}

/// Whether a string holds an `@`.
fn has_at(s: &str) -> (r: bool)
    ensures
        r == contains(s@, seq!['@']),
{
    let c = chars_of(s);
    contains_char(&c, '@')
}

/// The address a reply goes to: the sender's address when it looks like
/// one, else the address found in the sender's display text.
pub open spec fn reply_target(from_address: Seq<char>, from: Seq<char>) -> Seq<char> {
    if from_address.len() > 0 && contains(from_address, seq!['@']) {
        from_address
    } else {
        email_of(from)
    }
}

/// Use from_address if it looks like an email, otherwise extract from 'from'.
pub fn reply_target_email(from_address: &str, from: &str) -> (r: String)
    requires
        brackets_in_order(from@),
    ensures
        r@ == reply_target(from_address@, from@),
{
    if !from_address.is_empty() && has_at(from_address) {
        from_address.to_string()
    } else {
        extract_email_address(from)
    }
}

/// The address shown for a sender: the stored address, else the one in the display text.
pub open spec fn sender_address(from_address: Seq<char>, from: Seq<char>) -> Seq<char> {
    if from_address.len() > 0 {
        from_address
    } else {
        email_of(from)
    }
}

/// The address shown for a sender in the message header.
pub fn sender_email(from_address: &str, from: &str) -> (r: String)
    requires
        brackets_in_order(from@),
    ensures
        r@ == sender_address(from_address@, from@),
{
    if !from_address.is_empty() {
        from_address.to_string()
    } else {
        extract_email_address(from)
    }
}

/// The name shown for a sender: the part of the address before `@` when
/// there is no name, else the name without any `<email>` part.
pub open spec fn display_name_of(from_name: Seq<char>, from_email: Seq<char>) -> Seq<char> {
    if from_name.len() == 0 || from_name == from_email {
        split_on(from_email, '@')[0]
    } else if contains(from_name, seq!['<']) {
        trim(split_on(from_name, '<')[0])
    } else {
        from_name
    }
}

/// The text before the first `c` of `s` (all of it when there is none).
fn before_char(s: &[char], c: char) -> (r: Vec<char>)
    ensures
        r@ == split_on(s@, c)[0],
{
    let parts = split_on_exec(s, c);
    proof {
        crate::text::lemma_join_split(s@, c);
        assert(views(parts@)[0] == parts@[0]@);
    }
    let mut r: Vec<char> = Vec::new();
    extend_chars(&mut r, &parts[0]);
    r
}

/// The name shown for the sender of a message.
pub fn sender_display_name(from_name: &str, from_email: &str) -> (r: String)
    ensures
        r@ == display_name_of(from_name@, from_email@),
{
    let nc = chars_of(from_name);
    let ec = chars_of(from_email);
    if nc.len() == 0 || crate::text::chars_eq(&nc, &ec) {
        let b = before_char(&ec, '@');
        string_of(&b)
    } else if contains_char(&nc, '<') {
        let b = before_char(&nc, '<');
        let t = trim_exec(&b);
        string_of(&t)
    } else {
        from_name.to_string()
    }
}

/// The name the message view shows for a sender: the part of the address
/// before `@` when there is no name.
pub open spec fn view_sender_name_of(from_name: Seq<char>, from_email: Seq<char>) -> Seq<char> {
    if from_name.len() == 0 || from_name == from_email {
        split_on(from_email, '@')[0]
    } else {
        from_name
    }
}

/// The name the message view shows for a sender.
pub fn view_sender_name(from_name: &str, from_email: &str) -> (r: String)
    ensures
        r@ == view_sender_name_of(from_name@, from_email@),
{
    let nc = chars_of(from_name);
    let ec = chars_of(from_email);
    if nc.len() == 0 || crate::text::chars_eq(&nc, &ec) {
        let b = before_char(&ec, '@');
        string_of(&b)
    } else {
        from_name.to_string()
    }
}

// ───────────────────────── subjects ─────────────────────────

/// The subject of a reply: kept when it already starts with `re:` in any
/// case, else prefixed with `Re: `.
pub open spec fn reply_subject_of(subject: Seq<char>) -> Seq<char> {
    if has_prefix(lowercase(subject), "re:"@) {
        subject
    } else {
        "Re: "@ + subject
    }
}

/// The subject of a forward: kept when it already starts with `fwd:` in
/// any case, else prefixed with `Fwd: `.
pub open spec fn forward_subject_of(subject: Seq<char>) -> Seq<char> {
    if has_prefix(lowercase(subject), "fwd:"@) {
        subject
    } else {
        "Fwd: "@ + subject
    }
}

/// The subject line of a reply.
pub fn reply_subject(subject: &str) -> (r: String)
    ensures
        r@ == reply_subject_of(subject@),
{
    let low = to_lowercase(subject);
    let lc = chars_of(low.as_str());
    if starts_with_str(&lc, "re:") {
        subject.to_string()
    } else {
        let mut v: Vec<char> = Vec::new();
        extend_str(&mut v, "Re: ");
        extend_str(&mut v, subject);
        string_of(&v)
    }
}

/// The subject line of a forward.
pub fn forward_subject(subject: &str) -> (r: String)
    ensures
        r@ == forward_subject_of(subject@),
{
    let low = to_lowercase(subject);
    let lc = chars_of(low.as_str());
    if starts_with_str(&lc, "fwd:") {
        subject.to_string()
    } else {
        let mut v: Vec<char> = Vec::new();
        extend_str(&mut v, "Fwd: ");
        extend_str(&mut v, subject);
        string_of(&v)
    }
}

// ───────────────────────── quoted and forwarded bodies ─────────────────────────

/// A line without the `\r` of a `\r\n` ending.
pub open spec fn strip_cr(s: Seq<char>) -> Seq<char> {
    if s.len() > 0 && s.last() == '\r' {
        s.drop_last()
    } else {
        s
    }
}

/// The lines of a text as `str::lines` gives them: split at `\n`, a `\r`
/// before the `\n` dropped, and no empty last line after a final `\n`.
pub open spec fn text_lines(s: Seq<char>) -> Seq<Seq<char>> {
    let ps = split_on(s, '\n');
    let full = ps.drop_last().map_values(|p: Seq<char>| strip_cr(p));
    if ps.last().len() == 0 {
        full
    } else {
        full.push(ps.last())
    }
}

/// The lines of `s`.
pub fn text_lines_exec(s: &[char]) -> (r: Vec<Vec<char>>)
    ensures
        views(r@) == text_lines(s@),
{
    let ps = split_on_exec(s, '\n');
    proof {
        crate::text::lemma_join_split(s@, '\n');
    }
    let n = ps.len();
    let mut r: Vec<Vec<char>> = Vec::new();
    let mut k: usize = 0;
    while k + 1 < n
        invariant
            n == ps@.len(),
            n >= 1,
            k < n,
            views(r@) == views(ps@).take(k as int).map_values(|p: Seq<char>| strip_cr(p)),
        decreases n - k,
    {
        let piece = &ps[k];
        let m = piece.len();
        let line = if m > 0 && piece[m - 1] == '\r' {
            slice_of(piece, 0, m - 1)
        } else {
            slice_of(piece, 0, m)
        };
        proof {
            assert(piece@.subrange(0, m as int) =~= piece@);
            assert(piece@.subrange(0, m - 1) =~= piece@.drop_last());
            assert(line@ == strip_cr(views(ps@)[k as int]));
        }
        let ghost before = r@;
        r.push(line);
        proof {
            assert(views(r@) =~= views(before).push(line@));
            assert(views(ps@).take(k + 1).map_values(|p: Seq<char>| strip_cr(p)) =~= views(ps@).take(k as int).map_values(
                |p: Seq<char>| strip_cr(p)).push(strip_cr(views(ps@)[k as int])));
        }
        k += 1;
    }
    proof {
        assert(views(ps@).take(k as int) =~= views(ps@).drop_last());
        assert(views(ps@).last() == ps@[n - 1]@);
    }
    if ps[n - 1].len() > 0 {
        let mut last: Vec<char> = Vec::new();
        extend_chars(&mut last, &ps[n - 1]);
        let ghost before = r@;
        r.push(last);
        proof {
            assert(views(r@) =~= views(before).push(last@));
        }
    }
    r
}

/// Each line prefixed with `> ` and ended with a newline.
pub open spec fn quoted_lines(ls: Seq<Seq<char>>) -> Seq<char>
    decreases ls.len(),
{
    if ls.len() == 0 {
        Seq::empty()
    } else {
        quoted_lines(ls.drop_last()) + "> "@ + ls.last() + seq!['\n']
    }
}

/// The body a reply starts from.
pub open spec fn quoted_body(from: Seq<char>, date: Seq<char>, body: Seq<char>) -> Seq<char> {
    "\n\nOn "@ + date + ", "@ + from + " wrote:\n"@ + quoted_lines(text_lines(body))
}

/// Format the quoted body for reply
pub fn format_quoted_body(from: &str, date: &str, body: &str) -> (r: String)
    ensures
        r@ == quoted_body(from@, date@, body@),
{
    let mut v: Vec<char> = Vec::new();
    extend_str(&mut v, "\n\nOn ");
    extend_str(&mut v, date);
    extend_str(&mut v, ", ");
    extend_str(&mut v, from);
    extend_str(&mut v, " wrote:\n");
    let ghost head = v@;
    let bc = chars_of(body);
    let ls = text_lines_exec(&bc);
    let mut k: usize = 0;
    while k < ls.len()
        invariant
            k <= ls@.len(),
            v@ == head + quoted_lines(views(ls@).take(k as int)),
        decreases ls@.len() - k,
    {
        extend_str(&mut v, "> ");
        extend_chars(&mut v, &ls[k]);
        v.push('\n');
        proof {
            assert(views(ls@).take(k + 1).drop_last() =~= views(ls@).take(k as int));
            assert(views(ls@).take(k + 1).last() == ls@[k as int]@);
            assert(v@ =~= head + quoted_lines(views(ls@).take(k + 1)));
        }
        k += 1;
    }
    proof {
        assert(views(ls@).take(k as int) =~= views(ls@));
    }
    string_of(&v)
}

/// The pieces joined with the text `sep` between them.
pub open spec fn join_text(ps: Seq<Seq<char>>, sep: Seq<char>) -> Seq<char>
    decreases ps.len(),
{
    if ps.len() == 0 {
        Seq::empty()
    } else if ps.len() == 1 {
        ps[0]
    } else {
        join_text(ps.drop_last(), sep) + sep + ps.last()
    }
}

/// The text of each string.
pub open spec fn strings(v: Seq<String>) -> Seq<Seq<char>> {
    v.map_values(|s: String| s@)
}

/// The strings joined with `sep` between them.
pub fn join_strings(v: &[String], sep: &str) -> (r: Vec<char>)
    ensures
        r@ == join_text(strings(v@), sep@),
{
    let mut r: Vec<char> = Vec::new();
    let mut k: usize = 0;
    while k < v.len()
        invariant
            k <= v@.len(),
            r@ == join_text(strings(v@).take(k as int), sep@),
        decreases v@.len() - k,
    {
        if k > 0 {
            extend_str(&mut r, sep);
        }
        extend_str(&mut r, v[k].as_str());
        proof {
            assert(strings(v@).take(k + 1).drop_last() =~= strings(v@).take(k as int));
            if k == 0 {
                assert(strings(v@).take(1) =~= seq![v@[0]@]);
            }
        }
        k += 1;
    }
    proof {
        assert(strings(v@).take(k as int) =~= strings(v@));
    }
    r
}

/// The body a forward starts from.
pub open spec fn forward_body(from: Seq<char>, to: Seq<Seq<char>>, date: Seq<char>, subject: Seq<char>, body: Seq<char>) -> Seq<char> {
    "\n\n---------- Forwarded message ----------\n"@ + "From: "@ + from + seq!['\n'] + "Date: "@ + date + seq!['\n']
        + "Subject: "@ + subject + seq!['\n']
        + (if to.len() > 0 { "To: "@ + join_text(to, ", "@) + seq!['\n'] } else { Seq::empty() })
        + seq!['\n'] + body
}

/// Format the body for forward
pub fn format_forward_body(from: &str, to: &[String], date: &str, subject: &str, body: &str) -> (r: String)
    ensures
        r@ == forward_body(from@, strings(to@), date@, subject@, body@),
{
    let mut v: Vec<char> = Vec::new();
    extend_str(&mut v, "\n\n---------- Forwarded message ----------\n");
    extend_str(&mut v, "From: ");
    extend_str(&mut v, from);
    v.push('\n');
    extend_str(&mut v, "Date: ");
    extend_str(&mut v, date);
    v.push('\n');
    extend_str(&mut v, "Subject: ");
    extend_str(&mut v, subject);
    v.push('\n');
    let ghost head = v@;
    if to.len() > 0 {
        extend_str(&mut v, "To: ");
        let j = join_strings(to, ", ");
        extend_chars(&mut v, &j);
        v.push('\n');
    }
    proof {
        if to@.len() > 0 {
            assert(v@ =~= head + ("To: "@ + join_text(strings(to@), ", "@) + seq!['\n']));
        } else {
            assert(v@ =~= head + Seq::<char>::empty());
        }
    }
    v.push('\n');
    extend_str(&mut v, body);
    proof {
        assert(v@ =~= forward_body(from@, strings(to@), date@, subject@, body@));
    }
    string_of(&v)
}

// ───────────────────────── recipient lists ─────────────────────────

/// Every comma-separated piece of `s`, trimmed, has its angle brackets in order.
pub open spec fn pieces_in_order(s: Seq<char>) -> bool {
    forall|k: int| 0 <= k < split_on(s, ',').len() ==> brackets_in_order(trim(#[trigger] split_on(s, ',')[k]))
}

/// The addresses of the pieces, dropping empty ones, ones without `@` and `skip`.
pub open spec fn cc_addresses(ps: Seq<Seq<char>>, skip: Seq<char>) -> Seq<Seq<char>>
    decreases ps.len(),
{
    if ps.len() == 0 {
        Seq::empty()
    } else {
        let p = cc_addresses(ps.drop_last(), skip);
        let e = email_of(trim(ps.last()));
        if e.len() > 0 && contains(e, seq!['@']) && e != skip {
            p.push(e)
        } else {
            p
        }
    }
}

/// The addresses of the pieces, dropping empty ones and `skip`.
pub open spec fn draft_addresses(ps: Seq<Seq<char>>, skip: Seq<char>) -> Seq<Seq<char>>
    decreases ps.len(),
{
    if ps.len() == 0 {
        Seq::empty()
    } else {
        let p = draft_addresses(ps.drop_last(), skip);
        let e = email_of(trim(ps.last()));
        if e.len() > 0 && e != skip {
            p.push(e)
        } else {
            p
        }
    }
}

/// The pairs (address, display) of a list of strings shown by their address.
pub open spec fn pair_views(v: Seq<(String, String)>) -> Seq<(Seq<char>, Seq<char>)> {
    v.map_values(|p: (String, String)| (p.0@, p.1@))
}

/// The Cc list of a reply-all: every other recipient of the message replied to, each
/// shown by its address, without the one replied to.
pub fn reply_all_cc(to_field: &str, reply_to_email: &str) -> (r: Vec<(String, String)>)
    requires
        pieces_in_order(to_field@),
    ensures
        pair_views(r@) == cc_addresses(split_on(to_field@, ','), reply_to_email@).map_values(|e: Seq<char>| (e, e)),
{
    let tc = chars_of(to_field);
    let ps = split_on_exec(&tc, ',');
    let ghost pv = views(ps@);
    let skip = chars_of(reply_to_email);
    let mut r: Vec<(String, String)> = Vec::new();
    let mut k: usize = 0;
    while k < ps.len()
        invariant
            pv == views(ps@),
            pv == split_on(to_field@, ','),
            pieces_in_order(to_field@),
            skip@ == reply_to_email@,
            k <= ps@.len(),
            pair_views(r@) == cc_addresses(pv.take(k as int), reply_to_email@).map_values(|e: Seq<char>| (e, e)),
        decreases ps@.len() - k,
    {
        proof {
            assert(pv.take(k + 1).drop_last() =~= pv.take(k as int));
            assert(pv.take(k + 1).last() == ps@[k as int]@);
            assert(brackets_in_order(trim(pv[k as int])));
        }
        let t = trim_exec(&ps[k]);
        let ts = string_of(&t);
        let e = extract_email_address(ts.as_str());
        let ec = chars_of(e.as_str());
        if ec.len() > 0 && contains_char(&ec, '@') && !crate::text::chars_eq(&ec, &skip) {
            let ghost before = r@;
            r.push((e.clone(), e));
            proof {
                assert(pair_views(r@) =~= pair_views(before).push((ec@, ec@)));
            }
        }
        k += 1;
    }
    proof {
        assert(pv.take(k as int) =~= pv);
    }
    r
}

/// The recipients of a draft being edited again: the addresses of its To
/// field, without the sender's own (put there when the draft had none).
pub fn draft_recipients(to_field: &str, sender_email: &str) -> (r: Vec<String>)
    requires
        pieces_in_order(to_field@),
    ensures
        strings(r@) == draft_addresses(split_on(to_field@, ','), sender_email@),
{
    let tc = chars_of(to_field);
    let ps = split_on_exec(&tc, ',');
    let ghost pv = views(ps@);
    let skip = chars_of(sender_email);
    let mut r: Vec<String> = Vec::new();
    let mut k: usize = 0;
    while k < ps.len()
        invariant
            pv == views(ps@),
            pv == split_on(to_field@, ','),
            pieces_in_order(to_field@),
            skip@ == sender_email@,
            k <= ps@.len(),
            strings(r@) == draft_addresses(pv.take(k as int), sender_email@),
        decreases ps@.len() - k,
    {
        proof {
            assert(pv.take(k + 1).drop_last() =~= pv.take(k as int));
            assert(pv.take(k + 1).last() == ps@[k as int]@);
            assert(brackets_in_order(trim(pv[k as int])));
        }
        let t = trim_exec(&ps[k]);
        let ts = string_of(&t);
        let e = extract_email_address(ts.as_str());
        let ec = chars_of(e.as_str());
        if ec.len() > 0 && !crate::text::chars_eq(&ec, &skip) {
            let ghost before = r@;
            r.push(e);
            proof {
                assert(strings(r@) =~= strings(before).push(ec@));
            }
        }
        k += 1;
    }
    proof {
        assert(pv.take(k as int) =~= pv);
    }
    r
}

/// The recipients listed in a forwarded message: each comma-separated
/// piece of the To field, trimmed.
pub fn forward_to_list(to_field: &str) -> (r: Vec<String>)
    ensures
        strings(r@) == split_on(to_field@, ',').map_values(|p: Seq<char>| trim(p)),
{
    let tc = chars_of(to_field);
    let ps = split_on_exec(&tc, ',');
    let ghost pv = views(ps@);
    let mut r: Vec<String> = Vec::new();
    let mut k: usize = 0;
    while k < ps.len()
        invariant
            pv == views(ps@),
            pv == split_on(to_field@, ','),
            k <= ps@.len(),
            strings(r@) == pv.take(k as int).map_values(|p: Seq<char>| trim(p)),
        decreases ps@.len() - k,
    {
        let t = trim_exec(&ps[k]);
        let ghost before = r@;
        r.push(string_of(&t));
        proof {
            assert(pv[k as int] == ps@[k as int]@);
            assert(strings(r@) =~= strings(before).push(trim(pv[k as int])));
            assert(pv.take(k + 1).map_values(|p: Seq<char>| trim(p)) =~= pv.take(k as int).map_values(|p: Seq<char>| trim(p)).push(
                trim(pv[k as int])));
        }
        k += 1;
    }
    proof {
        assert(pv.take(k as int) =~= pv);
    }
    r
}

// ───────────────────────── avatars ─────────────────────────

/// The first character of a word, `?` for an empty one.
pub open spec fn first_char_or_mark(w: Seq<char>) -> char {
    if w.len() > 0 { w[0] } else { '?' }
}

/// The initials of a display text: `?` without words, the upper-cased first
/// letter of a single word, else the upper-cased first letters of the first
/// and the last word.
pub open spec fn initials_of(display: Seq<char>) -> Seq<char> {
    let ws = words(display);
    if ws.len() == 0 {
        seq!['?']
    } else if ws.len() == 1 {
        uppercase(seq![first_char_or_mark(ws[0])])
    } else {
        uppercase(seq![first_char_or_mark(ws[0]), first_char_or_mark(ws[ws.len() - 1])])
    }
}

/// The text the main window takes initials from: the address's local part
/// when the name is missing, equal to the address or itself an address,
/// else the name without its `<email>` part.
pub open spec fn window_initials_source(name: Seq<char>, email: Seq<char>) -> Seq<char> {
    if name.len() == 0 || name == email || contains(name, seq!['@']) {
        split_on(email, '@')[0]
    } else if contains(name, seq!['<']) {
        trim(split_on(name, '<')[0])
    } else {
        name
    }
}

/// The text the message view takes initials from.
pub open spec fn view_initials_source(name: Seq<char>, email: Seq<char>) -> Seq<char> {
    if name.len() == 0 || name == email {
        split_on(email, '@')[0]
    } else {
        name
    }
}

fn initials_exec(display: &[char]) -> (r: String)
    ensures
        r@ == initials_of(display@),
{
    let ws = split_whitespace_exec(display);
    let n = ws.len();
    proof {
        assert(views(ws@).len() == n);
    }
    if n == 0 {
        let mut v: Vec<char> = Vec::new();
        v.push('?');
        string_of(&v)
    } else {
        proof {
            assert(views(ws@)[0] == ws@[0]@);
            assert(views(ws@)[n - 1] == ws@[n - 1]@);
        }
        let first = if ws[0].len() > 0 { ws[0][0] } else { '?' };
        let mut v: Vec<char> = Vec::new();
        v.push(first);
        if n > 1 {
            let last = if ws[n - 1].len() > 0 { ws[n - 1][0] } else { '?' };
            v.push(last);
        }
        let pair = string_of(&v);
        proof {
            if n > 1 {
                assert(v@ =~= seq![first_char_or_mark(views(ws@)[0]), first_char_or_mark(views(ws@)[n - 1])]);
            } else {
                assert(v@ =~= seq![first_char_or_mark(views(ws@)[0])]);
            }
        }
        to_uppercase(pair.as_str())
    }
}

/// Get initials from a name or email (main window)
pub fn get_initials(name: &str, email: &str) -> (r: String)
    ensures
        r@ == initials_of(window_initials_source(name@, email@)),
{
    let nc = chars_of(name);
    let ec = chars_of(email);
    if nc.len() == 0 || crate::text::chars_eq(&nc, &ec) || contains_char(&nc, '@') {
        let b = before_char(&ec, '@');
        initials_exec(&b)
    } else if contains_char(&nc, '<') {
        let b = before_char(&nc, '<');
        let t = trim_exec(&b);
        initials_exec(&t)
    } else {
        initials_exec(&nc)
    }
}

/// Get initials from a name or email (message view)
pub fn view_initials(name: &str, email: &str) -> (r: String)
    ensures
        r@ == initials_of(view_initials_source(name@, email@)),
{
    let nc = chars_of(name);
    let ec = chars_of(email);
    if nc.len() == 0 || crate::text::chars_eq(&nc, &ec) {
        let b = before_char(&ec, '@');
        initials_exec(&b)
    } else {
        initials_exec(&nc)
    }
}

/// The sum of the bytes, wrapping around at the size of `usize`.
pub open spec fn byte_hash(bs: Seq<u8>) -> usize
    decreases bs.len(),
{
    if bs.len() == 0 {
        0
    } else {
        byte_hash(bs.drop_last()).wrapping_add(bs.last() as usize)
    }
}

/// Which of the twelve avatar colours a text gets: the wrapping sum of its
/// UTF-8 bytes, modulo twelve.
pub open spec fn color_index(s: Seq<char>) -> usize {
    (byte_hash(utf8_bytes(s)) % 12) as usize
}

/// Which of the twelve avatar colours a text gets.
pub fn avatar_color_index(s: &str) -> (r: usize)
    ensures
        r == color_index(s@),
        r < 12,
{
    let bs = s.as_bytes();
    let mut h: usize = 0;
    let mut i: usize = 0;
    while i < bs.len()
        invariant
            bs@ == utf8_bytes(s@),
            i <= bs@.len(),
            h == byte_hash(bs@.take(i as int)),
        decreases bs@.len() - i,
    {
        proof {
            assert(bs@.take(i + 1).drop_last() =~= bs@.take(i as int));
        }
        h = h.wrapping_add(bs[i] as usize);
        i += 1;
    }
    proof {
        assert(bs@.take(i as int) =~= bs@);
    }
    h % 12
}

/// The colour names of the avatar palette.
pub open spec fn palette_color(i: usize) -> Seq<char> {
    if i == 0 { "#4A90D9"@ }
    else if i == 1 { "#E74C3C"@ }
    else if i == 2 { "#2ECC71"@ }
    else if i == 3 { "#9B59B6"@ }
    else if i == 4 { "#F39C12"@ }
    else if i == 5 { "#1ABC9C"@ }
    else if i == 6 { "#E91E63"@ }
    else if i == 7 { "#3F51B5"@ }
    else if i == 8 { "#00BCD4"@ }
    else if i == 9 { "#8BC34A"@ }
    else if i == 10 { "#FF5722"@ }
    else { "#607D8B"@ }
}

/// Generate a color from a string (for avatar background)
pub fn string_to_color(s: &str) -> (r: String)
    ensures
        r@ == palette_color(color_index(s@)),
{
    let i = avatar_color_index(s);
    let c = if i == 0 { "#4A90D9" }
    else if i == 1 { "#E74C3C" }
    else if i == 2 { "#2ECC71" }
    else if i == 3 { "#9B59B6" }
    else if i == 4 { "#F39C12" }
    else if i == 5 { "#1ABC9C" }
    else if i == 6 { "#E91E63" }
    else if i == 7 { "#3F51B5" }
    else if i == 8 { "#00BCD4" }
    else if i == 9 { "#8BC34A" }
    else if i == 10 { "#FF5722" }
    else { "#607D8B" };
    c.to_string()
}

// ───────────────────────── attachments ─────────────────────────

/// The extension of a file name: the text after its last `.`, or all of it.
pub open spec fn extension_of(name: Seq<char>) -> Seq<char> {
    match rfind_char(name, '.') {
        Some(i) => name.skip(i + 1),
        None => name,
    }
}

/// The MIME type for a (lower-cased) extension.
pub open spec fn mime_for_extension(e: Seq<char>) -> Seq<char> {
    if e == "pdf"@ { "application/pdf"@ }
    else if e == "doc"@ { "application/msword"@ }
    else if e == "docx"@ { "application/vnd.openxmlformats-officedocument.wordprocessingml.document"@ }
    else if e == "xls"@ { "application/vnd.ms-excel"@ }
    else if e == "xlsx"@ { "application/vnd.openxmlformats-officedocument.spreadsheetml.sheet"@ }
    else if e == "ppt"@ { "application/vnd.ms-powerpoint"@ }
    else if e == "pptx"@ { "application/vnd.openxmlformats-officedocument.presentationml.presentation"@ }
    else if e == "txt"@ { "text/plain"@ }
    else if e == "html"@ || e == "htm"@ { "text/html"@ }
    else if e == "css"@ { "text/css"@ }
    else if e == "js"@ { "application/javascript"@ }
    else if e == "json"@ { "application/json"@ }
    else if e == "xml"@ { "application/xml"@ }
    else if e == "zip"@ { "application/zip"@ }
    else if e == "gz"@ || e == "gzip"@ { "application/gzip"@ }
    else if e == "tar"@ { "application/x-tar"@ }
    else if e == "rar"@ { "application/vnd.rar"@ }
    else if e == "7z"@ { "application/x-7z-compressed"@ }
    else if e == "png"@ { "image/png"@ }
    else if e == "jpg"@ || e == "jpeg"@ { "image/jpeg"@ }
    else if e == "gif"@ { "image/gif"@ }
    else if e == "webp"@ { "image/webp"@ }
    else if e == "svg"@ { "image/svg+xml"@ }
    else if e == "ico"@ { "image/x-icon"@ }
    else if e == "bmp"@ { "image/bmp"@ }
    else if e == "tiff"@ || e == "tif"@ { "image/tiff"@ }
    else if e == "mp3"@ { "audio/mpeg"@ }
    else if e == "wav"@ { "audio/wav"@ }
    else if e == "ogg"@ { "audio/ogg"@ }
    else if e == "flac"@ { "audio/flac"@ }
    else if e == "m4a"@ { "audio/mp4"@ }
    else if e == "mp4"@ { "video/mp4"@ }
    else if e == "webm"@ { "video/webm"@ }
    else if e == "avi"@ { "video/x-msvideo"@ }
    else if e == "mov"@ { "video/quicktime"@ }
    else if e == "mkv"@ { "video/x-matroska"@ }
    else if e == "eml"@ { "message/rfc822"@ }
    else { "application/octet-stream"@ }
}

fn mime_for_extension_exec(e: &[char]) -> (r: &'static str)
    ensures
        r@ == mime_for_extension(e@),
{
    if eq_str(e, "pdf") { "application/pdf" }
    else if eq_str(e, "doc") { "application/msword" }
    else if eq_str(e, "docx") { "application/vnd.openxmlformats-officedocument.wordprocessingml.document" }
    else if eq_str(e, "xls") { "application/vnd.ms-excel" }
    else if eq_str(e, "xlsx") { "application/vnd.openxmlformats-officedocument.spreadsheetml.sheet" }
    else if eq_str(e, "ppt") { "application/vnd.ms-powerpoint" }
    else if eq_str(e, "pptx") { "application/vnd.openxmlformats-officedocument.presentationml.presentation" }
    else if eq_str(e, "txt") { "text/plain" }
    else if eq_str(e, "html") || eq_str(e, "htm") { "text/html" }
    else if eq_str(e, "css") { "text/css" }
    else if eq_str(e, "js") { "application/javascript" }
    else if eq_str(e, "json") { "application/json" }
    else if eq_str(e, "xml") { "application/xml" }
    else if eq_str(e, "zip") { "application/zip" }
    else if eq_str(e, "gz") || eq_str(e, "gzip") { "application/gzip" }
    else if eq_str(e, "tar") { "application/x-tar" }
    else if eq_str(e, "rar") { "application/vnd.rar" }
    else if eq_str(e, "7z") { "application/x-7z-compressed" }
    else if eq_str(e, "png") { "image/png" }
    else if eq_str(e, "jpg") || eq_str(e, "jpeg") { "image/jpeg" }
    else if eq_str(e, "gif") { "image/gif" }
    else if eq_str(e, "webp") { "image/webp" }
    else if eq_str(e, "svg") { "image/svg+xml" }
    else if eq_str(e, "ico") { "image/x-icon" }
    else if eq_str(e, "bmp") { "image/bmp" }
    else if eq_str(e, "tiff") || eq_str(e, "tif") { "image/tiff" }
    else if eq_str(e, "mp3") { "audio/mpeg" }
    else if eq_str(e, "wav") { "audio/wav" }
    else if eq_str(e, "ogg") { "audio/ogg" }
    else if eq_str(e, "flac") { "audio/flac" }
    else if eq_str(e, "m4a") { "audio/mp4" }
    else if eq_str(e, "mp4") { "video/mp4" }
    else if eq_str(e, "webm") { "video/webm" }
    else if eq_str(e, "avi") { "video/x-msvideo" }
    else if eq_str(e, "mov") { "video/quicktime" }
    else if eq_str(e, "mkv") { "video/x-matroska" }
    else if eq_str(e, "eml") { "message/rfc822" }
    else { "application/octet-stream" }
}

/// Guess the MIME type of an attachment from its file name's extension
/// (compared in lower case).
pub fn guess_mime_type(filename: &str) -> (r: String)
    ensures
        r@ == mime_for_extension(lowercase(extension_of(filename@))),
{
    let fc = chars_of(filename);
    let n = fc.len();
    let ext: Vec<char> = match rfind_char_exec(&fc, '.') {
        Some(i) => {
            proof {
                crate::text::lemma_rfind_char_in(fc@, '.');
                assert(i < fc@.len());
                assert(fc@.subrange(i + 1, fc@.len() as int) =~= fc@.skip(i + 1));
            }
            slice_of(&fc, i + 1, n)
        },
        None => fc,
    };
    let es = string_of(&ext);
    let low = to_lowercase(es.as_str());
    let lc = chars_of(low.as_str());
    mime_for_extension_exec(&lc).to_string()
}

/// The icon for a MIME type.
pub open spec fn icon_for(mime: Seq<char>) -> Seq<char> {
    if has_prefix(mime, "image/"@) { "image-x-generic-symbolic"@ }
    else if has_prefix(mime, "audio/"@) { "audio-x-generic-symbolic"@ }
    else if has_prefix(mime, "video/"@) { "video-x-generic-symbolic"@ }
    else if mime == "application/pdf"@ { "x-office-document-symbolic"@ }
    else if has_prefix(mime, "text/"@) { "text-x-generic-symbolic"@ }
    else { "document-symbolic"@ }
}

/// The icon for a MIME type.
pub fn icon_for_mime_type(mime_type: &str) -> (r: &'static str)
    ensures
        r@ == icon_for(mime_type@),
{
    let m = chars_of(mime_type);
    if starts_with_str(&m, "image/") { "image-x-generic-symbolic" }
    else if starts_with_str(&m, "audio/") { "audio-x-generic-symbolic" }
    else if starts_with_str(&m, "video/") { "video-x-generic-symbolic" }
    else if eq_str(&m, "application/pdf") { "x-office-document-symbolic" }
    else if starts_with_str(&m, "text/") { "text-x-generic-symbolic" }
    else { "document-symbolic" }
}

/// The length of a character in UTF-8 (`char::len_utf8`).
pub open spec fn utf8_len(c: char) -> nat {
    if (c as u32) < 0x80 { 1 } else if (c as u32) < 0x800 { 2 } else if (c as u32) < 0x10000 { 3 } else { 4 }
}

/// The length of a text in UTF-8 bytes.
pub open spec fn byte_len(s: Seq<char>) -> nat
    decreases s.len(),
{
    if s.len() == 0 { 0 } else { byte_len(s.drop_last()) + utf8_len(s.last()) }
}

/// How many leading characters of `s` fit in `budget` bytes.
pub open spec fn chars_fitting(s: Seq<char>, budget: int) -> int
    decreases s.len(),
{
    if s.len() == 0 || utf8_len(s[0]) > budget { 0 } else { 1 + chars_fitting(s.drop_first(), budget - utf8_len(s[0])) }
}

/// Where a file name's extension starts: at its last `.`, else at its end.
pub open spec fn extension_start(f: Seq<char>) -> int {
    match rfind_char(f, '.') {
        Some(i) => i,
        None => f.len() as int,
    }
}

/// The truncation is possible: where a long name is cut after 17 bytes,
/// a character ends there.
pub open spec fn label_cut_ok(f: Seq<char>) -> bool {
    let name = f.take(extension_start(f));
    byte_len(f) > 25 && byte_len(name) > 20 ==> byte_len(name.take(chars_fitting(name, 17))) == 17
}

/// The name shown for an attachment: names over 25 bytes whose part before
/// the extension is over 20 bytes keep its first 17 bytes, then `...`, then
/// the extension.
pub open spec fn attachment_label(f: Seq<char>) -> Seq<char> {
    let k = extension_start(f);
    let name = f.take(k);
    if byte_len(f) > 25 && byte_len(name) > 20 {
        name.take(chars_fitting(name, 17)) + "..."@ + f.skip(k)
    } else {
        f
    }
}

pub(crate) fn utf8_len_exec(c: char) -> (r: usize)
    ensures
        r == utf8_len(c),
{
    let u = c as u32;
    if u < 0x80 { 1 } else if u < 0x800 { 2 } else if u < 0x10000 { 3 } else { 4 }
}

/// The UTF-8 length of `s` if it is at most `cap`, else `cap + 1`.
fn byte_len_capped(s: &[char], cap: usize) -> (r: usize)
    requires
        cap < 1000,
    ensures
        r == if byte_len(s@) <= cap { byte_len(s@) } else { cap as nat + 1 },
{
    let mut sum: usize = 0;
    let mut i: usize = 0;
    while i < s.len()
        invariant
            cap < 1000,
            i <= s@.len(),
            sum == byte_len(s@.take(i as int)),
            sum <= cap,
        decreases s@.len() - i,
    {
        proof {
            assert(s@.take(i + 1).drop_last() =~= s@.take(i as int));
        }
        let n = sum + utf8_len_exec(s[i]);
        if n > cap {
            proof {
                lemma_byte_len_prefix(s@, i + 1);
            }
            return cap + 1;
        }
        sum = n;
        i += 1;
    }
    proof {
        assert(s@.take(i as int) =~= s@);
    }
    sum
}

pub(crate) proof fn lemma_byte_len_prefix(s: Seq<char>, k: int)
    requires
        0 <= k <= s.len(),
    ensures
        byte_len(s.take(k)) <= byte_len(s),
    decreases s.len() - k,
{
    if k < s.len() {
        lemma_byte_len_prefix(s, k + 1);
        assert(s.take(k + 1).drop_last() =~= s.take(k));
    } else {
        assert(s.take(k) =~= s);
    }
}

/// Truncate an attachment's file name for display, keeping the extension.
pub fn attachment_display_name(filename: &str) -> (r: String)
    requires
        label_cut_ok(filename@),
    ensures
        r@ == attachment_label(filename@),
{
    let f = chars_of(filename);
    let n = f.len();
    let k: usize = match rfind_char_exec(&f, '.') {
        Some(i) => {
            proof {
                crate::text::lemma_rfind_char_in(f@, '.');
            }
            i
        },
        None => n,
    };
    let total = byte_len_capped(&f, 25);
    if total <= 25 {
        return filename.to_string();
    }
    let name = slice_of(&f, 0, k);
    proof {
        assert(f@.subrange(0, k as int) =~= f@.take(k as int));
    }
    let name_len = byte_len_capped(&name, 20);
    if name_len <= 20 {
        return filename.to_string();
    }
    // count the characters that fit in 17 bytes
    let mut used: usize = 0;
    let mut j: usize = 0;
    proof {
        assert(name@.skip(0) =~= name@);
    }
    while j < name.len() && used + utf8_len_exec(name[j]) <= 17
        invariant
            j <= name@.len(),
            used <= 17,
            chars_fitting(name@, 17) == j + chars_fitting(name@.skip(j as int), 17 - used),
        decreases name@.len() - j,
    {
        proof {
            assert(name@.skip(j as int)[0] == name@[j as int]);
            assert(name@.skip(j as int).drop_first() =~= name@.skip(j + 1));
        }
        used = used + utf8_len_exec(name[j]);
        j += 1;
    }
    proof {
        if j < name@.len() {
            assert(name@.skip(j as int)[0] == name@[j as int]);
        }
    }
    let mut v = slice_of(&name, 0, j);
    extend_str(&mut v, "...");
    let ext = slice_of(&f, k, n);
    extend_chars(&mut v, &ext);
    proof {
        assert(name@.subrange(0, j as int) =~= name@.take(j as int));
        assert(f@.subrange(k as int, n as int) =~= f@.skip(k as int));
    }
    string_of(&v)
}

// ───────────────────────── compose modes ─────────────────────────

/// What a compose window starts from.
#[allow(inconsistent_fields)]
pub enum ComposeMode {
    /// A new message, optionally to a given (address, display name).
    New { to: Option<(String, String)> },
    /// A reply to the sender.
    Reply {
        to: String,
        to_display: String,
        subject: String,
        quoted_body: String,
        in_reply_to: Option<String>,
        references: Vec<String>,
    },
    /// A reply to the sender and the other recipients.
    ReplyAll {
        to: Vec<(String, String)>,
        cc: Vec<(String, String)>,
        subject: String,
        quoted_body: String,
        in_reply_to: Option<String>,
        references: Vec<String>,
    },
    /// A forward, with the attachments (file name, MIME type, data) it carries on.
    Forward { subject: String, quoted_body: String, attachments: Vec<(String, String, Vec<u8>)> },
    /// A saved draft opened again.
    EditDraft { to: Vec<String>, cc: Vec<String>, subject: String, body: String, draft_uid: u32, account_index: u32 },
}

/// The fields of a compose window when it opens: recipient chips as
/// (display, address), subject, body, attachments, and the saved draft it
/// replaces (account index, UID), if any.
pub struct ComposeFields {
    pub to: Vec<(String, String)>,
    pub cc: Vec<(String, String)>,
    pub subject: String,
    pub body: String,
    pub attachments: Vec<(String, String, Vec<u8>)>,
    pub draft: Option<(u32, u32)>,
}

/// The body used while the message's own body has not arrived yet.
pub open spec fn body_or_placeholder(body: Option<Seq<char>>) -> Seq<char> {
    match body {
        Some(b) => b,
        None => "(Message body is still loading...)"@,
    }
}

fn body_text(body: Option<String>) -> (r: String)
    ensures
        r@ == body_or_placeholder(opt_view(body)),
{
    match body {
        Some(b) => b,
        None => "(Message body is still loading...)".to_string(),
    }
}

/// The senders' messages can be replied to: their sender text has its
/// angle brackets in order.
pub open spec fn repliable(m: MessageInfo) -> bool {
    brackets_in_order(m.from@)
}

/// Start a reply to a message's sender.
pub fn reply_mode(msg: &MessageInfo, body: Option<String>) -> (r: ComposeMode)
    requires
        repliable(*msg),
    ensures
        r matches ComposeMode::Reply { to, to_display, subject, quoted_body: q, in_reply_to, references } && {
            &&& to@ == reply_target(msg.from_address@, msg.from@)
            &&& to_display@ == msg.from@
            &&& subject@ == reply_subject_of(msg.subject@)
            &&& q@ == quoted_body(msg.from@, msg.date@, body_or_placeholder(opt_view(body)))
            &&& in_reply_to is None
            &&& references@.len() == 0
        },
{
    let b = body_text(body);
    ComposeMode::Reply {
        to: reply_target_email(msg.from_address.as_str(), msg.from.as_str()),
        to_display: msg.from.clone(),
        subject: reply_subject(msg.subject.as_str()),
        quoted_body: format_quoted_body(msg.from.as_str(), msg.date.as_str(), b.as_str()),
        in_reply_to: None,
        references: Vec::new(),
    }
}

/// Start a reply to the sender and every other recipient of a message.
pub fn reply_all_mode(msg: &MessageInfo, body: Option<String>) -> (r: ComposeMode)
    requires
        repliable(*msg),
        pieces_in_order(msg.to@),
    ensures
        r matches ComposeMode::ReplyAll { to, cc, subject, quoted_body: q, in_reply_to, references } && {
            let target = reply_target(msg.from_address@, msg.from@);
            &&& pair_views(to@) == seq![(target, msg.from@)]
            &&& pair_views(cc@) == cc_addresses(split_on(msg.to@, ','), target).map_values(|e: Seq<char>| (e, e))
            &&& subject@ == reply_subject_of(msg.subject@)
            &&& q@ == quoted_body(msg.from@, msg.date@, body_or_placeholder(opt_view(body)))
            &&& in_reply_to is None
            &&& references@.len() == 0
        },
{
    let b = body_text(body);
    let target = reply_target_email(msg.from_address.as_str(), msg.from.as_str());
    let cc = reply_all_cc(msg.to.as_str(), target.as_str());
    let mut to: Vec<(String, String)> = Vec::new();
    to.push((target, msg.from.clone()));
    proof {
        assert(pair_views(to@) =~= seq![(to@[0].0@, msg.from@)]);
    }
    ComposeMode::ReplyAll {
        to,
        cc,
        subject: reply_subject(msg.subject.as_str()),
        quoted_body: format_quoted_body(msg.from.as_str(), msg.date.as_str(), b.as_str()),
        in_reply_to: None,
        references: Vec::new(),
    }
}

/// Start a forward of a message, carrying on the given attachments.
pub fn forward_mode(msg: &MessageInfo, body: Option<String>, attachments: Vec<(String, String, Vec<u8>)>) -> (r: ComposeMode)
    ensures
        r matches ComposeMode::Forward { subject, quoted_body: q, attachments: atts } && {
            &&& subject@ == forward_subject_of(msg.subject@)
            &&& q@ == forward_body(
                msg.from@,
                split_on(msg.to@, ',').map_values(|p: Seq<char>| trim(p)),
                msg.date@,
                msg.subject@,
                body_or_placeholder(opt_view(body)),
            )
            &&& atts == attachments
        },
{
    let b = body_text(body);
    let to_list = forward_to_list(msg.to.as_str());
    ComposeMode::Forward {
        subject: forward_subject(msg.subject.as_str()),
        quoted_body: format_forward_body(msg.from.as_str(), &to_list, msg.date.as_str(), msg.subject.as_str(), b.as_str()),
        attachments,
    }
}

/// Open a draft again: its recipients without the sender's own address.
pub fn edit_draft_mode(msg: &MessageInfo, body: String, sender_email: &str) -> (r: ComposeMode)
    requires
        pieces_in_order(msg.to@),
    ensures
        r matches ComposeMode::EditDraft { to, cc, subject, body: b, draft_uid, account_index } && {
            &&& strings(to@) == draft_addresses(split_on(msg.to@, ','), sender_email@)
            &&& cc@.len() == 0
            &&& subject@ == msg.subject@
            &&& b@ == body@
            &&& draft_uid == msg.uid
            &&& account_index == 0
        },
{
    ComposeMode::EditDraft {
        to: draft_recipients(msg.to.as_str(), sender_email),
        cc: Vec::new(),
        subject: msg.subject.clone(),
        body,
        draft_uid: msg.uid,
        account_index: 0,
    }
}

/// The chips of (address, display) pairs, shown as (display, address).
pub open spec fn chips_of_pairs(v: Seq<(String, String)>) -> Seq<(Seq<char>, Seq<char>)> {
    v.map_values(|p: (String, String)| (p.1@, p.0@))
}

/// The chips of plain addresses, shown by the address itself.
pub open spec fn chips_of_addresses(v: Seq<String>) -> Seq<(Seq<char>, Seq<char>)> {
    v.map_values(|a: String| (a@, a@))
}

fn swap_pairs(v: Vec<(String, String)>) -> (r: Vec<(String, String)>)
    ensures
        pair_views(r@) == chips_of_pairs(v@),
{
    let ghost s = v@;
    assert(s.len() == v.len());
    let mut rest = v;
    let mut out: Vec<(String, String)> = Vec::new();
    let mut i: usize = 0;
    while rest.len() > 0
        invariant
            s.len() <= usize::MAX,
            i + rest@.len() == s.len(),
            rest@ == s.skip(i as int),
            pair_views(out@) == chips_of_pairs(s.take(i as int)),
        decreases rest@.len(),
    {
        let (a, d) = rest.remove(0);
        proof {
            assert((a, d) == s[i as int]);
            assert(rest@ =~= s.skip(i + 1));
        }
        let ghost before = out@;
        out.push((d, a));
        proof {
            assert(pair_views(out@) =~= pair_views(before).push((s[i as int].1@, s[i as int].0@)));
            assert(chips_of_pairs(s.take(i + 1)) =~= chips_of_pairs(s.take(i as int)).push((s[i as int].1@, s[i as int].0@)));
        }
        i += 1;
    }
    proof {
        assert(s.take(i as int) =~= s);
    }
    out
}

fn address_chips(v: Vec<String>) -> (r: Vec<(String, String)>)
    ensures
        pair_views(r@) == chips_of_addresses(v@),
{
    let ghost s = v@;
    assert(s.len() == v.len());
    let mut rest = v;
    let mut out: Vec<(String, String)> = Vec::new();
    let mut i: usize = 0;
    while rest.len() > 0
        invariant
            s.len() <= usize::MAX,
            i + rest@.len() == s.len(),
            rest@ == s.skip(i as int),
            pair_views(out@) == chips_of_addresses(s.take(i as int)),
        decreases rest@.len(),
    {
        let a = rest.remove(0);
        proof {
            assert(a == s[i as int]);
            assert(rest@ =~= s.skip(i + 1));
        }
        let ghost before = out@;
        out.push((a.clone(), a));
        proof {
            assert(pair_views(out@) =~= pair_views(before).push((s[i as int]@, s[i as int]@)));
            assert(chips_of_addresses(s.take(i + 1)) =~= chips_of_addresses(s.take(i as int)).push((s[i as int]@, s[i as int]@)));
        }
        i += 1;
    }
    proof {
        assert(s.take(i as int) =~= s);
    }
    out
}

/// Pre-fill the compose window's fields from the compose mode.
pub fn prefill(mode: ComposeMode) -> (r: ComposeFields)
    ensures
        match mode {
            ComposeMode::New { to } => {
                &&& pair_views(r.to@) == match to { Some(p) => seq![(p.1@, p.0@)], None => Seq::empty() }
                &&& r.cc@.len() == 0 && r.subject@.len() == 0 && r.body@.len() == 0
                &&& r.attachments@.len() == 0 && r.draft is None
            },
            ComposeMode::Reply { to, to_display, subject, quoted_body, .. } => {
                &&& pair_views(r.to@) == seq![(to_display@, to@)]
                &&& r.cc@.len() == 0 && r.subject@ == subject@ && r.body@ == quoted_body@
                &&& r.attachments@.len() == 0 && r.draft is None
            },
            ComposeMode::ReplyAll { to, cc, subject, quoted_body, .. } => {
                &&& pair_views(r.to@) == chips_of_pairs(to@)
                &&& pair_views(r.cc@) == chips_of_pairs(cc@)
                &&& r.subject@ == subject@ && r.body@ == quoted_body@
                &&& r.attachments@.len() == 0 && r.draft is None
            },
            ComposeMode::Forward { subject, quoted_body, attachments } => {
                &&& r.to@.len() == 0 && r.cc@.len() == 0
                &&& r.subject@ == subject@ && r.body@ == quoted_body@
                &&& r.attachments == attachments && r.draft is None
            },
            ComposeMode::EditDraft { to, cc, subject, body, draft_uid, account_index } => {
                &&& pair_views(r.to@) == chips_of_addresses(to@)
                &&& pair_views(r.cc@) == chips_of_addresses(cc@)
                &&& r.subject@ == subject@ && r.body@ == body@
                &&& r.attachments@.len() == 0 && r.draft == Some((account_index, draft_uid))
            },
        },
{
    match mode {
        ComposeMode::New { to } => {
            let mut chips: Vec<(String, String)> = Vec::new();
            match to {
                Some((email, display)) => {
                    chips.push((display, email));
                },
                None => {},
            }
            proof {
                assert(pair_views(chips@) =~= match to { Some(p) => seq![(p.1@, p.0@)], None => Seq::<(Seq<char>, Seq<char>)>::empty() });
            }
            ComposeFields { to: chips, cc: Vec::new(), subject: String::new(), body: String::new(), attachments: Vec::new(), draft: None }
        },
        ComposeMode::Reply { to, to_display, subject, quoted_body, .. } => {
            let mut chips: Vec<(String, String)> = Vec::new();
            chips.push((to_display, to));
            proof {
                assert(pair_views(chips@) =~= seq![(chips@[0].0@, chips@[0].1@)]);
            }
            ComposeFields { to: chips, cc: Vec::new(), subject, body: quoted_body, attachments: Vec::new(), draft: None }
        },
        ComposeMode::ReplyAll { to, cc, subject, quoted_body, .. } => {
            ComposeFields { to: swap_pairs(to), cc: swap_pairs(cc), subject, body: quoted_body, attachments: Vec::new(), draft: None }
        },
        ComposeMode::Forward { subject, quoted_body, attachments } => {
            ComposeFields { to: Vec::new(), cc: Vec::new(), subject, body: quoted_body, attachments, draft: None }
        },
        ComposeMode::EditDraft { to, cc, subject, body, draft_uid, account_index } => {
            ComposeFields {
                to: address_chips(to),
                cc: address_chips(cc),
                subject,
                body,
                attachments: Vec::new(),
                draft: Some((account_index, draft_uid)),
            }
        },
    }
}

/// The question asked before forwarding a message with attachments.
pub open spec fn attachments_question(n: nat) -> Seq<char> {
    "This message has "@ + crate::text::decimal(n) + " attachment"@ + (if n == 1 { Seq::<char>::empty() } else { "s"@ })
        + ". Do you want to include "@ + (if n == 1 { "it"@ } else { "them"@ }) + " in the forwarded message?"@
}

/// The question asked before forwarding a message with `count` attachments.
pub fn attachments_prompt(count: usize) -> (r: String)
    ensures
        r@ == attachments_question(count as nat),
{
    let mut v: Vec<char> = Vec::new();
    extend_str(&mut v, "This message has ");
    let d = crate::text::decimal_exec(count as u64);
    extend_chars(&mut v, &d);
    extend_str(&mut v, " attachment");
    if count != 1 {
        extend_str(&mut v, "s");
    }
    proof {
        reveal_strlit("");
    }
    extend_str(&mut v, ". Do you want to include ");
    if count == 1 {
        extend_str(&mut v, "it");
    } else {
        extend_str(&mut v, "them");
    }
    extend_str(&mut v, " in the forwarded message?");
    proof {
        assert(v@ =~= attachments_question(count as nat));
    }
    string_of(&v)
}

// ───────────────────────── drafts ─────────────────────────

/// The sender name put on a draft: the user's real name, unless the system
/// does not know it (empty or `Unknown`).
pub open spec fn draft_sender_name(real_name: Seq<char>) -> Option<Seq<char>> {
    if real_name.len() == 0 || real_name == "Unknown"@ {
        None
    } else {
        Some(real_name)
    }
}

/// The message auto-saved as a draft: from the account's address, with the
/// subject and the body as text; a draft without recipients is addressed to
/// the sender (the message builder needs one).
pub fn draft_message(email: &str, subject: &str, real_name: &str, to_list: &[String], cc_list: &[String], body: &str) -> (r: OutgoingMessage)
    ensures
        r.from@ == email@,
        r.subject@ == subject@,
        opt_view(r.from_name) == draft_sender_name(real_name@),
        to_list@.len() == 0 && cc_list@.len() == 0 ==> strings(r.to@) == seq![email@] && r.cc@.len() == 0,
        to_list@.len() > 0 || cc_list@.len() > 0 ==> strings(r.to@) == strings(to_list@) && strings(r.cc@) == strings(cc_list@),
        r.bcc@.len() == 0,
        opt_view(r.text_body) == Some(body@),
        r.html_body is None,
        r.attachments@.len() == 0,
{
    let mut msg = OutgoingMessage::new(email, subject);
    let rc = chars_of(real_name);
    if !(rc.len() == 0 || eq_str(&rc, "Unknown")) {
        msg = msg.from_name(real_name);
    }
    if to_list.len() == 0 && cc_list.len() == 0 {
        msg = msg.to(email);
        proof {
            assert(strings(msg.to@) =~= seq![email@]);
        }
    } else {
        let mut i: usize = 0;
        while i < to_list.len()
            invariant
                i <= to_list@.len(),
                strings(msg.to@) == strings(to_list@).take(i as int),
                msg.cc@.len() == 0,
                msg.bcc@.len() == 0,
                msg.from@ == email@,
                msg.subject@ == subject@,
                opt_view(msg.from_name) == draft_sender_name(real_name@),
                msg.text_body is None,
                msg.html_body is None,
                msg.attachments@.len() == 0,
            decreases to_list@.len() - i,
        {
            let ghost before = msg.to@;
            msg = msg.to(to_list[i].as_str());
            proof {
                assert(msg.to@ =~= before.push(msg.to@.last()));
                assert(strings(msg.to@) =~= strings(before).push(to_list@[i as int]@));
                assert(strings(to_list@).take(i + 1) =~= strings(to_list@).take(i as int).push(to_list@[i as int]@));
            }
            i += 1;
        }
        let mut j: usize = 0;
        while j < cc_list.len()
            invariant
                j <= cc_list@.len(),
                strings(msg.to@) == strings(to_list@).take(to_list@.len() as int),
                strings(msg.cc@) == strings(cc_list@).take(j as int),
                msg.bcc@.len() == 0,
                msg.from@ == email@,
                msg.subject@ == subject@,
                opt_view(msg.from_name) == draft_sender_name(real_name@),
                msg.text_body is None,
                msg.html_body is None,
                msg.attachments@.len() == 0,
            decreases cc_list@.len() - j,
        {
            let ghost before = msg.cc@;
            msg = msg.cc(cc_list[j].as_str());
            proof {
                assert(msg.cc@ =~= before.push(msg.cc@.last()));
                assert(strings(msg.cc@) =~= strings(before).push(cc_list@[j as int]@));
                assert(strings(cc_list@).take(j + 1) =~= strings(cc_list@).take(j as int).push(cc_list@[j as int]@));
            }
            j += 1;
        }
        proof {
            assert(strings(to_list@).take(to_list@.len() as int) =~= strings(to_list@));
            assert(strings(cc_list@).take(j as int) =~= strings(cc_list@));
        }
    }
    msg.text(body)
}

// ───────────────────────── the message header ─────────────────────────

/// What the header of an opened message shows.
pub struct HeaderView {
    pub star_icon: &'static str,
    pub star_tooltip: &'static str,
    pub read_icon: &'static str,
    pub read_tooltip: &'static str,
    /// The sender's address and the name shown for it.
    pub from_email: String,
    pub display_name: String,
    /// The avatar's initials and colour.
    pub initials: String,
    pub color_index: usize,
    /// The recipients line.
    pub to_display: String,
    /// A Cc line is shown.
    pub show_cc: bool,
    /// The Edit button of a draft is shown (and comes first).
    pub show_edit: bool,
}

/// The vCard 3.0 record that adds a sender to the address book.
pub open spec fn vcard_text(name: Seq<char>, email: Seq<char>) -> Seq<char> {
    "BEGIN:VCARD\r\nVERSION:3.0\r\nFN:"@ + name + "\r\nEMAIL:"@ + email + "\r\nEND:VCARD"@
}

/// The vCard for a contact with this name and address.
pub fn contact_vcard(name: &str, email: &str) -> (r: String)
    ensures
        r@ == vcard_text(name@, email@),
{
    let mut v: Vec<char> = Vec::new();
    extend_str(&mut v, "BEGIN:VCARD\r\nVERSION:3.0\r\nFN:");
    extend_str(&mut v, name);
    extend_str(&mut v, "\r\nEMAIL:");
    extend_str(&mut v, email);
    extend_str(&mut v, "\r\nEND:VCARD");
    string_of(&v)
}

/// What the header of an opened message shows (`is_drafts`: the Drafts
/// folder is open).
pub fn header_view(msg: &MessageInfo, is_drafts: bool) -> (r: HeaderView)
    requires
        brackets_in_order(msg.from@),
    ensures
        r.star_icon@ == if msg.is_starred { "starred-symbolic"@ } else { "non-starred-symbolic"@ },
        r.star_tooltip@ == if msg.is_starred { "Unstar"@ } else { "Star"@ },
        r.read_icon@ == if msg.is_read { "mail-read-symbolic"@ } else { "mail-unread-symbolic"@ },
        r.read_tooltip@ == if msg.is_read { "Mark as Unread"@ } else { "Mark as Read"@ },
        r.from_email@ == sender_address(msg.from_address@, msg.from@),
        r.display_name@ == display_name_of(msg.from@, sender_address(msg.from_address@, msg.from@)),
        r.initials@ == initials_of(window_initials_source(msg.from@, sender_address(msg.from_address@, msg.from@))),
        r.color_index == color_index(sender_address(msg.from_address@, msg.from@)),
        r.to_display@ == if msg.to@.len() == 0 { "(sync to update)"@ } else { msg.to@ },
        r.show_cc == (msg.cc@.len() > 0),
        r.show_edit == is_drafts,
{
    let from_email = sender_email(msg.from_address.as_str(), msg.from.as_str());
    let display_name = sender_display_name(msg.from.as_str(), from_email.as_str());
    let initials = get_initials(msg.from.as_str(), from_email.as_str());
    let color_index = avatar_color_index(from_email.as_str());
    HeaderView {
        star_icon: if msg.is_starred { "starred-symbolic" } else { "non-starred-symbolic" },
        star_tooltip: if msg.is_starred { "Unstar" } else { "Star" },
        read_icon: if msg.is_read { "mail-read-symbolic" } else { "mail-unread-symbolic" },
        read_tooltip: if msg.is_read { "Mark as Unread" } else { "Mark as Read" },
        from_email,
        display_name,
        initials,
        color_index,
        to_display: if msg.to.as_str().is_empty() { "(sync to update)".to_string() } else { msg.to.clone() },
        show_cc: !msg.cc.as_str().is_empty(),
        show_edit: is_drafts,
    }
}

/// The text shown for a message body without an HTML view: the plain text,
/// else the HTML made plain, else nothing (the view says there is no content).
pub fn body_display_text(text_body: &Option<String>, html_body: &Option<String>) -> (r: Option<String>)
    requires
        text_body is None && html_body is Some ==> crate::html_text::html_display_text(
            html_body.unwrap()@,
            crate::html_text::lower_bytes(html_body.unwrap()@),
        ) is Some,
    ensures
        match (text_body, html_body) {
            (Some(t), _) => r matches Some(x) && x@ == t@,
            (None, Some(h)) => r matches Some(x) && Some(x@) == crate::html_text::html_display_text(
                h@,
                crate::html_text::lower_bytes(h@),
            ),
            (None, None) => r is None,
        },
{
    match text_body {
        Some(t) => Some(t.clone()),
        None => match html_body {
            Some(h) => Some(crate::html_text::strip_html_for_display(h.as_str())),
            None => None,
        },
    }
}

/// `body_display_text` where the HTML body can be read, `None` where it
/// cannot (see `strip_html_checked`).
pub fn body_display_text_checked(text_body: &Option<String>, html_body: &Option<String>) -> (r: Option<Option<String>>)
    ensures
        match (text_body, html_body) {
            (None, Some(h)) => match crate::html_text::html_display_text(h@, crate::html_text::lower_bytes(h@)) {
                Some(t) => r matches Some(Some(x)) && x@ == t,
                None => r is None,
            },
            (Some(t), _) => r matches Some(Some(x)) && x@ == t@,
            (None, None) => r matches Some(None),
        },
{
    if text_body.is_none() {
        if let Some(h) = html_body {
            if crate::html_text::strip_html_checked(h.as_str()).is_none() {
                return None;
            }
        }
    }
    Some(body_display_text(text_body, html_body))
}

// ───────────────────────── lists in the editor ─────────────────────────

/// The line is a bullet item.
pub open spec fn is_bullet_line(l: Seq<char>) -> bool {
    has_prefix(l, "• "@)
}

/// The line looks like a numbered item: it starts with a digit and holds `. `.
pub open spec fn is_numbered_line(l: Seq<char>) -> bool {
    l.len() > 0 && is_digit(l[0]) && contains(l, ". "@)
}

/// How many characters the editor removes to drop a line's number: as many
/// as the byte offset of the first `. `, plus two.
pub open spec fn number_cut(l: Seq<char>) -> int {
    match find(l, ". "@) {
        Some(i) => byte_len(l.take(i)) as int + 2,
        None => 0,
    }
}

/// Dropping the number stays within the line.
pub open spec fn number_cut_ok(l: Seq<char>) -> bool {
    number_cut(l) <= l.len()
}

/// The line after the bullet button: a bullet is removed; any other line
/// with text loses a leading number and gets a bullet.
pub open spec fn bullet_toggled(l: Seq<char>) -> Seq<char> {
    if is_bullet_line(l) {
        l.skip(2)
    } else if trim(l).len() > 0 {
        "• "@ + (if l.len() > 0 && is_digit(l[0]) && find(l, ". "@) is Some { l.skip(number_cut(l)) } else { l })
    } else {
        l
    }
}

/// The lines after the numbered-list button, numbering from `num`: when the
/// first line was numbered, every line loses its number; otherwise each
/// line with text loses a bullet and gets the next number.
pub open spec fn numbered_from(ls: Seq<Seq<char>>, numbered: bool, num: nat) -> Seq<Seq<char>>
    decreases ls.len(),
{
    if ls.len() == 0 {
        Seq::empty()
    } else {
        let l = ls[0];
        if numbered {
            seq![if find(l, ". "@) is Some { l.skip(number_cut(l)) } else { l }] + numbered_from(ls.drop_first(), numbered, num)
        } else if trim(l).len() > 0 {
            let rest = if is_bullet_line(l) { l.skip(2) } else { l };
            seq![decimal(num) + ". "@ + rest] + numbered_from(ls.drop_first(), numbered, num + 1)
        } else {
            seq![l] + numbered_from(ls.drop_first(), numbered, num)
        }
    }
}

/// Whether the cursor's line is a bullet item and whether it is a numbered one.
pub fn line_list_state(line: &str) -> (r: (bool, bool))
    ensures
        r == (is_bullet_line(line@), is_numbered_line(line@)),
{
    let c = chars_of(line);
    let bullet = starts_with_str(&c, "• ");
    let numbered = c.len() > 0 && '0' <= c[0] && c[0] <= '9' && crate::text::contains_str(&c, ". ");
    (bullet, numbered)
}

fn drop_number(c: &Vec<char>) -> (r: Vec<char>)
    requires
        number_cut_ok(c@),
    ensures
        r@ == if find(c@, ". "@) is Some { c@.skip(number_cut(c@)) } else { c@ },
{
    let mut pat: Vec<char> = Vec::new();
    extend_str(&mut pat, ". ");
    assert(pat@ =~= ". "@);
    match find_exec(c, &pat) {
        Some(i) => {
            proof {
                crate::text::lemma_find_contains(c@, ". "@);
                crate::text::lemma_find_from(c@, ". "@, 0);
            }
            let prefix = slice_of(c, 0, i);
            proof {
                assert(prefix@ =~= c@.take(i as int));
                assert(number_cut(c@) == byte_len(prefix@) + 2);
            }
            let n0 = c.len();
            assert(byte_len(prefix@) + 2 <= n0);
            let b = byte_len_of(&prefix);
            proof {
                assert(c@.subrange(0, i as int) =~= c@.take(i as int));
            }
            let n = c.len();
            let r = slice_of(c, b + 2, n);
            proof {
                assert(c@.subrange(b + 2, n as int) =~= c@.skip(b + 2));
            }
            r
        },
        None => {
            let mut r: Vec<char> = Vec::new();
            extend_chars(&mut r, c);
            r
        },
    }
}

/// The UTF-8 length of a text no longer than its character count allows.
fn byte_len_of(s: &[char]) -> (r: usize)
    requires
        byte_len(s@) <= usize::MAX,
    ensures
        r == byte_len(s@),
{
    let mut sum: usize = 0;
    let mut i: usize = 0;
    while i < s.len()
        invariant
            i <= s@.len(),
            sum == byte_len(s@.take(i as int)),
            byte_len(s@) <= usize::MAX,
        decreases s@.len() - i,
    {
        proof {
            assert(s@.take(i + 1).drop_last() =~= s@.take(i as int));
            lemma_byte_len_take(s@, i + 1);
        }
        sum = sum + utf8_len_exec(s[i]);
        i += 1;
    }
    proof {
        assert(s@.take(i as int) =~= s@);
    }
    sum
}

proof fn lemma_byte_len_take(s: Seq<char>, k: int)
    requires
        0 <= k <= s.len(),
    ensures
        byte_len(s.take(k)) <= byte_len(s),
    decreases s.len() - k,
{
    if k < s.len() {
        lemma_byte_len_take(s, k + 1);
        assert(s.take(k + 1).drop_last() =~= s.take(k));
    } else {
        assert(s.take(k) =~= s);
    }
}

/// Every line holds its number within itself.
pub open spec fn lines_cut_ok(ls: Seq<Seq<char>>) -> bool {
    forall|k: int| 0 <= k < ls.len() ==> number_cut_ok(#[trigger] ls[k])
}

/// The bullet button on the selected lines.
pub fn toggle_bullets(lines: &[String]) -> (r: Vec<String>)
    requires
        lines_cut_ok(strings(lines@)),
    ensures
        strings(r@) == strings(lines@).map_values(|l: Seq<char>| bullet_toggled(l)),
{
    let mut r: Vec<String> = Vec::new();
    let mut k: usize = 0;
    while k < lines.len()
        invariant
            k <= lines@.len(),
            lines_cut_ok(strings(lines@)),
            strings(r@) == strings(lines@).take(k as int).map_values(|l: Seq<char>| bullet_toggled(l)),
        decreases lines@.len() - k,
    {
        let c = chars_of(lines[k].as_str());
        proof {
            assert(strings(lines@)[k as int] == c@);
        }
        let out: Vec<char> = if starts_with_str(&c, "• ") {
            proof {
                reveal_strlit("• ");
            }
            let n = c.len();
            let t = slice_of(&c, 2, n);
            proof {
                assert(c@.subrange(2, n as int) =~= c@.skip(2));
            }
            t
        } else {
            let t = trim_exec(&c);
            if t.len() > 0 {
                let mut v: Vec<char> = Vec::new();
                extend_str(&mut v, "• ");
                if c.len() > 0 && '0' <= c[0] && c[0] <= '9' {
                    let d = drop_number(&c);
                    extend_chars(&mut v, &d);
                } else {
                    extend_chars(&mut v, &c);
                }
                v
            } else {
                let mut v: Vec<char> = Vec::new();
                extend_chars(&mut v, &c);
                v
            }
        };
        proof {
            assert(out@ == bullet_toggled(c@));
        }
        let ghost before = r@;
        r.push(string_of(&out));
        proof {
            assert(strings(r@) =~= strings(before).push(bullet_toggled(c@)));
            assert(strings(lines@).take(k + 1).map_values(|l: Seq<char>| bullet_toggled(l)) =~= strings(lines@).take(k as int).map_values(
                |l: Seq<char>| bullet_toggled(l)).push(bullet_toggled(c@)));
        }
        k += 1;
    }
    proof {
        assert(strings(lines@).take(k as int) =~= strings(lines@));
    }
    r
}

/// The numbered-list button on the selected lines (the first decides
/// whether numbers are removed or added).
pub fn toggle_numbers(lines: &[String]) -> (r: Vec<String>)
    requires
        lines_cut_ok(strings(lines@)),
        lines@.len() < u32::MAX,
    ensures
        strings(r@) == numbered_from(strings(lines@), lines@.len() > 0 && is_numbered_line(lines@[0]@), 1),
{
    let numbered = if lines.len() > 0 {
        let (_b, n) = line_list_state(lines[0].as_str());
        n
    } else {
        false
    };
    let ghost all = strings(lines@);
    let mut r: Vec<String> = Vec::new();
    let mut num: u32 = 1;
    let mut k: usize = 0;
    proof {
        assert(all.skip(0) =~= all);
        assert(strings(r@) + numbered_from(all.skip(0), numbered, 1) =~= numbered_from(all, numbered, 1));
    }
    while k < lines.len()
        invariant
            all == strings(lines@),
            lines@.len() < u32::MAX,
            lines_cut_ok(all),
            k <= lines@.len(),
            1 <= num <= k + 1,
            strings(r@) + numbered_from(all.skip(k as int), numbered, num as nat) == numbered_from(all, numbered, 1),
        decreases lines@.len() - k,
    {
        let c = chars_of(lines[k].as_str());
        proof {
            assert(all[k as int] == c@);
            assert(all.skip(k as int)[0] == c@);
            assert(all.skip(k as int).drop_first() =~= all.skip(k + 1));
        }
        let ghost before = r@;
        let ghost old_num = num;
        if numbered {
            let d = drop_number(&c);
            r.push(string_of(&d));
        } else {
            let t = trim_exec(&c);
            if t.len() > 0 {
                let rest: Vec<char> = if starts_with_str(&c, "• ") {
                    proof {
                        reveal_strlit("• ");
                    }
                    let n = c.len();
                    let x = slice_of(&c, 2, n);
                    proof {
                        assert(c@.subrange(2, n as int) =~= c@.skip(2));
                    }
                    x
                } else {
                    let mut x: Vec<char> = Vec::new();
                    extend_chars(&mut x, &c);
                    x
                };
                let mut v = decimal_exec(num as u64);
                extend_str(&mut v, ". ");
                extend_chars(&mut v, &rest);
                r.push(string_of(&v));
                num = num + 1;
            } else {
                let mut v: Vec<char> = Vec::new();
                extend_chars(&mut v, &c);
                r.push(string_of(&v));
            }
        }
        proof {
            let tail = numbered_from(all.skip(k as int), numbered, old_num as nat);
            assert(strings(r@) =~= strings(before).push(r@.last()@));
            assert(tail == seq![r@.last()@] + numbered_from(all.skip(k + 1), numbered, num as nat));
            assert(strings(before) + tail =~= strings(r@) + numbered_from(all.skip(k + 1), numbered, num as nat));
        }
        k += 1;
    }
    proof {
        assert(all.skip(k as int) =~= Seq::<Seq<char>>::empty());
        assert(strings(r@) + Seq::<Seq<char>>::empty() =~= strings(r@));
    }
    r
}

} // verus!
