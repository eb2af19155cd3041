//! Parsing of the `ENVELOPE` structure of a FETCH response: its top-level
//! parts, and the address lists inside them.
use vstd::prelude::*;

use crate::message::{EmailAddress, Envelope};
use crate::text::{chars_of, eq_str, extend_chars, find_char, is_ws, is_ws_exec, slice_of, string_of};

verus! {

// ───────────────────────── scanning specifications ─────────────────────────

/// The first index at or after `i` that is past the end or not whitespace.
pub open spec fn skip_ws_at(s: Seq<char>, i: int) -> int
    decreases s.len() - i,
{
    if 0 <= i < s.len() && is_ws(s[i]) {
        skip_ws_at(s, i + 1)
    } else {
        i
    }
}

/// The unescaped text of a quoted string whose content starts at `i`, and the
/// index of its closing quote (or the end): `\x` stands for `x`.
pub open spec fn quoted_value(s: Seq<char>, i: int) -> (Seq<char>, int)
    decreases s.len() - i,
{
    if i < 0 || i >= s.len() || s[i] == '"' {
        (Seq::empty(), i)
    } else if s[i] == '\\' && i + 1 < s.len() {
        let r = quoted_value(s, i + 2);
        (seq![s[i + 1]] + r.0, r.1)
    } else {
        let r = quoted_value(s, i + 1);
        (seq![s[i]] + r.0, r.1)
    }
}

/// Where a nested parenthesised structure whose content starts at `i` ends
/// (just past its closing parenthesis); quoted strings inside are skipped.
/// Past the end of `s` when a quoted string inside is not closed.
pub open spec fn paren_end(s: Seq<char>, i: int, depth: nat) -> int
    decreases s.len() + 2 - i,
{
    if i < 0 || i >= s.len() || depth == 0 {
        i
    } else if s[i] == '(' {
        paren_end(s, i + 1, depth + 1)
    } else if s[i] == ')' {
        paren_end(s, i + 1, (depth - 1) as nat)
    } else if s[i] == '"' {
        let q = quoted_value(s, i + 1).1;
        if q < i + 1 || q > s.len() {
            i
        } else {
            paren_end(s, q + 1, depth)
        }
    } else {
        paren_end(s, i + 1, depth)
    }
}

/// The top-level parts of an envelope from index `i`: quoted strings
/// (unescaped), parenthesised structures (as written) and `NIL`; a `)` ends it.
pub open spec fn envelope_parts_from(s: Seq<char>, i: int) -> Seq<Seq<char>>
    decreases s.len() + 2 - i,
{
    let j = skip_ws_at(s, i);
    if i < 0 || j < i || j >= s.len() {
        Seq::empty()
    } else if s[j] == '"' {
        let q = quoted_value(s, j + 1);
        if q.1 < j + 1 || q.1 > s.len() {
            Seq::empty()
        } else {
            seq![q.0] + envelope_parts_from(s, q.1 + 1)
        }
    } else if s[j] == '(' {
        let e = paren_end(s, j + 1, 1);
        if e < j + 1 || e > s.len() + 1 {
            Seq::empty()
        } else {
            seq![s.subrange(j, e)] + envelope_parts_from(s, e)
        }
    } else if s[j] == 'N' && j + 2 < s.len() {
        if s.subrange(j, j + 3) == "NIL"@ {
            seq!["NIL"@] + envelope_parts_from(s, j + 3)
        } else {
            envelope_parts_from(s, j + 1)
        }
    } else if s[j] == ')' {
        Seq::empty()
    } else {
        envelope_parts_from(s, j + 1)
    }
}

/// Every parenthesised part is closed before the text ends, so its text can be taken.
pub open spec fn envelope_ok_from(s: Seq<char>, i: int) -> bool
    decreases s.len() + 2 - i,
{
    let j = skip_ws_at(s, i);
    if i < 0 || j < i || j >= s.len() {
        true
    } else if s[j] == '"' {
        let q = quoted_value(s, j + 1);
        if q.1 < j + 1 || q.1 > s.len() {
            true
        } else {
            envelope_ok_from(s, q.1 + 1)
        }
    } else if s[j] == '(' {
        let e = paren_end(s, j + 1, 1);
        if e < j + 1 || e > s.len() + 1 {
            true
        } else {
            e <= s.len() && envelope_ok_from(s, e)
        }
    } else if s[j] == 'N' && j + 2 < s.len() {
        if s.subrange(j, j + 3) == "NIL"@ {
            envelope_ok_from(s, j + 3)
        } else {
            envelope_ok_from(s, j + 1)
        }
    } else if s[j] == ')' {
        true
    } else {
        envelope_ok_from(s, j + 1)
    }
}

// ───────────────────────── scanning lemmas ─────────────────────────

proof fn lemma_skip_ws_at(s: Seq<char>, i: int)
    requires
        0 <= i,
    ensures
        i <= skip_ws_at(s, i),
        i <= s.len() ==> skip_ws_at(s, i) <= s.len(),
        skip_ws_at(s, i) < s.len() ==> !is_ws(s[skip_ws_at(s, i)]),
    decreases s.len() - i,
{
    if 0 <= i < s.len() && is_ws(s[i]) {
        lemma_skip_ws_at(s, i + 1);
    }
}

proof fn lemma_quoted_value(s: Seq<char>, i: int)
    requires
        0 <= i <= s.len(),
    ensures
        i <= quoted_value(s, i).1 <= s.len(),
    decreases s.len() - i,
{
    if i >= s.len() || s[i] == '"' {
    } else if s[i] == '\\' && i + 1 < s.len() {
        lemma_quoted_value(s, i + 2);
    } else {
        lemma_quoted_value(s, i + 1);
    }
}

proof fn lemma_paren_end(s: Seq<char>, i: int, depth: nat)
    requires
        0 <= i <= s.len() + 1,
    ensures
        i <= paren_end(s, i, depth) <= s.len() + 1,
    decreases s.len() + 2 - i,
{
    if i < 0 || i >= s.len() || depth == 0 {
    } else if s[i] == '(' {
        lemma_paren_end(s, i + 1, depth + 1);
    } else if s[i] == ')' {
        lemma_paren_end(s, i + 1, (depth - 1) as nat);
    } else if s[i] == '"' {
        lemma_quoted_value(s, i + 1);
        lemma_paren_end(s, quoted_value(s, i + 1).1 + 1, depth);
    } else {
        lemma_paren_end(s, i + 1, depth);
    }
}

// ───────────────────────── scanning code ─────────────────────────

/// Executable `skip_ws_at`.
fn skip_ws_at_exec(s: &[char], i: usize) -> (r: usize)
    requires
        i <= s@.len(),
    ensures
        r == skip_ws_at(s@, i as int),
        i <= r <= s@.len(),
{
    let mut j = i;
    while j < s.len() && is_ws_exec(s[j])
        invariant
            i <= j <= s@.len(),
            skip_ws_at(s@, i as int) == skip_ws_at(s@, j as int),
        decreases s@.len() - j,
    {
        j += 1;
    }
    j
}

/// Executable `quoted_value`.
fn quoted_value_exec(s: &[char], i: usize) -> (r: (Vec<char>, usize))
    requires
        i <= s@.len(),
    ensures
        r.0@ == quoted_value(s@, i as int).0,
        r.1 == quoted_value(s@, i as int).1,
        i <= r.1 <= s@.len(),
{
    proof {
        lemma_quoted_value(s@, i as int);
    }
    let mut value: Vec<char> = Vec::new();
    let mut j = i;
    assert(quoted_value(s@, i as int).0 =~= value@ + quoted_value(s@, i as int).0);
    while j < s.len() && s[j] != '"'
        invariant
            i <= j <= s@.len(),
            quoted_value(s@, i as int).0 == value@ + quoted_value(s@, j as int).0,
            quoted_value(s@, i as int).1 == quoted_value(s@, j as int).1,
        decreases s@.len() - j,
    {
        let ghost before = value@;
        if s[j] == '\\' && s.len() - j > 1 {
            let x = s[j + 1];
            value.push(x);
            assert(before + quoted_value(s@, j as int).0 =~= value@ + quoted_value(s@, j + 2).0);
            j += 2;
        } else {
            let x = s[j];
            value.push(x);
            assert(before + quoted_value(s@, j as int).0 =~= value@ + quoted_value(s@, j + 1).0);
            j += 1;
        }
    }
    (value, j)
}

/// Executable `paren_end` from depth one; `None` when the end lies past the text.
fn paren_end_exec(s: &[char], i: usize) -> (r: Option<usize>)
    requires
        1 <= i <= s@.len(),
    ensures
        match r {
            Some(e) => e == paren_end(s@, i as int, 1) && e <= s@.len(),
            None => paren_end(s@, i as int, 1) > s@.len(),
        },
{
    let mut j = i;
    let mut depth: usize = 1;
    while j < s.len() && depth > 0
        invariant
            i <= j <= s@.len(),
            1 <= i,
            depth <= j + 1 - i,
            paren_end(s@, i as int, 1) == paren_end(s@, j as int, depth as nat),
        decreases s@.len() + 2 - j,
    {
        let c = s[j];
        if c == '(' {
            depth += 1;
        } else if c == ')' {
            depth -= 1;
        } else if c == '"' {
            let (_, q) = quoted_value_exec(s, j + 1);
            if q >= s.len() {
                assert(paren_end(s@, j as int, depth as nat) == paren_end(s@, q + 1, depth as nat));
                assert(paren_end(s@, q + 1, depth as nat) == q + 1);
                return None;
            }
            j = q;
        }
        j += 1;
    }
    Some(j)
}

/// Whether the envelope text can be split into parts (executable `envelope_ok_from(s, 0)`).
pub fn envelope_ok(s: &str) -> (r: bool)
    ensures
        r == envelope_ok_from(s@, 0),
{
    let c = chars_of(s);
    let mut i: usize = 0;
    loop
        invariant
            c@ == s@,
            i <= c@.len() + 1,
            envelope_ok_from(c@, 0) == envelope_ok_from(c@, i as int),
        decreases c@.len() + 2 - i,
    {
        if i > c.len() {
            return true;
        }
        let j = skip_ws_at_exec(&c, i);
        if j >= c.len() {
            assert(envelope_ok_from(c@, i as int));
            return true;
        }
        let ch = c[j];
        if ch == '"' {
            let (_, q) = quoted_value_exec(&c, j + 1);
            if q >= c.len() {
                assert(envelope_ok_from(c@, q + 1));
                return true;
            }
            i = q + 1;
        } else if ch == '(' {
            proof {
                lemma_paren_end(c@, j + 1, 1);
            }
            match paren_end_exec(&c, j + 1) {
                Some(e) => {
                    i = e;
                },
                None => {
                    return false;
                },
            }
        } else if ch == 'N' && c.len() - j > 2 {
            let w = slice_of(&c, j, j + 3);
            if eq_str(&w, "NIL") {
                i = j + 3;
            } else {
                i = j + 1;
            }
        } else if ch == ')' {
            return true;
        } else {
            i = j + 1;
        }
    }
}

/// Parse envelope parts, handling quoted strings, NIL, and nested parentheses
pub fn parse_envelope_parts(s: &str) -> (r: Vec<String>)
    requires
        envelope_ok_from(s@, 0),
    ensures
        crate::folder::string_views(r@) == envelope_parts_from(s@, 0),
{
    let c = chars_of(s);
    let mut parts: Vec<String> = Vec::new();
    let mut i: usize = 0;
    loop
        invariant
            c@ == s@,
            i <= c@.len() + 1,
            envelope_ok_from(c@, i as int),
            envelope_parts_from(c@, 0) == crate::folder::string_views(parts@) + envelope_parts_from(
                c@,
                i as int,
            ),
        decreases c@.len() + 2 - i,
    {
        if i > c.len() {
            assert(envelope_parts_from(c@, i as int) =~= Seq::<Seq<char>>::empty());
            return parts;
        }
        let j = skip_ws_at_exec(&c, i);
        if j >= c.len() {
            assert(envelope_parts_from(c@, i as int) =~= Seq::<Seq<char>>::empty());
            return parts;
        }
        let ghost before = crate::folder::string_views(parts@);
        let ch = c[j];
        if ch == '"' {
            let (v, q) = quoted_value_exec(&c, j + 1);
            parts.push(string_of(&v));
            assert(crate::folder::string_views(parts@) =~= before.push(v@));
            if q >= c.len() {
                assert(envelope_parts_from(c@, q + 1) =~= Seq::<Seq<char>>::empty());
                assert(envelope_parts_from(c@, 0) =~= crate::folder::string_views(parts@));
                return parts;
            }
            i = q + 1;
        } else if ch == '(' {
            proof {
                lemma_paren_end(c@, j + 1, 1);
            }
            let e = match paren_end_exec(&c, j + 1) {
                Some(e) => e,
                None => {
                    return parts;
                },
            };
            let v = slice_of(&c, j, e);
            parts.push(string_of(&v));
            assert(crate::folder::string_views(parts@) =~= before.push(v@));
            i = e;
        } else if ch == 'N' && c.len() - j > 2 {
            let w = slice_of(&c, j, j + 3);
            if eq_str(&w, "NIL") {
                parts.push(String::from_str("NIL"));
                assert(crate::folder::string_views(parts@) =~= before.push("NIL"@));
                i = j + 3;
            } else {
                i = j + 1;
            }
        } else if ch == ')' {
            assert(envelope_parts_from(c@, i as int) =~= Seq::<Seq<char>>::empty());
            return parts;
        } else {
            i = j + 1;
        }
    }
}

// ───────────────────────── address lists ─────────────────────────

/// The first index at or after `i` holding whitespace or `)`, or the end.
pub open spec fn token_end(s: Seq<char>, i: int) -> int
    decreases s.len() - i,
{
    if 0 <= i < s.len() && !is_ws(s[i]) && s[i] != ')' {
        token_end(s, i + 1)
    } else {
        i
    }
}

/// The first index at or after `i` holding `)`, or the end.
pub open spec fn close_paren_at(s: Seq<char>, i: int) -> int
    decreases s.len() - i,
{
    if 0 <= i < s.len() && s[i] != ')' {
        close_paren_at(s, i + 1)
    } else {
        i
    }
}

/// Up to `k` fields of one address from index `i`: quoted strings (unescaped)
/// and `NIL` (as an empty field); an unknown token is skipped without a field.
/// Also the index where reading stopped.
pub open spec fn address_fields(s: Seq<char>, i: int, k: nat) -> (Seq<Seq<char>>, int)
    decreases k,
{
    if k == 0 {
        (Seq::empty(), i)
    } else {
        let j = skip_ws_at(s, i);
        if j < 0 || j >= s.len() {
            (Seq::empty(), j)
        } else if s[j] == '"' {
            let q = quoted_value(s, j + 1);
            let r = address_fields(s, q.1 + 1, (k - 1) as nat);
            (seq![q.0] + r.0, r.1)
        } else if j + 2 < s.len() {
            if s.subrange(j, j + 3) == "NIL"@ {
                let r = address_fields(s, j + 3, (k - 1) as nat);
                (seq![Seq::<char>::empty()] + r.0, r.1)
            } else {
                address_fields(s, token_end(s, j), (k - 1) as nat)
            }
        } else {
            (Seq::empty(), j)
        }
    }
}

/// The address named by `(name route mailbox host)` fields: `mailbox@host`, or
/// the mailbox alone when there is no host; none without a mailbox.
pub open spec fn address_from_fields(f: Seq<Seq<char>>) -> Option<(Option<Seq<char>>, Seq<char>)> {
    if f.len() >= 4 {
        let name = if f[0].len() == 0 {
            None
        } else {
            Some(f[0])
        };
        if f[2].len() > 0 && f[3].len() > 0 {
            Some((name, f[2] + "@"@ + f[3]))
        } else if f[2].len() > 0 {
            Some((name, f[2]))
        } else {
            None
        }
    } else {
        None
    }
}

/// The addresses of a list from index `i`, up to the list's closing `)`.
pub open spec fn addresses_from(s: Seq<char>, i: int) -> Seq<(Option<Seq<char>>, Seq<char>)>
    decreases s.len() + 3 - i,
{
    let j = skip_ws_at(s, i);
    if i < 0 || j < i || j >= s.len() || s[j] == ')' {
        Seq::empty()
    } else if s[j] == '(' {
        let f = address_fields(s, j + 1, 4);
        let c = close_paren_at(s, f.1);
        let rest = if j < c + 1 <= s.len() + 2 {
            addresses_from(s, c + 1)
        } else {
            Seq::empty()
        };
        match address_from_fields(f.0) {
            Some(a) => seq![a] + rest,
            None => rest,
        }
    } else {
        addresses_from(s, j + 1)
    }
}

/// The addresses of an envelope address list `((name route mailbox host) ...)`;
/// none for `NIL`, empty text, a text without `(`, or a list without any address.
pub open spec fn address_list(s: Seq<char>) -> Option<Seq<(Option<Seq<char>>, Seq<char>)>> {
    if s == "NIL"@ || s.len() == 0 {
        None
    } else {
        match find_char(s, '(') {
            None => None,
            Some(p) => {
                let a = addresses_from(s, p + 1);
                if a.len() == 0 {
                    None
                } else {
                    Some(a)
                }
            },
        }
    }
}

/// The parsed addresses match the specified ones, in order.
pub open spec fn addresses_match(v: Seq<EmailAddress>, a: Seq<(Option<Seq<char>>, Seq<char>)>) -> bool {
    &&& v.len() == a.len()
    &&& forall|k: int|
        0 <= k < v.len() ==> crate::message::name_view(#[trigger] v[k].name) == a[k].0 && v[k].address@
            == a[k].1
}

proof fn lemma_token_end(s: Seq<char>, i: int)
    requires
        0 <= i <= s.len(),
    ensures
        i <= token_end(s, i) <= s.len(),
    decreases s.len() - i,
{
    if 0 <= i < s.len() && !is_ws(s[i]) && s[i] != ')' {
        lemma_token_end(s, i + 1);
    }
}

proof fn lemma_close_paren_at(s: Seq<char>, i: int)
    requires
        0 <= i,
    ensures
        i <= close_paren_at(s, i),
        i <= s.len() ==> close_paren_at(s, i) <= s.len(),
        close_paren_at(s, i) < s.len() ==> s[close_paren_at(s, i)] == ')',
    decreases s.len() - i,
{
    if 0 <= i < s.len() && s[i] != ')' {
        lemma_close_paren_at(s, i + 1);
    }
}

proof fn lemma_address_fields(s: Seq<char>, i: int, k: nat)
    requires
        0 <= i <= s.len() + 1,
    ensures
        i <= address_fields(s, i, k).1 <= s.len() + 1,
        address_fields(s, i, k).0.len() <= k,
    decreases k,
{
    if k > 0 {
        let j = skip_ws_at(s, i);
        lemma_skip_ws_at(s, i);
        if j < 0 || j >= s.len() {
        } else if s[j] == '"' {
            lemma_quoted_value(s, j + 1);
            lemma_address_fields(s, quoted_value(s, j + 1).1 + 1, (k - 1) as nat);
        } else if j + 2 < s.len() {
            if s.subrange(j, j + 3) == "NIL"@ {
                lemma_address_fields(s, j + 3, (k - 1) as nat);
            } else {
                lemma_token_end(s, j);
                lemma_address_fields(s, token_end(s, j), (k - 1) as nat);
            }
        }
    }
}

/// Executable `token_end`.
fn token_end_exec(s: &[char], i: usize) -> (r: usize)
    requires
        i <= s@.len(),
    ensures
        r == token_end(s@, i as int),
{
    let mut j = i;
    while j < s.len() && !is_ws_exec(s[j]) && s[j] != ')'
        invariant
            i <= j <= s@.len(),
            token_end(s@, i as int) == token_end(s@, j as int),
        decreases s@.len() - j,
    {
        j += 1;
    }
    j
}

/// Executable `close_paren_at`.
fn close_paren_at_exec(s: &[char], i: usize) -> (r: usize)
    requires
        i <= s@.len() + 1,
        s@.len() + 4 <= usize::MAX,
    ensures
        r == close_paren_at(s@, i as int),
{
    let mut j = i;
    while j < s.len() && s[j] != ')'
        invariant
            i <= j <= s@.len() + 1,
            close_paren_at(s@, i as int) == close_paren_at(s@, j as int),
        decreases s@.len() + 1 - j,
    {
        j += 1;
    }
    j
}

/// Executable `address_fields` for the four fields of an address.
fn address_fields_exec(s: &[char], i: usize) -> (r: (Vec<Vec<char>>, usize))
    requires
        i <= s@.len() + 1,
        s@.len() + 4 <= usize::MAX,
    ensures
        views_of(r.0@) == address_fields(s@, i as int, 4).0,
        r.1 == address_fields(s@, i as int, 4).1,
{
    let mut fields: Vec<Vec<char>> = Vec::new();
    let mut pos = i;
    let mut k: usize = 4;
    while k > 0
        invariant
            pos <= s@.len() + 1,
            s@.len() + 4 <= usize::MAX,
            address_fields(s@, i as int, 4).0 == views_of(fields@) + address_fields(s@, pos as int, k as nat).0,
            address_fields(s@, i as int, 4).1 == address_fields(s@, pos as int, k as nat).1,
        decreases k,
    {
        let ghost before = views_of(fields@);
        let j = if pos <= s.len() {
            skip_ws_at_exec(s, pos)
        } else {
            pos
        };
        if j >= s.len() {
            assert(address_fields(s@, pos as int, k as nat) == (Seq::<Seq<char>>::empty(), j as int));
            assert(views_of(fields@) + Seq::<Seq<char>>::empty() =~= views_of(fields@));
            return (fields, j);
        }
        if s[j] == '"' {
            let (v, q) = quoted_value_exec(s, j + 1);
            fields.push(v);
            assert(views_of(fields@) =~= before.push(fields@.last()@));
            assert(before + address_fields(s@, pos as int, k as nat).0 =~= views_of(fields@)
                + address_fields(s@, q + 1, (k - 1) as nat).0);
            pos = q + 1;
        } else if s.len() - j > 2 {
            let w = slice_of(s, j, j + 3);
            if eq_str(&w, "NIL") {
                fields.push(Vec::new());
                assert(views_of(fields@) =~= before.push(Seq::<char>::empty()));
                assert(before + address_fields(s@, pos as int, k as nat).0 =~= views_of(fields@)
                    + address_fields(s@, j + 3, (k - 1) as nat).0);
                pos = j + 3;
            } else {
                proof {
                    lemma_token_end(s@, j as int);
                }
                pos = token_end_exec(s, j);
            }
        } else {
            assert(address_fields(s@, pos as int, k as nat) == (Seq::<Seq<char>>::empty(), j as int));
            assert(views_of(fields@) + Seq::<Seq<char>>::empty() =~= views_of(fields@));
            return (fields, j);
        }
        k -= 1;
    }
    assert(views_of(fields@) + Seq::<Seq<char>>::empty() =~= views_of(fields@));
    (fields, pos)
}

/// The text of each character vector.
pub open spec fn views_of(v: Seq<Vec<char>>) -> Seq<Seq<char>> {
    v.map_values(|w: Vec<char>| w@)
}

/// Executable `address_from_fields`.
fn address_from_fields_exec(f: &Vec<Vec<char>>) -> (r: Option<EmailAddress>)
    ensures
        match address_from_fields(views_of(f@)) {
            None => r is None,
            Some(a) => r matches Some(e) && crate::message::name_view(e.name) == a.0 && e.address@
                == a.1,
        },
{
    if f.len() < 4 {
        return None;
    }
    let ghost fv = views_of(f@);
    assert(fv[0] == f@[0]@ && fv[2] == f@[2]@ && fv[3] == f@[3]@);
    let name = if f[0].len() == 0 {
        None
    } else {
        Some(string_of(&f[0]))
    };
    if f[2].len() > 0 && f[3].len() > 0 {
        let mut a: Vec<char> = Vec::new();
        extend_chars(&mut a, &f[2]);
        a.push('@');
        extend_chars(&mut a, &f[3]);
        proof {
            reveal_strlit("@");
        }
        assert(a@ =~= fv[2] + "@"@ + fv[3]);
        Some(EmailAddress { name, address: string_of(&a) })
    } else if f[2].len() > 0 {
        Some(EmailAddress { name, address: string_of(&f[2]) })
    } else {
        None
    }
}

/// Parse address list from envelope format: ((name route mailbox host) ...)
pub fn parse_address_list_from_envelope(s: &str) -> (r: Option<Vec<EmailAddress>>)
    requires
        s@.len() + 4 <= usize::MAX,
    ensures
        match address_list(s@) {
            None => r is None,
            Some(a) => r matches Some(v) && addresses_match(v@, a),
        },
{
    let c = chars_of(s);
    if eq_str(&c, "NIL") || c.len() == 0 {
        return None;
    }
    let p = match crate::text::find_char_exec(&c, '(') {
        Some(p) => p,
        None => return None,
    };
    proof {
        crate::text::lemma_find_from(c@, seq!['('], 0);
    }
    let mut addresses: Vec<EmailAddress> = Vec::new();
    let ghost total = addresses_from(c@, p + 1);
    let mut i = p + 1;
    loop
        invariant
            c@ == s@,
            c@.len() + 4 <= usize::MAX,
            i <= c@.len() + 2,
            addresses_match(addresses@, total.take(addresses@.len() as int)),
            addresses@.len() <= total.len(),
            total.skip(addresses@.len() as int) == addresses_from(c@, i as int),
        ensures
            addresses_from(c@, i as int).len() == 0,
        decreases c@.len() + 3 - i,
    {
        if i >= c.len() {
            assert(addresses_from(c@, i as int).len() == 0);
            break;
        }
        let j = skip_ws_at_exec(&c, i);
        if j >= c.len() || c[j] == ')' {
            assert(addresses_from(c@, i as int).len() == 0);
            break;
        }
        if c[j] == '(' {
            proof {
                lemma_address_fields(c@, j + 1, 4);
            }
            let (fields, e) = address_fields_exec(&c, j + 1);
            let cl = close_paren_at_exec(&c, e);
            proof {
                lemma_close_paren_at(c@, e as int);
            }
            let ghost rest = addresses_from(c@, cl + 1);
            let ghost n = addresses@.len() as int;
            match address_from_fields_exec(&fields) {
                Some(a) => {
                    addresses.push(a);
                    assert(total.skip(n) == seq![address_from_fields(views_of(fields@)).unwrap()] + rest);
                    assert(total.skip(n + 1) =~= total.skip(n).drop_first());
                    assert(total.take(n + 1) =~= total.take(n).push(total[n]));
                    assert(total[n] == total.skip(n)[0]);
                },
                None => {
                    assert(total.skip(n) == rest);
                },
            }
            i = cl + 1;
        } else {
            i = j + 1;
        }
    }
    assert(addresses_from(c@, i as int) =~= Seq::<(Option<Seq<char>>, Seq<char>)>::empty());
    assert(total.take(addresses@.len() as int) =~= total);
    if addresses.len() == 0 {
        None
    } else {
        Some(addresses)
    }
}

// ───────────────────────── part lengths ─────────────────────────

proof fn lemma_quoted_value_len(s: Seq<char>, i: int)
    requires
        0 <= i <= s.len(),
    ensures
        quoted_value(s, i).0.len() <= s.len() - i,
    decreases s.len() - i,
{
    if i >= s.len() || s[i] == '"' {
    } else if s[i] == '\\' && i + 1 < s.len() {
        lemma_quoted_value_len(s, i + 2);
    } else {
        lemma_quoted_value_len(s, i + 1);
    }
}

/// No envelope part is longer than the envelope text.
pub proof fn lemma_envelope_parts_len(s: Seq<char>, i: int)
    requires
        0 <= i,
        envelope_ok_from(s, i),
    ensures
        forall|k: int|
            0 <= k < envelope_parts_from(s, i).len() ==> (#[trigger] envelope_parts_from(s, i)[k]).len()
                <= s.len(),
    decreases s.len() + 2 - i,
{
    let j = skip_ws_at(s, i);
    lemma_skip_ws_at(s, i);
    let parts = envelope_parts_from(s, i);
    if i < 0 || j < i || j >= s.len() {
    } else if s[j] == '"' {
        let q = quoted_value(s, j + 1);
        if q.1 < j + 1 || q.1 > s.len() {
        } else {
            lemma_quoted_value_len(s, j + 1);
            lemma_envelope_parts_len(s, q.1 + 1);
            assert forall|k: int| 0 <= k < parts.len() implies (#[trigger] parts[k]).len() <= s.len() by {
                if k > 0 {
                    assert(parts[k] == envelope_parts_from(s, q.1 + 1)[k - 1]);
                }
            }
        }
    } else if s[j] == '(' {
        let e = paren_end(s, j + 1, 1);
        if e < j + 1 || e > s.len() + 1 {
        } else {
            lemma_envelope_parts_len(s, e);
            assert forall|k: int| 0 <= k < parts.len() implies (#[trigger] parts[k]).len() <= s.len() by {
                if k > 0 {
                    assert(parts[k] == envelope_parts_from(s, e)[k - 1]);
                }
            }
        }
    } else if s[j] == 'N' && j + 2 < s.len() {
        if s.subrange(j, j + 3) == "NIL"@ {
            lemma_envelope_parts_len(s, j + 3);
            reveal_strlit("NIL");
            assert forall|k: int| 0 <= k < parts.len() implies (#[trigger] parts[k]).len() <= s.len() by {
                if k > 0 {
                    assert(parts[k] == envelope_parts_from(s, j + 3)[k - 1]);
                }
            }
        } else {
            lemma_envelope_parts_len(s, j + 1);
            assert(parts == envelope_parts_from(s, j + 1));
        }
    } else if s[j] == ')' {
    } else {
        lemma_envelope_parts_len(s, j + 1);
        assert(parts == envelope_parts_from(s, j + 1));
    }
}

// ───────────────────────── the envelope ─────────────────────────

/// The envelope text of a FETCH line: what follows the first `ENVELOPE (`.
pub open spec fn envelope_text(line: Seq<char>) -> Option<Seq<char>> {
    match crate::text::find(line, "ENVELOPE ("@) {
        Some(st) => Some(line.skip(st + "ENVELOPE ("@.len())),
        None => None,
    }
}

/// Part `k` unless it is missing or `NIL`.
pub open spec fn optional_part(parts: Seq<Seq<char>>, k: int) -> Option<Seq<char>> {
    if 0 <= k < parts.len() && parts[k] != "NIL"@ {
        Some(parts[k])
    } else {
        None
    }
}

/// The addresses of part `k`, none when it is missing or holds no address.
pub open spec fn part_addresses(parts: Seq<Seq<char>>, k: int) -> Seq<(Option<Seq<char>>, Seq<char>)> {
    if 0 <= k < parts.len() {
        match address_list(parts[k]) {
            Some(a) => a,
            None => Seq::empty(),
        }
    } else {
        Seq::empty()
    }
}

/// The envelope the parser builds from the parts (date, subject, from, sender,
/// reply-to, to, cc, bcc, in-reply-to, message-id): date, subject, from, to,
/// cc and message-id are taken; the others stay empty.
pub open spec fn envelope_from_parts(e: Envelope, parts: Seq<Seq<char>>) -> bool {
    &&& crate::smtp::opt_view(e.date) == optional_part(parts, 0)
    &&& crate::smtp::opt_view(e.subject) == optional_part(parts, 1)
    &&& addresses_match(e.from@, part_addresses(parts, 2))
    &&& addresses_match(e.to@, part_addresses(parts, 5))
    &&& addresses_match(e.cc@, part_addresses(parts, 6))
    &&& crate::smtp::opt_view(e.message_id) == optional_part(parts, 9)
    &&& e.reply_to@.len() == 0
    &&& e.in_reply_to is None
}

/// The envelope a FETCH line carries; empty without `ENVELOPE (`.
pub open spec fn envelope_of_line(e: Envelope, line: Seq<char>) -> bool {
    match envelope_text(line) {
        None => e.is_empty(),
        Some(t) => envelope_from_parts(e, envelope_parts_from(t, 0)),
    }
}

/// The envelope text, if any, splits into parts.
pub open spec fn envelope_line_ok(line: Seq<char>) -> bool {
    match envelope_text(line) {
        None => true,
        Some(t) => envelope_ok_from(t, 0),
    }
}

/// The address list of part `k`, empty when it is missing or holds none.
fn part_addresses_exec(parts: &Vec<String>, k: usize) -> (r: Vec<EmailAddress>)
    requires
        forall|j: int| 0 <= j < parts@.len() ==> (#[trigger] parts@[j])@.len() + 4 <= usize::MAX,
    ensures
        addresses_match(r@, part_addresses(crate::folder::string_views(parts@), k as int)),
{
    if k < parts.len() {
        assert(crate::folder::string_views(parts@)[k as int] == parts@[k as int]@);
        match parse_address_list_from_envelope(parts[k].as_str()) {
            Some(v) => v,
            None => Vec::new(),
        }
    } else {
        Vec::new()
    }
}

/// Part `k` unless it is missing or `NIL`.
fn optional_part_exec(parts: &Vec<String>, k: usize) -> (r: Option<String>)
    ensures
        crate::smtp::opt_view(r) == optional_part(crate::folder::string_views(parts@), k as int),
{
    if k < parts.len() {
        assert(crate::folder::string_views(parts@)[k as int] == parts@[k as int]@);
        let c = chars_of(parts[k].as_str());
        if eq_str(&c, "NIL") {
            None
        } else {
            Some(parts[k].clone())
        }
    } else {
        None
    }
}

/// Whether the envelope of a FETCH line, if it has one, splits into parts
/// (executable `envelope_line_ok`).
pub fn envelope_line_ok_exec(line: &str) -> (r: bool)
    ensures
        r == envelope_line_ok(line@),
{
    let l = chars_of(line);
    let key = chars_of("ENVELOPE (");
    match crate::text::find_str(&l, "ENVELOPE (") {
        Some(start) => {
            proof {
                crate::text::lemma_find_from(l@, key@, 0);
            }
            let n = l.len();
            let rest = slice_of(&l, start + key.len(), n);
            let rest_s = string_of(&rest);
            assert(rest@ =~= l@.skip(start + "ENVELOPE ("@.len()));
            envelope_ok(rest_s.as_str())
        },
        None => true,
    }
}

/// Extract the envelope of a FETCH line.
pub fn extract_envelope(line: &str) -> (r: Envelope)
    requires
        envelope_line_ok(line@),
        line@.len() + 4 <= usize::MAX,
    ensures
        envelope_of_line(r, line@),
{
    let l = chars_of(line);
    let key = chars_of("ENVELOPE (");
    let mut envelope = Envelope::default();
    match crate::text::find_str(&l, "ENVELOPE (") {
        Some(start) => {
            proof {
                crate::text::lemma_find_from(l@, key@, 0);
            }
            let n = l.len();
            assert(start + key.len() <= n);
            let rest = slice_of(&l, start + key.len(), n);
            let rest_s = string_of(&rest);
            assert(rest@ =~= l@.skip(start + "ENVELOPE ("@.len()));
            let parts = parse_envelope_parts(rest_s.as_str());
            proof {
                lemma_envelope_parts_len(rest@, 0);
                assert forall|j: int| 0 <= j < parts@.len() implies (#[trigger] parts@[j])@.len() + 4
                    <= usize::MAX by {
                    assert(crate::folder::string_views(parts@)[j] == parts@[j]@);
                }
            }
            envelope.date = optional_part_exec(&parts, 0);
            envelope.subject = optional_part_exec(&parts, 1);
            envelope.from = part_addresses_exec(&parts, 2);
            envelope.to = part_addresses_exec(&parts, 5);
            envelope.cc = part_addresses_exec(&parts, 6);
            envelope.message_id = optional_part_exec(&parts, 9);
        },
        None => {},
    }
    envelope
}


// ───────────────────────── address groups ─────────────────────────

/// `t` as an IMAP quoted string.
pub open spec fn quoted_text(t: Seq<char>) -> Seq<char> {
    seq!['"'] + t + seq!['"']
}

/// Text that a quoted string carries as it stands: no quote, no backslash.
pub open spec fn quote_free(t: Seq<char>) -> bool {
    forall|k: int| 0 <= k < t.len() ==> #[trigger] t[k] != '"' && t[k] != '\\'
}

/// A field of an address group: the quoted text, or `NIL` when absent.
pub open spec fn field_text(f: Option<Seq<char>>) -> Seq<char> {
    match f {
        Some(t) => quoted_text(t),
        None => "NIL"@,
    }
}

/// A field that is absent, or non-empty text without quotes or backslashes.
pub open spec fn field_ok(f: Option<Seq<char>>) -> bool {
    f matches Some(t) ==> t.len() > 0 && quote_free(t)
}

/// The text of one address group `(name NIL mailbox host)`, each of name,
/// mailbox and host quoted, or `NIL` when absent.
pub open spec fn address_group(g: (Option<Seq<char>>, Option<Seq<char>>, Option<Seq<char>>)) -> Seq<char> {
    seq!['('] + field_text(g.0) + " NIL "@ + field_text(g.1) + seq![' '] + field_text(g.2) + seq![')']
}

/// Address groups one after the other, separated by single spaces.
pub open spec fn address_groups(gs: Seq<(Option<Seq<char>>, Option<Seq<char>>, Option<Seq<char>>)>) -> Seq<char>
    decreases gs.len(),
{
    if gs.len() == 0 {
        Seq::empty()
    } else if gs.len() == 1 {
        address_group(gs[0])
    } else {
        address_group(gs[0]) + seq![' '] + address_groups(gs.drop_first())
    }
}

/// The address a group stands for: none without a mailbox; else its name,
/// and `mailbox@host`, or the mailbox alone without a host.
pub open spec fn group_address(g: (Option<Seq<char>>, Option<Seq<char>>, Option<Seq<char>>)) -> Option<
    (Option<Seq<char>>, Seq<char>),
> {
    match g.1 {
        None => None,
        Some(m) => Some(
            (
                g.0,
                match g.2 {
                    Some(h) => m + "@"@ + h,
                    None => m,
                },
            ),
        ),
    }
}

/// The addresses of the groups that have a mailbox, in order.
pub open spec fn group_addresses(gs: Seq<(Option<Seq<char>>, Option<Seq<char>>, Option<Seq<char>>)>) -> Seq<
    (Option<Seq<char>>, Seq<char>),
>
    decreases gs.len(),
{
    if gs.len() == 0 {
        Seq::empty()
    } else {
        let here = match group_address(gs[0]) {
            Some(a) => seq![a],
            None => Seq::empty(),
        };
        here + group_addresses(gs.drop_first())
    }
}

proof fn lemma_quoted_rest(s: Seq<char>, j: int, t: Seq<char>, k: int)
    requires
        0 <= j,
        j + 1 + t.len() < s.len(),
        s.subrange(j + 1, j + 1 + t.len()) == t,
        quote_free(t),
        s[j + 1 + t.len()] == '"',
        0 <= k <= t.len(),
    ensures
        quoted_value(s, j + 1 + k) == (t.skip(k), j + 1 + t.len()),
    decreases t.len() - k,
{
    if k == t.len() {
        assert(t.skip(k) =~= Seq::<char>::empty());
    } else {
        assert(s[j + 1 + k] == t[k]);
        lemma_quoted_rest(s, j, t, k + 1);
        assert(seq![t[k]] + t.skip(k + 1) =~= t.skip(k));
    }
}

/// One field of a group, after the whitespace before it, reads as its text
/// (empty for `NIL`).
proof fn lemma_field(s: Seq<char>, x: int, j: int, f: Option<Seq<char>>, k: nat)
    requires
        field_ok(f),
        0 <= x <= j,
        skip_ws_at(s, x) == j,
        j + field_text(f).len() < s.len(),
        s.subrange(j, j + field_text(f).len()) == field_text(f),
    ensures
        address_fields(s, x, k + 1) == (
            seq![
                match f {
                    Some(t) => t,
                    None => Seq::<char>::empty(),
                },
            ] + address_fields(s, j + field_text(f).len(), k).0,
            address_fields(s, j + field_text(f).len(), k).1,
        ),
{
    reveal_strlit("NIL");
    let ft = field_text(f);
    assert(s[j] == ft[0]);
    match f {
        Some(t) => {
            let q = quoted_text(t);
            assert(s[j] == '"');
            assert forall|i: int| 0 <= i < t.len() implies s[j + 1 + i] == #[trigger] t[i] by {
                assert(s.subrange(j, j + q.len())[1 + i] == q[1 + i]);
            }
            assert(s.subrange(j + 1, j + 1 + t.len()) =~= t);
            assert(s[j + 1 + t.len()] == q[1 + t.len() as int]) by {
                assert(s.subrange(j, j + q.len())[1 + t.len() as int] == q[1 + t.len() as int]);
            }
            lemma_quoted_rest(s, j, t, 0);
            assert(t.skip(0) =~= t);
        },
        None => {
            assert(s[j] == 'N');
            assert(s.subrange(j, j + 3) =~= "NIL"@);
        },
    }
}

/// Where the pieces of an address group sit in its text.
proof fn lemma_group_layout(g: (Option<Seq<char>>, Option<Seq<char>>, Option<Seq<char>>))
    ensures
        ({
            let grp = address_group(g);
            let f0 = field_text(g.0);
            let f2 = field_text(g.1);
            let f3 = field_text(g.2);
            let l0 = f0.len() as int;
            let l2 = f2.len() as int;
            let l3 = f3.len() as int;
            &&& grp.len() == 8 + l0 + l2 + l3
            &&& grp[0] == '('
            &&& forall|k: int| 0 <= k < l0 ==> grp[1 + k] == #[trigger] f0[k]
            &&& forall|k: int| 0 <= k < 5 ==> grp[1 + l0 + k] == #[trigger] " NIL "@[k]
            &&& forall|k: int| 0 <= k < l2 ==> grp[6 + l0 + k] == #[trigger] f2[k]
            &&& grp[6 + l0 + l2] == ' '
            &&& forall|k: int| 0 <= k < l3 ==> grp[7 + l0 + l2 + k] == #[trigger] f3[k]
            &&& grp[7 + l0 + l2 + l3] == ')'
        }),
{
    reveal_strlit("NIL");
    reveal_strlit(" NIL ");
    let grp = address_group(g);
    let f0 = field_text(g.0);
    let f2 = field_text(g.1);
    let f3 = field_text(g.2);
    let l0 = f0.len() as int;
    let l2 = f2.len() as int;
    let l3 = f3.len() as int;
    let a1 = seq!['('] + f0;
    let a2 = a1 + " NIL "@;
    let a3 = a2 + f2;
    let a4 = a3 + seq![' '];
    let a5 = a4 + f3;
    assert(grp =~= a5 + seq![')']);
    assert(grp.len() == 8 + l0 + l2 + l3);
    // where each piece sits in the group
    assert forall|k: int| 0 <= k < l0 implies grp[1 + k] == #[trigger] f0[k] by {
        assert(grp[1 + k] == a5[1 + k]);
        assert(a5[1 + k] == a4[1 + k]);
        assert(a4[1 + k] == a3[1 + k]);
        assert(a3[1 + k] == a2[1 + k]);
        assert(a2[1 + k] == a1[1 + k]);
    }
    assert forall|k: int| 0 <= k < 5 implies grp[1 + l0 + k] == #[trigger] " NIL "@[k] by {
        assert(grp[1 + l0 + k] == a5[1 + l0 + k]);
        assert(a5[1 + l0 + k] == a4[1 + l0 + k]);
        assert(a4[1 + l0 + k] == a3[1 + l0 + k]);
        assert(a3[1 + l0 + k] == a2[1 + l0 + k]);
    }
    assert forall|k: int| 0 <= k < l2 implies grp[6 + l0 + k] == #[trigger] f2[k] by {
        assert(grp[6 + l0 + k] == a5[6 + l0 + k]);
        assert(a5[6 + l0 + k] == a4[6 + l0 + k]);
        assert(a4[6 + l0 + k] == a3[6 + l0 + k]);
    }
    assert(grp[6 + l0 + l2] == ' ') by {
        assert(grp[6 + l0 + l2] == a5[6 + l0 + l2]);
        assert(a5[6 + l0 + l2] == a4[6 + l0 + l2]);
    }
    assert forall|k: int| 0 <= k < l3 implies grp[7 + l0 + l2 + k] == #[trigger] f3[k] by {
        assert(grp[7 + l0 + l2 + k] == a5[7 + l0 + l2 + k]);
    }
    assert(grp[7 + l0 + l2 + l3] == ')');
}

/// The fields read from one address group, and where reading stops: at its
/// closing `)`.
proof fn lemma_group_fields(s: Seq<char>, i: int, g: (Option<Seq<char>>, Option<Seq<char>>, Option<Seq<char>>))
    requires
        field_ok(g.0) && field_ok(g.1) && field_ok(g.2),
        0 <= i,
        i + address_group(g).len() <= s.len(),
        s.subrange(i, i + address_group(g).len()) == address_group(g),
    ensures
        address_fields(s, i + 1, 4) == (
            seq![
                match g.0 {
                    Some(t) => t,
                    None => Seq::<char>::empty(),
                },
                Seq::<char>::empty(),
                match g.1 {
                    Some(t) => t,
                    None => Seq::<char>::empty(),
                },
                match g.2 {
                    Some(t) => t,
                    None => Seq::<char>::empty(),
                },
            ],
            i + address_group(g).len() - 1,
        ),
{
    reveal_strlit("NIL");
    reveal_strlit(" NIL ");
    lemma_group_layout(g);
    let grp = address_group(g);
    let f0 = field_text(g.0);
    let f2 = field_text(g.1);
    let f3 = field_text(g.2);
    let l0 = f0.len() as int;
    let l2 = f2.len() as int;
    let l3 = f3.len() as int;
    assert forall|k: int| 0 <= k < grp.len() implies s[i + k] == #[trigger] grp[k] by {
        assert(s.subrange(i, i + grp.len())[k] == grp[k]);
    }
    // the name
    assert(s.subrange(i + 1, i + 1 + l0) =~= f0) by {
        assert forall|k: int| 0 <= k < l0 implies s.subrange(i + 1, i + 1 + l0)[k] == #[trigger] f0[k] by {
            assert(s[i + 1 + k] == grp[1 + k]);
        }
    }
    assert(s[i + 1] == grp[1int]);
    assert(f0[0] == '"' || f0[0] == 'N');
    assert(skip_ws_at(s, i + 1) == i + 1);
    lemma_field(s, i + 1, i + 1, g.0, 3);
    // the route, NIL
    assert(s[i + 1 + l0] == grp[1 + l0 + 0]);
    assert(s[i + 2 + l0] == grp[1 + l0 + 1]);
    assert(s[i + 3 + l0] == grp[1 + l0 + 2]);
    assert(s[i + 4 + l0] == grp[1 + l0 + 3]);
    assert(s[i + 5 + l0] == grp[1 + l0 + 4]);
    assert(skip_ws_at(s, i + 2 + l0) == i + 2 + l0);
    assert(skip_ws_at(s, i + 1 + l0) == i + 2 + l0);
    assert(s.subrange(i + 2 + l0, i + 5 + l0) =~= field_text(None));
    lemma_field(s, i + 1 + l0, i + 2 + l0, None, 2);
    // the mailbox
    assert(s.subrange(i + 6 + l0, i + 6 + l0 + l2) =~= f2) by {
        assert forall|k: int| 0 <= k < l2 implies s.subrange(i + 6 + l0, i + 6 + l0 + l2)[k] == #[trigger] f2[k] by {
            assert(s[i + 6 + l0 + k] == grp[6 + l0 + k]);
        }
    }
    assert(s[i + 6 + l0] == grp[6 + l0 + 0]);
    assert(f2[0] == '"' || f2[0] == 'N');
    assert(skip_ws_at(s, i + 6 + l0) == i + 6 + l0);
    assert(skip_ws_at(s, i + 5 + l0) == i + 6 + l0);
    lemma_field(s, i + 5 + l0, i + 6 + l0, g.1, 1);
    // the host
    assert(s.subrange(i + 7 + l0 + l2, i + 7 + l0 + l2 + l3) =~= f3) by {
        assert forall|k: int| 0 <= k < l3 implies s.subrange(i + 7 + l0 + l2, i + 7 + l0 + l2 + l3)[k]
            == #[trigger] f3[k] by {
            assert(s[i + 7 + l0 + l2 + k] == grp[7 + l0 + l2 + k]);
        }
    }
    assert(s[i + 6 + l0 + l2] == grp[6 + l0 + l2]);
    assert(s[i + 7 + l0 + l2] == grp[7 + l0 + l2 + 0]);
    assert(f3[0] == '"' || f3[0] == 'N');
    assert(skip_ws_at(s, i + 7 + l0 + l2) == i + 7 + l0 + l2);
    assert(skip_ws_at(s, i + 6 + l0 + l2) == i + 7 + l0 + l2);
    assert(s[i + 7 + l0 + l2 + l3] == grp[7 + l0 + l2 + l3]);
    lemma_field(s, i + 6 + l0 + l2, i + 7 + l0 + l2, g.2, 0);
    let v0 = match g.0 {
        Some(t) => t,
        None => Seq::<char>::empty(),
    };
    let v2 = match g.1 {
        Some(t) => t,
        None => Seq::<char>::empty(),
    };
    let v3 = match g.2 {
        Some(t) => t,
        None => Seq::<char>::empty(),
    };
    assert(seq![v0] + (seq![Seq::<char>::empty()] + (seq![v2] + (seq![v3] + Seq::<Seq<char>>::empty())))
        =~= seq![v0, Seq::<char>::empty(), v2, v3]);
}

/// Each group of a list of groups, up to the list's closing `)`, gives its
/// address, in order, when it has a mailbox.
proof fn lemma_groups(
    s: Seq<char>,
    i: int,
    gs: Seq<(Option<Seq<char>>, Option<Seq<char>>, Option<Seq<char>>)>,
)
    requires
        gs.len() > 0,
        forall|k: int|
            0 <= k < gs.len() ==> field_ok(#[trigger] gs[k].0) && field_ok(gs[k].1) && field_ok(gs[k].2),
        0 <= i,
        i + address_groups(gs).len() < s.len(),
        s.subrange(i, i + address_groups(gs).len()) == address_groups(gs),
        s[i + address_groups(gs).len()] == ')',
    ensures
        addresses_from(s, i) == group_addresses(gs),
    decreases gs.len(),
{
    reveal_strlit("@");
    let g = gs[0];
    let grp = address_group(g);
    let t = address_groups(gs);
    let e = i + grp.len();
    assert(field_ok(g.0) && field_ok(g.1) && field_ok(g.2));
    assert(t.subrange(0, grp.len() as int) =~= grp);
    assert(s.subrange(i, e) =~= grp) by {
        assert forall|k: int| 0 <= k < grp.len() implies s.subrange(i, e)[k] == #[trigger] grp[k] by {
            assert(s.subrange(i, i + t.len())[k] == t[k]);
        }
    }
    lemma_group_fields(s, i, g);
    assert(s[i] == grp[0]);
    assert(skip_ws_at(s, i) == i);
    assert(s[e - 1] == grp[grp.len() - 1]);
    assert(close_paren_at(s, e - 1) == e - 1);
    let f = address_fields(s, i + 1, 4).0;
    assert(address_from_fields(f) == group_address(g));
    let here = match group_address(g) {
        Some(a) => seq![a],
        None => Seq::<(Option<Seq<char>>, Seq<char>)>::empty(),
    };
    assert(addresses_from(s, i) == here + addresses_from(s, e)) by {
        match group_address(g) {
            Some(a) => {},
            None => {
                assert(here + addresses_from(s, e) =~= addresses_from(s, e));
            },
        }
    }
    if gs.len() == 1 {
        assert(t == grp);
        assert(skip_ws_at(s, e) == e);
        assert(addresses_from(s, e) =~= Seq::<(Option<Seq<char>>, Seq<char>)>::empty());
        assert(gs.drop_first() =~= Seq::<(Option<Seq<char>>, Option<Seq<char>>, Option<Seq<char>>)>::empty());
        assert(group_addresses(gs.drop_first()) =~= Seq::<(Option<Seq<char>>, Seq<char>)>::empty());
    } else {
        let rest = gs.drop_first();
        let tr = address_groups(rest);
        assert(t == grp + seq![' '] + tr);
        assert forall|k: int| 0 <= k < rest.len() implies field_ok(#[trigger] rest[k].0) && field_ok(rest[k].1)
            && field_ok(rest[k].2) by {
            assert(rest[k] == gs[k + 1]);
        }
        assert(s[e] == t[grp.len() as int]);
        assert(s.subrange(e + 1, e + 1 + tr.len()) =~= tr) by {
            assert forall|k: int| 0 <= k < tr.len() implies s.subrange(e + 1, e + 1 + tr.len())[k]
                == #[trigger] tr[k] by {
                assert(s.subrange(i, i + t.len())[grp.len() + 1 + k] == t[grp.len() + 1 + k]);
            }
        }
        lemma_groups(s, e + 1, rest);
        assert(s[e + 1] == '(') by {
            assert(s.subrange(e + 1, e + 1 + tr.len())[0] == tr[0]);
            assert(address_group(rest[0])[0] == '(');
            if rest.len() > 1 {
                assert(tr == address_group(rest[0]) + seq![' '] + address_groups(rest.drop_first()));
            }
        }
        assert(skip_ws_at(s, e + 1) == e + 1);
        assert(skip_ws_at(s, e) == e + 1);
        assert(addresses_from(s, e) == addresses_from(s, e + 1));
    }
}

/// Every address group with a mailbox gives an address, in order: the list
/// `(g1 g2 ...)` of groups `(name NIL mailbox host)` parses to one address
/// per group that has a mailbox (its name, and `mailbox@host`, or the
/// mailbox alone without a host), and to none when no group has a mailbox.
pub proof fn law_every_group_an_address(gs: Seq<(Option<Seq<char>>, Option<Seq<char>>, Option<Seq<char>>)>)
    requires
        gs.len() > 0,
        forall|k: int|
            0 <= k < gs.len() ==> field_ok(#[trigger] gs[k].0) && field_ok(gs[k].1) && field_ok(gs[k].2),
    ensures
        address_list(seq!['('] + address_groups(gs) + seq![')']) == (if group_addresses(gs).len() == 0 {
            None
        } else {
            Some(group_addresses(gs))
        }),
{
    reveal_strlit("NIL");
    let t = address_groups(gs);
    let s = seq!['('] + t + seq![')'];
    assert(s.subrange(1, 1 + t.len() as int) =~= t);
    assert(s[1 + t.len() as int] == ')');
    lemma_groups(s, 1, gs);
    assert(s != "NIL"@) by {
        assert(s[0] != "NIL"@[0]);
    }
    assert(crate::text::occurs_at(s, seq!['('], 0)) by {
        assert(s.subrange(0, 1) =~= seq!['(']);
    }
    crate::text::lemma_find_from(s, seq!['('], 0);
    assert(find_char(s, '(') == Some(0int));
}

/// A list of groups that all have a mailbox parses to as many addresses as
/// it has groups.
pub proof fn law_group_count(gs: Seq<(Option<Seq<char>>, Option<Seq<char>>, Option<Seq<char>>)>)
    requires
        gs.len() > 0,
        forall|k: int|
            0 <= k < gs.len() ==> field_ok(#[trigger] gs[k].0) && field_ok(gs[k].1) && field_ok(gs[k].2)
                && gs[k].1 is Some,
    ensures
        address_list(seq!['('] + address_groups(gs) + seq![')']) matches Some(a) && a.len() == gs.len(),
{
    law_every_group_an_address(gs);
    assert forall|k: int| 0 <= k < gs.len() implies (#[trigger] gs[k]).1 is Some by {
        assert(field_ok(gs[k].0));
    }
    lemma_group_addresses_len(gs);
}

proof fn lemma_group_addresses_len(gs: Seq<(Option<Seq<char>>, Option<Seq<char>>, Option<Seq<char>>)>)
    requires
        forall|k: int| 0 <= k < gs.len() ==> (#[trigger] gs[k]).1 is Some,
    ensures
        group_addresses(gs).len() == gs.len(),
    decreases gs.len(),
{
    if gs.len() > 0 {
        assert forall|k: int| 0 <= k < gs.drop_first().len() implies (#[trigger] gs.drop_first()[k]).1 is Some by {
            assert(gs.drop_first()[k] == gs[k + 1]);
        }
        lemma_group_addresses_len(gs.drop_first());
        assert(gs[0].1 is Some);
    }
}

} // verus!
