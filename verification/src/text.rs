//! Character-sequence helpers shared by the protocol parsers and the display logic.
//!
//! Strings are handled as sequences of `char`; every helper here states its
//! result over `Seq<char>` so that callers can state theirs the same way.
use vstd::prelude::*;

verus! {

// ───────────────────────── specifications ─────────────────────────

/// `p` occurs in `s` starting at index `i`.
pub open spec fn occurs_at(s: Seq<char>, p: Seq<char>, i: int) -> bool {
    0 <= i && i + p.len() <= s.len() && s.subrange(i, i + p.len()) == p
}

/// `s` begins with `p`.
pub open spec fn has_prefix(s: Seq<char>, p: Seq<char>) -> bool {
    occurs_at(s, p, 0)
}

/// `s` ends with `p`.
pub open spec fn has_suffix(s: Seq<char>, p: Seq<char>) -> bool {
    occurs_at(s, p, s.len() - p.len())
}

/// `p` occurs somewhere in `s`.
pub open spec fn contains(s: Seq<char>, p: Seq<char>) -> bool {
    exists|i: int| occurs_at(s, p, i)
}

/// The first index at or after `from` where `p` occurs in `s`.
pub open spec fn find_from(s: Seq<char>, p: Seq<char>, from: int) -> Option<int>
    decreases s.len() + 1 - from,
{
    if from < 0 || from + p.len() > s.len() {
        None
    } else if occurs_at(s, p, from) {
        Some(from)
    } else {
        find_from(s, p, from + 1)
    }
}

/// The first index where `p` occurs in `s` (`str::find`).
pub open spec fn find(s: Seq<char>, p: Seq<char>) -> Option<int> {
    find_from(s, p, 0)
}

/// The first index of character `c` in `s`.
pub open spec fn find_char(s: Seq<char>, c: char) -> Option<int> {
    find(s, seq![c])
}

/// The last index of character `c` in `s` (`str::rfind`).
pub open spec fn rfind_char(s: Seq<char>, c: char) -> Option<int>
    decreases s.len(),
{
    if s.len() == 0 {
        None
    } else if s.last() == c {
        Some(s.len() - 1)
    } else {
        rfind_char(s.drop_last(), c)
    }
}

/// Unicode `White_Space`, as `char::is_whitespace` tests it.
pub open spec fn is_ws(c: char) -> bool {
    ||| c == ' ' || c == '\t' || c == '\n' || c == '\r' || c == '\x0B' || c == '\x0C'
    ||| c == '\u{85}' || c == '\u{A0}' || c == '\u{1680}'
    ||| ('\u{2000}' <= c && c <= '\u{200A}')
    ||| c == '\u{2028}' || c == '\u{2029}' || c == '\u{202F}' || c == '\u{205F}' || c == '\u{3000}'
}

/// `s` without its leading whitespace.
pub open spec fn trim_start(s: Seq<char>) -> Seq<char>
    decreases s.len(),
{
    if s.len() > 0 && is_ws(s[0]) {
        trim_start(s.drop_first())
    } else {
        s
    }
}

/// `s` without its trailing whitespace.
pub open spec fn trim_end(s: Seq<char>) -> Seq<char>
    decreases s.len(),
{
    if s.len() > 0 && is_ws(s.last()) {
        trim_end(s.drop_last())
    } else {
        s
    }
}

/// `s` without leading and trailing whitespace (`str::trim`).
pub open spec fn trim(s: Seq<char>) -> Seq<char> {
    trim_end(trim_start(s))
}

/// The longest prefix of `s` that holds no whitespace.
pub open spec fn word_prefix(s: Seq<char>) -> Seq<char>
    decreases s.len(),
{
    if s.len() == 0 || is_ws(s[0]) {
        Seq::empty()
    } else {
        seq![s[0]] + word_prefix(s.drop_first())
    }
}

/// The whitespace-separated words of `s` (`str::split_whitespace`).
pub open spec fn words(s: Seq<char>) -> Seq<Seq<char>>
    decreases s.len(),
{
    let t = trim_start(s);
    if t.len() == 0 {
        Seq::empty()
    } else {
        let w = word_prefix(t);
        if w.len() == 0 {
            Seq::empty()
        } else {
            proof {
                lemma_trim_start_len(s);
                lemma_word_prefix_len(t);
            }
            seq![w] + words(t.skip(w.len() as int))
        }
    }
}

/// The pieces of `s` between occurrences of `c` (`str::split` on a character).
pub open spec fn split_on(s: Seq<char>, c: char) -> Seq<Seq<char>>
    decreases s.len(),
{
    match find_char(s, c) {
        None => seq![s],
        Some(i) => {
            proof {
                lemma_find_from(s, seq![c], 0);
            }
            seq![s.take(i)] + split_on(s.skip(i + 1), c)
        },
    }
}

/// `s` with every occurrence of the character `c` replaced by `r`.
pub open spec fn replace_char(s: Seq<char>, c: char, r: Seq<char>) -> Seq<char>
    decreases s.len(),
{
    if s.len() == 0 {
        Seq::empty()
    } else {
        (if s[0] == c { r } else { seq![s[0]] }) + replace_char(s.drop_first(), c, r)
    }
}

/// ASCII upper-case letters map to lower case; every other character is kept.
pub open spec fn ascii_lower_char(c: char) -> char {
    if 'A' <= c && c <= 'Z' {
        ((c as u32) + 32) as char
    } else {
        c
    }
}

/// `str::to_ascii_lowercase`.
pub open spec fn ascii_lower(s: Seq<char>) -> Seq<char> {
    s.map_values(|c: char| ascii_lower_char(c))
}

/// Equality of two strings ignoring ASCII case (`str::eq_ignore_ascii_case`).
pub open spec fn eq_ignore_ascii_case(a: Seq<char>, b: Seq<char>) -> bool {
    ascii_lower(a) == ascii_lower(b)
}

/// What `str::to_lowercase` returns for `s` (full Unicode lower-casing).
pub uninterp spec fn lowercase(s: Seq<char>) -> Seq<char>;

/// What `str::to_uppercase` returns for `s` (full Unicode upper-casing).
pub uninterp spec fn uppercase(s: Seq<char>) -> Seq<char>;

/// An ASCII decimal digit.
pub open spec fn is_digit(c: char) -> bool {
    '0' <= c && c <= '9'
}

/// Every character of `s` is an ASCII digit.
pub open spec fn all_digits(s: Seq<char>) -> bool {
    forall|i: int| 0 <= i < s.len() ==> is_digit(#[trigger] s[i])
}

/// The numeric value of a digit character.
pub open spec fn digit_value(c: char) -> nat {
    ((c as u32) - ('0' as u32)) as nat
}

/// The value of a string of decimal digits, read most significant first.
pub open spec fn decimal_value(s: Seq<char>) -> nat
    decreases s.len(),
{
    if s.len() == 0 {
        0
    } else {
        decimal_value(s.drop_last()) * 10 + digit_value(s.last())
    }
}

/// The digits of an unsigned number after an optional `+` sign, as `str::parse` reads them.
pub open spec fn unsigned_digits(s: Seq<char>) -> Seq<char> {
    if s.len() > 0 && s[0] == '+' {
        s.drop_first()
    } else {
        s
    }
}

/// What `str::parse::<u32>` returns: `None` for an empty, non-numeric or too large input.
pub open spec fn parse_u32(s: Seq<char>) -> Option<u32> {
    let d = unsigned_digits(s);
    if d.len() > 0 && all_digits(d) && decimal_value(d) <= u32::MAX {
        Some(decimal_value(d) as u32)
    } else {
        None
    }
}

/// What `str::parse::<usize>` returns.
pub open spec fn parse_usize(s: Seq<char>) -> Option<usize> {
    let d = unsigned_digits(s);
    if d.len() > 0 && all_digits(d) && decimal_value(d) <= usize::MAX {
        Some(decimal_value(d) as usize)
    } else {
        None
    }
}

/// What `str::parse::<i64>` returns.
pub open spec fn parse_i64(s: Seq<char>) -> Option<i64> {
    if s.len() > 0 && s[0] == '-' {
        let d = s.drop_first();
        if d.len() > 0 && all_digits(d) && decimal_value(d) <= 0x8000_0000_0000_0000 {
            Some((0 - decimal_value(d)) as i64)
        } else {
            None
        }
    } else {
        let d = unsigned_digits(s);
        if d.len() > 0 && all_digits(d) && decimal_value(d) <= i64::MAX {
            Some(decimal_value(d) as i64)
        } else {
            None
        }
    }
}

/// The decimal digits of `n`, without leading zeros (`"0"` for zero).
pub open spec fn decimal(n: nat) -> Seq<char>
    decreases n,
{
    if n < 10 {
        seq![digit_char(n)]
    } else {
        decimal(n / 10).push(digit_char(n % 10))
    }
}

/// The character for a digit value below ten.
pub open spec fn digit_char(d: nat) -> char {
    (('0' as u32) + d) as char
}

/// The UTF-8 encoding of a character sequence.
pub open spec fn utf8_bytes(s: Seq<char>) -> Seq<u8> {
    vstd::utf8::encode_utf8(s)
}

// ───────────────────────── lemmas ─────────────────────────

/// Pushing onto a sequence adds exactly the pushed element.
pub proof fn lemma_push_contains<A>(s: Seq<A>, x: A, u: A)
    ensures
        s.push(x).contains(u) <==> s.contains(u) || u == x,
{
    if s.push(x).contains(u) {
        let k = choose|k: int| 0 <= k < s.push(x).len() && s.push(x)[k] == u;
        if k < s.len() {
            assert(s[k] == u);
        }
    }
    if s.contains(u) {
        let k = choose|k: int| 0 <= k < s.len() && s[k] == u;
        assert(s.push(x)[k] == u);
    }
    if u == x {
        assert(s.push(x)[s.len() as int] == u);
    }
}

/// The leading word is a prefix of the string.
pub proof fn lemma_word_prefix_len(s: Seq<char>)
    ensures
        word_prefix(s).len() <= s.len(),
        word_prefix(s) == s.take(word_prefix(s).len() as int),
    decreases s.len(),
{
    if s.len() == 0 || is_ws(s[0]) {
    } else {
        lemma_word_prefix_len(s.drop_first());
        assert(word_prefix(s) =~= s.take(word_prefix(s).len() as int));
    }
}

/// Trimming never lengthens a string, and what is left is a suffix.
pub proof fn lemma_trim_start_len(s: Seq<char>)
    ensures
        trim_start(s).len() <= s.len(),
        trim_start(s) == s.skip(s.len() - trim_start(s).len()),
    decreases s.len(),
{
    if s.len() > 0 && is_ws(s[0]) {
        lemma_trim_start_len(s.drop_first());
        assert(s.drop_first().skip(s.drop_first().len() - trim_start(s).len()) =~= s.skip(
            s.len() - trim_start(s).len(),
        ));
    } else {
        assert(s.skip(0) =~= s);
    }
}

/// A prefix of digits never has a larger value than the whole.
pub proof fn lemma_decimal_prefix_le(s: Seq<char>, k: int)
    requires
        0 <= k <= s.len(),
    ensures
        decimal_value(s.take(k)) <= decimal_value(s),
    decreases s.len(),
{
    if k < s.len() {
        assert(s.drop_last().take(k) =~= s.take(k));
        lemma_decimal_prefix_le(s.drop_last(), k);
    } else {
        assert(s.take(k) =~= s);
    }
}

/// Reading one more digit multiplies the value so far by ten and adds the digit.
pub proof fn lemma_decimal_step(s: Seq<char>, k: int)
    requires
        0 <= k < s.len(),
    ensures
        decimal_value(s.take(k + 1)) == decimal_value(s.take(k)) * 10 + digit_value(s[k]),
{
    assert(s.take(k + 1).drop_last() =~= s.take(k));
}

/// `find_from` returns the first occurrence at or after `from`.
pub proof fn lemma_find_from(s: Seq<char>, p: Seq<char>, from: int)
    requires
        0 <= from,
    ensures
        match find_from(s, p, from) {
            Some(i) => from <= i && occurs_at(s, p, i) && forall|j: int|
                from <= j < i ==> !occurs_at(s, p, j),
            None => forall|j: int| from <= j ==> !occurs_at(s, p, j),
        },
    decreases s.len() + 1 - from,
{
    if from + p.len() > s.len() {
    } else if occurs_at(s, p, from) {
    } else {
        lemma_find_from(s, p, from + 1);
    }
}

/// `find` finds something exactly when the pattern occurs.
pub proof fn lemma_find_contains(s: Seq<char>, p: Seq<char>)
    ensures
        find(s, p) is Some <==> contains(s, p),
        find(s, p) matches Some(i) ==> occurs_at(s, p, i),
{
    lemma_find_from(s, p, 0);
    if contains(s, p) {
        let i = choose|i: int| occurs_at(s, p, i);
        assert(0 <= i);
    }
}

// ───────────────────────── executable helpers ─────────────────────────

/// The characters of a string slice, in order.
pub fn chars_of(s: &str) -> (v: Vec<char>)
    ensures
        v@ == s@,
{
    let mut v: Vec<char> = Vec::new();
    for c in it: s.chars()
        invariant
            v@ == it.seq().take(it.index() as int),
    {
        v.push(c);
    }
    v
}

/// Appends one character to a string (`String::push`).
#[verifier::external_body]
pub(crate) fn push_char(s: &mut String, c: char)
    ensures
        final(s)@ == old(s)@.push(c),
{
    s.push(c);
}

/// Lower-cases a string with full Unicode rules (`str::to_lowercase`).
/// Claimed besides: ASCII text is lower-cased as `to_ascii_lowercase` does
/// (only `A`-`Z` change), as the Unicode mapping of those letters is.
#[verifier::external_body]
pub(crate) fn to_lowercase(s: &str) -> (r: String)
    ensures
        r@ == lowercase(s@),
        vstd::utf8::is_ascii_chars(s@) ==> r@ == ascii_lower(s@),
{
    s.to_lowercase()
}

/// Upper-cases a string with full Unicode rules (`str::to_uppercase`).
#[verifier::external_body]
pub(crate) fn to_uppercase(s: &str) -> (r: String)
    ensures
        r@ == uppercase(s@),
{
    s.to_uppercase()
}

/// Builds a string from a sequence of characters.
pub fn string_of(v: &[char]) -> (s: String)
    ensures
        s@ == v@,
{
    let mut s = String::new();
    let mut i: usize = 0;
    while i < v.len()
        invariant
            i <= v@.len(),
            s@ == v@.take(i as int),
        decreases v@.len() - i,
    {
        push_char(&mut s, v[i]);
        assert(v@.take(i as int).push(v@[i as int]) =~= v@.take(i + 1));
        i += 1;
    }
    assert(v@.take(v@.len() as int) =~= v@);
    s
}

/// Appends the characters of `t` to `v`.
pub fn extend_chars(v: &mut Vec<char>, t: &[char])
    ensures
        final(v)@ == old(v)@ + t@,
{
    let mut i: usize = 0;
    while i < t.len()
        invariant
            i <= t@.len(),
            v@ == old(v)@ + t@.take(i as int),
        decreases t@.len() - i,
    {
        v.push(t[i]);
        assert(old(v)@ + t@.take(i + 1) =~= (old(v)@ + t@.take(i as int)).push(t@[i as int]));
        i += 1;
    }
    assert(t@.take(t@.len() as int) =~= t@);
}

/// Appends the characters of the string `t` to `v`.
pub fn extend_str(v: &mut Vec<char>, t: &str)
    ensures
        final(v)@ == old(v)@ + t@,
{
    let c = chars_of(t);
    extend_chars(v, &c);
}

/// The characters of `s` from index `lo` up to (not including) `hi`.
pub fn slice_of(s: &[char], lo: usize, hi: usize) -> (r: Vec<char>)
    requires
        lo <= hi <= s@.len(),
    ensures
        r@ == s@.subrange(lo as int, hi as int),
{
    let mut r: Vec<char> = Vec::new();
    let mut i: usize = lo;
    while i < hi
        invariant
            lo <= i <= hi <= s@.len(),
            r@ == s@.subrange(lo as int, i as int),
        decreases hi - i,
    {
        r.push(s[i]);
        assert(s@.subrange(lo as int, i + 1) =~= s@.subrange(lo as int, i as int).push(s@[i as int]));
        i += 1;
    }
    r
}

/// Whether two character sequences are equal.
pub fn chars_eq(a: &[char], b: &[char]) -> (r: bool)
    ensures
        r == (a@ == b@),
{
    if a.len() != b.len() {
        return false;
    }
    let mut i: usize = 0;
    while i < a.len()
        invariant
            a@.len() == b@.len(),
            i <= a@.len(),
            forall|j: int| 0 <= j < i ==> a@[j] == b@[j],
        decreases a@.len() - i,
    {
        if a[i] != b[i] {
            return false;
        }
        i += 1;
    }
    assert(a@ =~= b@);
    true
}

/// Whether the characters of `a` equal the string `b`.
pub fn eq_str(a: &[char], b: &str) -> (r: bool)
    ensures
        r == (a@ == b@),
{
    let bc = chars_of(b);
    chars_eq(a, &bc)
}

/// Whether `p` occurs in `s` at index `i`.
pub fn occurs_at_exec(s: &[char], p: &[char], i: usize) -> (r: bool)
    ensures
        r == occurs_at(s@, p@, i as int),
{
    if i > s.len() || p.len() > s.len() - i {
        return false;
    }
    let mut k: usize = 0;
    while k < p.len()
        invariant
            i + p@.len() <= s@.len(),
            s@.len() == s.len(),
            k <= p@.len(),
            forall|j: int| 0 <= j < k ==> s@[i + j] == p@[j],
        decreases p@.len() - k,
    {
        if s[i + k] != p[k] {
            assert(s@.subrange(i as int, i + p@.len())[k as int] != p@[k as int]);
            return false;
        }
        k += 1;
    }
    assert(s@.subrange(i as int, i + p@.len()) =~= p@);
    true
}

/// Whether `s` begins with the string `p`.
pub fn starts_with_str(s: &[char], p: &str) -> (r: bool)
    ensures
        r == has_prefix(s@, p@),
{
    let pc = chars_of(p);
    occurs_at_exec(s, &pc, 0)
}

/// Whether `s` ends with the string `p`.
pub fn ends_with_str(s: &[char], p: &str) -> (r: bool)
    ensures
        r == has_suffix(s@, p@),
{
    let pc = chars_of(p);
    if pc.len() > s.len() {
        return false;
    }
    occurs_at_exec(s, &pc, s.len() - pc.len())
}

/// The first index at or after `from` where `p` occurs in `s`.
pub fn find_from_exec(s: &[char], p: &[char], from: usize) -> (r: Option<usize>)
    ensures
        r matches Some(i) ==> find_from(s@, p@, from as int) == Some(i as int),
        r is None ==> find_from(s@, p@, from as int) is None,
{
    if p.len() > s.len() || from > s.len() - p.len() {
        return None;
    }
    let last = s.len() - p.len();
    let mut i: usize = from;
    while i <= last
        invariant
            from <= i <= last + 1,
            last + p@.len() == s@.len(),
            find_from(s@, p@, from as int) == find_from(s@, p@, i as int),
        decreases last + 1 - i,
    {
        if occurs_at_exec(s, p, i) {
            return Some(i);
        }
        if i == last {
            assert(find_from(s@, p@, i + 1) is None);
            return None;
        }
        i += 1;
    }
    None
}

/// The first index where `p` occurs in `s`.
pub fn find_exec(s: &[char], p: &[char]) -> (r: Option<usize>)
    ensures
        r matches Some(i) ==> find(s@, p@) == Some(i as int),
        r is None ==> find(s@, p@) is None,
{
    find_from_exec(s, p, 0)
}

/// The first index where the string `p` occurs in `s`.
pub fn find_str(s: &[char], p: &str) -> (r: Option<usize>)
    ensures
        r matches Some(i) ==> find(s@, p@) == Some(i as int),
        r is None ==> find(s@, p@) is None,
{
    let pc = chars_of(p);
    find_exec(s, &pc)
}

/// Whether the string `p` occurs in `s`.
pub fn contains_str(s: &[char], p: &str) -> (r: bool)
    ensures
        r == contains(s@, p@),
{
    let pc = chars_of(p);
    proof {
        lemma_find_contains(s@, pc@);
    }
    find_exec(s, &pc).is_some()
}

/// The first index of `c` in `s`.
pub fn find_char_exec(s: &[char], c: char) -> (r: Option<usize>)
    ensures
        r matches Some(i) ==> find_char(s@, c) == Some(i as int),
        r is None ==> find_char(s@, c) is None,
{
    let mut p: Vec<char> = Vec::new();
    p.push(c);
    assert(p@ =~= seq![c]);
    find_exec(s, &p)
}

/// Whether the character `c` occurs in `s`.
pub fn contains_char(s: &[char], c: char) -> (r: bool)
    ensures
        r == contains(s@, seq![c]),
{
    let mut p: Vec<char> = Vec::new();
    p.push(c);
    assert(p@ =~= seq![c]);
    proof {
        lemma_find_contains(s@, seq![c]);
    }
    find_exec(s, &p).is_some()
}

/// The last index of `c` in `s`.
pub fn rfind_char_exec(s: &[char], c: char) -> (r: Option<usize>)
    ensures
        r matches Some(i) ==> rfind_char(s@, c) == Some(i as int),
        r is None ==> rfind_char(s@, c) is None,
{
    let mut n: usize = s.len();
    assert(s@.take(n as int) =~= s@);
    while n > 0
        invariant
            n <= s@.len(),
            rfind_char(s@, c) == rfind_char(s@.take(n as int), c),
        decreases n,
    {
        assert(s@.take(n as int).drop_last() =~= s@.take(n - 1));
        if s[n - 1] == c {
            return Some(n - 1);
        }
        n -= 1;
    }
    None
}

/// Executable `char::is_whitespace`.
pub fn is_ws_exec(c: char) -> (r: bool)
    ensures
        r == is_ws(c),
{
    c == ' ' || c == '\t' || c == '\n' || c == '\r' || c == '\x0B' || c == '\x0C'
        || c == '\u{85}' || c == '\u{A0}' || c == '\u{1680}'
        || ('\u{2000}' <= c && c <= '\u{200A}')
        || c == '\u{2028}' || c == '\u{2029}' || c == '\u{202F}' || c == '\u{205F}'
        || c == '\u{3000}'
}

/// The first index of `s` at or after `lo` that is not whitespace (or `s.len()`).
pub fn skip_ws(s: &[char], lo: usize) -> (r: usize)
    requires
        lo <= s@.len(),
    ensures
        lo <= r <= s@.len(),
        r < s@.len() ==> !is_ws(s@[r as int]),
        trim_start(s@.skip(lo as int)) == s@.skip(r as int),
        forall|j: int| lo <= j < r ==> is_ws(#[trigger] s@[j]),
{
    let mut i = lo;
    while i < s.len() && is_ws_exec(s[i])
        invariant
            lo <= i <= s@.len(),
            trim_start(s@.skip(lo as int)) == trim_start(s@.skip(i as int)),
            forall|j: int| lo <= j < i ==> is_ws(#[trigger] s@[j]),
        decreases s@.len() - i,
    {
        assert(s@.skip(i as int).drop_first() =~= s@.skip(i + 1));
        i += 1;
    }
    i
}

/// The bounds of `s` without leading and trailing whitespace.
pub fn trim_bounds(s: &[char]) -> (r: (usize, usize))
    ensures
        r.0 <= r.1 <= s@.len(),
        s@.subrange(r.0 as int, r.1 as int) == trim(s@),
{
    assert(s@.skip(0) =~= s@);
    let lo = skip_ws(s, 0);
    let mut hi = s.len();
    assert(s@.skip(lo as int) =~= s@.subrange(lo as int, hi as int));
    while hi > lo && is_ws_exec(s[hi - 1])
        invariant
            lo <= hi <= s@.len(),
            trim_end(s@.subrange(lo as int, s@.len() as int)) == trim_end(
                s@.subrange(lo as int, hi as int),
            ),
        decreases hi,
    {
        assert(s@.subrange(lo as int, hi as int).drop_last() =~= s@.subrange(
            lo as int,
            hi - 1,
        ));
        hi -= 1;
    }
    (lo, hi)
}

/// `s` without leading and trailing whitespace.
pub fn trim_exec(s: &[char]) -> (r: Vec<char>)
    ensures
        r@ == trim(s@),
{
    let (lo, hi) = trim_bounds(s);
    slice_of(s, lo, hi)
}

/// The ASCII lower-case form of `s`.
pub fn ascii_lower_exec(s: &[char]) -> (r: Vec<char>)
    ensures
        r@ == ascii_lower(s@),
{
    let mut r: Vec<char> = Vec::new();
    let mut i: usize = 0;
    while i < s.len()
        invariant
            i <= s@.len(),
            r@ == ascii_lower(s@.take(i as int)),
        decreases s@.len() - i,
    {
        let c = s[i];
        let l = if 'A' <= c && c <= 'Z' {
            ((c as u8) + 32) as char
        } else {
            c
        };
        assert(l == ascii_lower_char(c));
        r.push(l);
        assert(ascii_lower(s@.take(i + 1)) =~= ascii_lower(s@.take(i as int)).push(
            ascii_lower_char(s@[i as int]),
        ));
        i += 1;
    }
    assert(s@.take(s@.len() as int) =~= s@);
    r
}

/// Whether `a` and `b` are equal ignoring ASCII case.
pub fn eq_ignore_ascii_case_str(a: &[char], b: &str) -> (r: bool)
    ensures
        r == eq_ignore_ascii_case(a@, b@),
{
    let bc = chars_of(b);
    let la = ascii_lower_exec(a);
    let lb = ascii_lower_exec(&bc);
    chars_eq(&la, &lb)
}

/// The value of the digits of `s` from index `start` on, when they are all
/// digits, there is at least one, and the value is at most `limit`.
fn parse_digits_from(s: &[char], start: usize, limit: u64) -> (r: Option<u64>)
    requires
        start <= s@.len(),
        9 <= limit,
    ensures
        r == (if s@.len() > start && all_digits(s@.skip(start as int)) && decimal_value(
            s@.skip(start as int),
        ) <= limit {
            Some(decimal_value(s@.skip(start as int)) as u64)
        } else {
            None::<u64>
        }),
{
    let ghost d = s@.skip(start as int);
    if start >= s.len() {
        return None;
    }
    let mut acc: u64 = 0;
    let mut i: usize = start;
    while i < s.len()
        invariant
            start <= i <= s@.len(),
            d == s@.skip(start as int),
            9 <= limit,
            all_digits(d.take(i - start)),
            acc as nat == decimal_value(d.take(i - start)),
            acc <= limit,
        decreases s@.len() - i,
    {
        let c = s[i];
        let ghost k = i - start;
        proof {
            lemma_decimal_step(d, k);
            assert(d[k] == c);
        }
        if !('0' <= c && c <= '9') {
            assert(!is_digit(d[k]));
            assert(!all_digits(d));
            return None;
        }
        let v = (c as u64) - ('0' as u64);
        assert(digit_value(c) == v);
        if acc > (limit - v) / 10 {
            proof {
                assert(acc * 10 + v > limit) by (nonlinear_arith)
                    requires
                        acc > (limit - v) / 10,
                        v <= 9,
                ;
                lemma_decimal_prefix_le(d, k + 1);
                assert(decimal_value(d) > limit);
            }
            return None;
        }
        proof {
            assert(acc * 10 + v <= limit) by (nonlinear_arith)
                requires
                    acc <= (limit - v) / 10,
                    v <= 9,
            ;
            assert forall|j: int| 0 <= j < k + 1 implies is_digit(#[trigger] d.take(k + 1)[j]) by {
                if j < k {
                    assert(d.take(k + 1)[j] == d.take(k)[j]);
                }
            }
        }
        acc = acc * 10 + v;
        i += 1;
    }
    assert(d.take(i - start) =~= d);
    Some(acc)
}

/// Executable `str::parse::<u32>`.
pub fn parse_u32_exec(s: &[char]) -> (r: Option<u32>)
    ensures
        r == parse_u32(s@),
{
    let start: usize = if s.len() > 0 && s[0] == '+' { 1 } else { 0 };
    assert(unsigned_digits(s@) =~= s@.skip(start as int));
    match parse_digits_from(s, start, 0xFFFF_FFFF) {
        Some(v) => Some(v as u32),
        None => None,
    }
}

/// Executable `str::parse::<usize>`.
pub fn parse_usize_exec(s: &[char]) -> (r: Option<usize>)
    ensures
        r == parse_usize(s@),
{
    let start: usize = if s.len() > 0 && s[0] == '+' { 1 } else { 0 };
    assert(unsigned_digits(s@) =~= s@.skip(start as int));
    match parse_digits_from(s, start, usize::MAX as u64) {
        Some(v) => Some(v as usize),
        None => None,
    }
}

/// Executable `str::parse::<i64>`.
pub fn parse_i64_exec(s: &[char]) -> (r: Option<i64>)
    ensures
        r == parse_i64(s@),
{
    if s.len() > 0 && s[0] == '-' {
        assert(s@.drop_first() =~= s@.skip(1));
        match parse_digits_from(s, 1, 0x8000_0000_0000_0000) {
            Some(v) => {
                if v == 0x8000_0000_0000_0000 {
                    Some(i64::MIN)
                } else {
                    let a = v as i64;
                    Some(-a)
                }
            },
            None => None,
        }
    } else {
        let start: usize = if s.len() > 0 && s[0] == '+' { 1 } else { 0 };
        assert(unsigned_digits(s@) =~= s@.skip(start as int));
        match parse_digits_from(s, start, 0x7FFF_FFFF_FFFF_FFFF) {
            Some(v) => Some(v as i64),
            None => None,
        }
    }
}

/// The decimal digits of `n`.
pub fn decimal_exec(n: u64) -> (r: Vec<char>)
    ensures
        r@ == decimal(n as nat),
    decreases n,
{
    if n < 10 {
        let mut r: Vec<char> = Vec::new();
        r.push(digit_char_exec(n));
        r
    } else {
        let mut r = decimal_exec(n / 10);
        r.push(digit_char_exec(n % 10));
        r
    }
}

/// The character of a digit value.
pub fn digit_char_exec(d: u64) -> (c: char)
    requires
        d < 10,
    ensures
        c == digit_char(d as nat),
{
    let b: u8 = (d as u8) + 48;
    b as char
}

/// The decimal form of a signed number, with a leading `-` when negative.
pub open spec fn signed_decimal(i: int) -> Seq<char> {
    if i < 0 {
        seq!['-'] + decimal((0 - i) as nat)
    } else {
        decimal(i as nat)
    }
}

/// The decimal form of a signed number (`i64::to_string`).
pub fn signed_decimal_exec(i: i64) -> (r: Vec<char>)
    ensures
        r@ == signed_decimal(i as int),
{
    if i < 0 {
        let m: u64 = if i == i64::MIN {
            9223372036854775808u64
        } else {
            (0 - i) as u64
        };
        let d = decimal_exec(m);
        let mut r: Vec<char> = Vec::new();
        r.push('-');
        extend_chars(&mut r, &d);
        proof {
            assert(r@ =~= seq!['-'] + decimal((0 - i) as nat));
        }
        r
    } else {
        decimal_exec(i as u64)
    }
}

/// The pieces joined back together with `c` between them (`join`).
pub open spec fn join_with(ps: Seq<Seq<char>>, c: char) -> Seq<char>
    decreases ps.len(),
{
    if ps.len() == 0 {
        Seq::empty()
    } else if ps.len() == 1 {
        ps[0]
    } else {
        ps[0] + seq![c] + join_with(ps.drop_first(), c)
    }
}

/// `c` does not occur in `s`.
pub open spec fn free_of(s: Seq<char>, c: char) -> bool {
    forall|k: int| 0 <= k < s.len() ==> s[k] != c
}

pub proof fn lemma_occurs_single(s: Seq<char>, c: char, i: int)
    ensures
        occurs_at(s, seq![c], i) <==> 0 <= i < s.len() && s[i] == c,
{
    if 0 <= i < s.len() && s[i] == c {
        assert(s.subrange(i, i + 1) =~= seq![c]);
    }
    if occurs_at(s, seq![c], i) {
        assert(s.subrange(i, i + 1)[0] == c);
    }
}

/// The last `c` of `s` comes at a valid position.
pub proof fn lemma_rfind_char_in(s: Seq<char>, c: char)
    ensures
        rfind_char(s, c) matches Some(i) ==> 0 <= i < s.len() && s[i] == c,
    decreases s.len(),
{
    if s.len() > 0 && s.last() != c {
        lemma_rfind_char_in(s.drop_last(), c);
    }
}

/// The first `c` in `t` is at `j` when `t[j]` is `c` and no earlier character is.
pub proof fn lemma_find_char_at(t: Seq<char>, c: char, j: int)
    requires
        0 <= j < t.len(),
        t[j] == c,
        free_of(t.take(j), c),
    ensures
        find_char(t, c) == Some(j),
{
    lemma_find_from(t, seq![c], 0);
    lemma_occurs_single(t, c, j);
    match find_char(t, c) {
        Some(i) => {
            lemma_occurs_single(t, c, i);
            if i < j {
                assert(t.take(j)[i] == t[i]);
            }
        },
        None => {},
    }
}

/// A string without `c` has no `c` to find.
pub proof fn lemma_find_char_none(t: Seq<char>, c: char)
    requires
        free_of(t, c),
    ensures
        find_char(t, c) is None,
{
    lemma_find_from(t, seq![c], 0);
    match find_char(t, c) {
        Some(i) => {
            lemma_occurs_single(t, c, i);
        },
        None => {},
    }
}

/// Splitting a string without the separator gives the string itself.
pub proof fn lemma_split_on_free(a: Seq<char>, c: char)
    requires
        free_of(a, c),
    ensures
        split_on(a, c) == seq![a],
{
    lemma_find_char_none(a, c);
}

/// Splitting `a`, the separator and `b` gives `a` and the pieces of `b`.
pub proof fn lemma_split_on_concat(a: Seq<char>, b: Seq<char>, c: char)
    requires
        free_of(a, c),
    ensures
        split_on(a + seq![c] + b, c) == seq![a] + split_on(b, c),
{
    let t = a + seq![c] + b;
    assert(t.take(a.len() as int) =~= a);
    lemma_find_char_at(t, c, a.len() as int);
    assert(t.skip(a.len() as int + 1) =~= b);
}

/// Joining pieces that hold no separator and splitting again gives the pieces.
pub proof fn lemma_split_join(ps: Seq<Seq<char>>, c: char)
    requires
        ps.len() >= 1,
        forall|k: int| 0 <= k < ps.len() ==> free_of(#[trigger] ps[k], c),
    ensures
        split_on(join_with(ps, c), c) == ps,
    decreases ps.len(),
{
    if ps.len() == 1 {
        lemma_split_on_free(ps[0], c);
        assert(seq![ps[0]] =~= ps);
    } else {
        let rest = ps.drop_first();
        assert forall|k: int| 0 <= k < rest.len() implies free_of(#[trigger] rest[k], c) by {
            assert(rest[k] == ps[k + 1]);
        }
        lemma_split_join(rest, c);
        assert(free_of(ps[0], c));
        lemma_split_on_concat(ps[0], join_with(rest, c), c);
        assert(seq![ps[0]] + rest =~= ps);
    }
}

/// Splitting at `c` and joining with `c` gives the string back.
pub proof fn lemma_join_split(s: Seq<char>, c: char)
    ensures
        join_with(split_on(s, c), c) == s,
        split_on(s, c).len() >= 1,
    decreases s.len(),
{
    lemma_find_from(s, seq![c], 0);
    match find_char(s, c) {
        None => {},
        Some(i) => {
            lemma_join_split(s.skip(i + 1), c);
            lemma_occurs_single(s, c, i);
            assert(s.take(i) + seq![c] + s.skip(i + 1) =~= s);
            let ps = split_on(s, c);
            assert(ps.drop_first() =~= split_on(s.skip(i + 1), c));
        },
    }
}

/// The pieces of `s` between occurrences of `c`.
pub fn split_on_exec(s: &[char], c: char) -> (r: Vec<Vec<char>>)
    ensures
        views(r@) == split_on(s@, c),
{
    let mut out: Vec<Vec<char>> = Vec::new();
    let mut cur: Vec<char> = Vec::new();
    let mut start: usize = 0;
    let mut k: usize = 0;
    proof {
        assert(s@.skip(0) =~= s@);
        assert(views(out@) + split_on(s@, c) =~= split_on(s@, c));
    }
    while k < s.len()
        invariant
            start <= k <= s@.len(),
            cur@ == s@.subrange(start as int, k as int),
            free_of(cur@, c),
            views(out@) + split_on(s@.skip(start as int), c) == split_on(s@, c),
        decreases s@.len() - k,
    {
        if s[k] == c {
            proof {
                let t = s@.skip(start as int);
                assert(t.take(k - start) =~= cur@);
                lemma_find_char_at(t, c, k - start);
                assert(t.skip(k - start + 1) =~= s@.skip(k + 1));
                assert(views(out@.push(cur)) =~= views(out@).push(cur@));
                assert(views(out@).push(cur@) + split_on(s@.skip(k + 1), c) =~= views(out@) + (seq![cur@] + split_on(s@.skip(k + 1), c)));
            }
            out.push(cur);
            cur = Vec::new();
            start = k + 1;
        } else {
            cur.push(s[k]);
            proof {
                assert(cur@ =~= s@.subrange(start as int, k + 1));
            }
        }
        k += 1;
    }
    proof {
        assert(s@.skip(start as int) =~= cur@);
        lemma_split_on_free(cur@, c);
        assert(views(out@.push(cur)) =~= views(out@) + seq![cur@]);
    }
    out.push(cur);
    out
}

/// The pieces joined with `c` between them.
pub fn join_exec(ps: &[Vec<char>], c: char) -> (r: Vec<char>)
    ensures
        r@ == join_with(views(ps@), c),
{
    let mut r: Vec<char> = Vec::new();
    let n = ps.len();
    if n == 0 {
        return r;
    }
    let mut k: usize = n - 1;
    extend_chars(&mut r, &ps[k]);
    proof {
        assert(views(ps@).skip(k as int) =~= seq![ps@[k as int]@]);
    }
    while k > 0
        invariant
            0 <= k < n == ps@.len(),
            r@ == join_with(views(ps@).skip(k as int), c),
        decreases k,
    {
        let mut t: Vec<char> = Vec::new();
        extend_chars(&mut t, &ps[k - 1]);
        t.push(c);
        extend_chars(&mut t, &r);
        proof {
            let v = views(ps@).skip(k - 1);
            assert(v.drop_first() =~= views(ps@).skip(k as int));
            assert(v[0] == ps@[k - 1]@);
            assert(t@ =~= v[0] + seq![c] + join_with(v.drop_first(), c));
        }
        r = t;
        k -= 1;
    }
    proof {
        assert(views(ps@).skip(0) =~= views(ps@));
    }
    r
}

/// The decimal form of `n` is a non-empty run of digits worth `n`.
pub proof fn lemma_decimal_digits(n: nat)
    ensures
        decimal(n).len() > 0,
        all_digits(decimal(n)),
        decimal_value(decimal(n)) == n,
    decreases n,
{
    assert(digit_value(digit_char(n % 10)) == n % 10);
    if n < 10 {
        assert(decimal(n).drop_last() =~= Seq::<char>::empty());
        assert(decimal(n).last() == digit_char(n));
        assert(decimal_value(decimal(n)) == decimal_value(Seq::<char>::empty()) * 10 + digit_value(digit_char(n)));
    } else {
        lemma_decimal_digits(n / 10);
        let d = decimal(n / 10);
        assert(decimal(n).drop_last() =~= d);
        assert(n == (n / 10) * 10 + n % 10);
        assert(decimal(n).last() == digit_char(n % 10));
        assert(decimal_value(decimal(n)) == decimal_value(d) * 10 + digit_value(digit_char(n % 10)));
        assert forall|i: int| 0 <= i < decimal(n).len() implies is_digit(#[trigger] decimal(n)[i]) by {
            if i < d.len() {
                assert(decimal(n)[i] == d[i]);
            }
        }
    }
}

/// A digit run has no character other than digits, so none of `c` when `c` is not one.
pub proof fn lemma_digits_free_of(s: Seq<char>, c: char)
    requires
        all_digits(s),
        !is_digit(c),
    ensures
        free_of(s, c),
{
    assert forall|k: int| 0 <= k < s.len() implies s[k] != c by {
        assert(is_digit(s[k]));
    }
}

/// Reading back the decimal form of a `u32` gives the number.
pub proof fn lemma_parse_u32_decimal(n: u32)
    ensures
        parse_u32(decimal(n as nat)) == Some(n),
        all_digits(decimal(n as nat)),
{
    lemma_decimal_digits(n as nat);
    assert(is_digit(decimal(n as nat)[0]));
}

/// Reading back the decimal form of an `i64` gives the number.
pub proof fn lemma_parse_i64_decimal(i: i64)
    ensures
        parse_i64(signed_decimal(i as int)) == Some(i),
        free_of(signed_decimal(i as int), ':'),
        free_of(signed_decimal(i as int), '|'),
{
    if i < 0 {
        let d = decimal((0 - i) as nat);
        lemma_decimal_digits((0 - i) as nat);
        let s = seq!['-'] + d;
        assert(s.drop_first() =~= d);
        assert forall|k: int| 0 <= k < s.len() implies s[k] != ':' && s[k] != '|' by {
            if k > 0 {
                assert(s[k] == d[k - 1]);
                assert(is_digit(d[k - 1]));
            }
        }
    } else {
        let d = decimal(i as nat);
        lemma_decimal_digits(i as nat);
        assert(is_digit(d[0]));
        lemma_digits_free_of(d, ':');
        lemma_digits_free_of(d, '|');
    }
}

/// `s` with every `c` replaced by the text `r`.
pub fn replace_char_exec(s: &[char], c: char, r: &str) -> (out: Vec<char>)
    ensures
        out@ == replace_char(s@, c, r@),
{
    let rc = chars_of(r);
    let mut out: Vec<char> = Vec::new();
    let mut i: usize = 0;
    proof {
        assert(s@.skip(0) =~= s@);
    }
    while i < s.len()
        invariant
            rc@ == r@,
            i <= s@.len(),
            out@ + replace_char(s@.skip(i as int), c, r@) == replace_char(s@, c, r@),
        decreases s@.len() - i,
    {
        proof {
            assert(s@.skip(i as int)[0] == s@[i as int]);
            assert(s@.skip(i as int).drop_first() =~= s@.skip(i + 1));
        }
        let ghost before = out@;
        if s[i] == c {
            extend_chars(&mut out, &rc);
        } else {
            out.push(s[i]);
        }
        proof {
            let piece = if s@[i as int] == c { r@ } else { seq![s@[i as int]] };
            assert(out@ =~= before + piece);
            assert(before + replace_char(s@.skip(i as int), c, r@) =~= out@ + replace_char(s@.skip(i + 1), c, r@));
        }
        i += 1;
    }
    proof {
        assert(s@.skip(i as int) =~= Seq::<char>::empty());
        assert(out@ + Seq::<char>::empty() =~= out@);
    }
    out
}

/// The views of a list of character vectors.
pub open spec fn views(v: Seq<Vec<char>>) -> Seq<Seq<char>> {
    v.map_values(|w: Vec<char>| w@)
}

/// The words of `s`, split at whitespace.
pub fn split_whitespace_exec(s: &[char]) -> (r: Vec<Vec<char>>)
    ensures
        views(r@) == words(s@),
{
    let mut r: Vec<Vec<char>> = Vec::new();
    let mut i: usize = 0;
    assert(s@.skip(0) =~= s@);
    assert(views(r@) + words(s@) =~= words(s@));
    while i < s.len()
        invariant
            i <= s@.len(),
            views(r@) + words(s@.skip(i as int)) == words(s@),
        decreases s@.len() - i,
    {
        let ghost rest = s@.skip(i as int);
        let j = skip_ws(s, i);
        if j == s.len() {
            assert(trim_start(rest).len() == 0);
            assert(words(rest) =~= Seq::<Seq<char>>::empty());
            i = j;
            assert(s@.skip(i as int).len() == 0);
            assert(words(s@.skip(i as int)) =~= Seq::<Seq<char>>::empty());
        } else {
            let mut e = j;
            while e < s.len() && !is_ws_exec(s[e])
                invariant
                    j <= e <= s@.len(),
                    word_prefix(s@.skip(j as int)) == s@.subrange(j as int, e as int)
                        + word_prefix(s@.skip(e as int)),
                decreases s@.len() - e,
            {
                assert(s@.skip(e as int).drop_first() =~= s@.skip(e + 1));
                assert(s@.subrange(j as int, e + 1) =~= s@.subrange(j as int, e as int) + seq![
                    s@[e as int],
                ]);
                e += 1;
            }
            assert(word_prefix(s@.skip(e as int)).len() == 0);
            assert(word_prefix(s@.skip(j as int)) =~= s@.subrange(j as int, e as int));
            let w = slice_of(s, j, e);
            assert(s@.skip(j as int).skip(w@.len() as int) =~= s@.skip(e as int));
            assert(trim_start(rest) == s@.skip(j as int));
            assert(s@.skip(j as int).len() > 0);
            assert(s@.skip(j as int)[0] == s@[j as int]);
            assert(w@.len() > 0);
            assert(words(rest) =~= seq![w@] + words(s@.skip(e as int)));
            let ghost old_r = r@;
            r.push(w);
            assert(views(r@) =~= views(old_r).push(w@));
            assert(views(r@) + words(s@.skip(e as int)) =~= views(old_r) + words(rest));
            i = e;
        }
    }
    assert(s@.skip(i as int).len() == 0);
    assert(words(s@.skip(i as int)) =~= Seq::<Seq<char>>::empty());
    assert(views(r@) + words(s@.skip(i as int)) =~= views(r@));
    r
}

} // verus!
