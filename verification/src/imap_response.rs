//! Decisions the raw IMAP client makes on the lines a server sends: command
//! tags, tagged completions, counts in `SELECT`/`STATUS` responses, literal
//! sizes, `APPENDUID`, and the events reported while idling.
use vstd::prelude::*;

use crate::text::{
    chars_of, contains, contains_str, decimal, decimal_exec, eq_str, extend_chars, extend_str,
    find, find_char, find_char_exec, find_str, has_prefix, lemma_find_contains, lemma_find_from,
    parse_u32, parse_u32_exec, parse_usize, parse_usize_exec, rfind_char, rfind_char_exec, slice_of,
    split_whitespace_exec, starts_with_str, string_of, trim, trim_exec, uppercase, to_uppercase,
    views, words,
};

verus! {

// ───────────────────────── command tags ─────────────────────────

/// `s` padded on the left with `0` to at least `width` characters.
pub open spec fn zero_pad(s: Seq<char>, width: nat) -> Seq<char> {
    if s.len() >= width {
        s
    } else {
        Seq::new((width - s.len()) as nat, |i: int| '0') + s
    }
}

/// The tag of the `n`-th command: `A` and the number padded to four digits (`A0001`).
pub open spec fn tag_text(n: nat) -> Seq<char> {
    "A"@ + zero_pad(decimal(n), 4)
}

proof fn lemma_zeros_value(z: Seq<char>)
    requires
        forall|i: int| 0 <= i < z.len() ==> z[i] == '0',
    ensures
        crate::text::decimal_value(z) == 0,
    decreases z.len(),
{
    if z.len() > 0 {
        lemma_zeros_value(z.drop_last());
        assert(z.last() == '0');
    }
}

proof fn lemma_leading_zeros(z: Seq<char>, d: Seq<char>)
    requires
        forall|i: int| 0 <= i < z.len() ==> z[i] == '0',
    ensures
        crate::text::decimal_value(z + d) == crate::text::decimal_value(d),
    decreases d.len(),
{
    if d.len() == 0 {
        assert(z + d =~= z);
        lemma_zeros_value(z);
    } else {
        assert((z + d).drop_last() =~= z + d.drop_last());
        assert((z + d).last() == d.last());
        lemma_leading_zeros(z, d.drop_last());
    }
}

/// The number a tag carries after its `A`.
proof fn lemma_tag_value(n: nat)
    ensures
        crate::text::decimal_value(tag_text(n).skip(1)) == n,
{
    crate::text::lemma_decimal_digits(n);
    reveal_strlit("A");
    assert(tag_text(n).skip(1) =~= zero_pad(decimal(n), 4));
    if decimal(n).len() < 4 {
        let z = Seq::new((4 - decimal(n).len()) as nat, |i: int| '0');
        lemma_leading_zeros(z, decimal(n));
    }
}

/// Every command of a connection gets a tag of its own: different command
/// numbers never give the same tag.
pub proof fn law_tags_distinct(m: nat, n: nat)
    requires
        m != n,
    ensures
        tag_text(m) != tag_text(n),
{
    lemma_tag_value(m);
    lemma_tag_value(n);
}

/// Numbers the commands of one connection.
pub struct TagCounter {
    counter: u32,
}

impl TagCounter {
    /// How many tags have been handed out.
    pub closed spec fn count(&self) -> nat {
        self.counter as nat
    }

    /// A counter that has handed out no tag yet.
    pub fn new() -> (r: TagCounter)
        ensures
            r.count() == 0,
    {
        TagCounter { counter: 0 }
    }

    /// How many tags have been handed out (`next_tag` may be called while
    /// this is below `u32::MAX`).
    pub fn issued(&self) -> (r: u32)
        ensures
            r == self.count(),
    {
        self.counter
    }

    /// The next command tag: the counter goes up by one and its value is the tag.
    pub fn next_tag(&mut self) -> (r: String)
        requires
            old(self).count() < u32::MAX,
        ensures
            final(self).count() == old(self).count() + 1,
            r@ == tag_text(final(self).count()),
    {
        self.counter = self.counter + 1;
        format_tag(self.counter)
    }
}

/// The tag text for command number `n`.
pub fn format_tag(n: u32) -> (r: String)
    ensures
        r@ == tag_text(n as nat),
{
    let d = decimal_exec(n as u64);
    let mut v: Vec<char> = Vec::new();
    extend_str(&mut v, "A");
    let mut k = d.len();
    while k < 4
        invariant
            d@.len() <= k <= 4 || (k == d@.len() && k > 4),
            v@ == "A"@ + Seq::new((k - d@.len()) as nat, |i: int| '0'),
        decreases 4 - k,
    {
        let ghost before = v@;
        v.push('0');
        assert(v@ =~= "A"@ + Seq::new((k + 1 - d@.len()) as nat, |i: int| '0'));
        k += 1;
    }
    extend_chars(&mut v, &d);
    proof {
        if d@.len() >= 4 {
            assert(Seq::new(0, |i: int| '0') + d@ =~= d@);
        }
    }
    assert(v@ =~= tag_text(n as nat));
    string_of(&v)
}

// ───────────────────────── completions ─────────────────────────

/// How a line relates to the command tagged `tag`: `None` while it is not the
/// tagged completion, else whether it reports `OK` anywhere in the line.
pub open spec fn tagged_outcome(line: Seq<char>, tag: Seq<char>) -> Option<bool> {
    if has_prefix(line, tag) {
        Some(contains(line, "OK"@))
    } else {
        None
    }
}

/// Whether `line` completes the command tagged `tag`, and if so whether it succeeded.
pub fn tagged_outcome_exec(line: &str, tag: &str) -> (r: Option<bool>)
    ensures
        r == tagged_outcome(line@, tag@),
{
    let l = chars_of(line);
    if starts_with_str(&l, tag) {
        Some(contains_str(&l, "OK"))
    } else {
        None
    }
}

/// The server greeting accepts the connection (`* OK`).
pub fn greeting_ok(line: &str) -> (r: bool)
    ensures
        r == has_prefix(line@, "* OK"@),
{
    let l = chars_of(line);
    starts_with_str(&l, "* OK")
}

/// A continuation request (`+`).
pub fn is_continuation(line: &str) -> (r: bool)
    ensures
        r == has_prefix(line@, "+"@),
{
    let l = chars_of(line);
    starts_with_str(&l, "+")
}

/// An untagged `FETCH` response line: starts with `* ` and mentions `FETCH`.
pub open spec fn is_fetch_line(line: Seq<char>) -> bool {
    has_prefix(line, "* "@) && contains(line, "FETCH"@)
}

/// Executable `is_fetch_line`.
pub fn is_fetch_line_exec(line: &str) -> (r: bool)
    ensures
        r == is_fetch_line(line@),
{
    let l = chars_of(line);
    starts_with_str(&l, "* ") && contains_str(&l, "FETCH")
}

/// A tagged failure of `STORE 1:* +FLAGS` that only says the folder was empty.
pub open spec fn store_all_empty(line: Seq<char>) -> bool {
    contains(line, "no matching messages"@) || contains(line, "No matching"@)
}

/// Executable `store_all_empty`.
pub fn store_all_empty_exec(line: &str) -> (r: bool)
    ensures
        r == store_all_empty(line@),
{
    let l = chars_of(line);
    contains_str(&l, "no matching messages") || contains_str(&l, "No matching")
}

/// The response that ends IDLE: the trimmed line mentions ` OK`, ` NO` or ` BAD`.
pub open spec fn ends_idle(line: Seq<char>) -> bool {
    let t = trim(line);
    contains(t, " OK"@) || contains(t, " NO"@) || contains(t, " BAD"@)
}

/// Executable `ends_idle`.
pub fn ends_idle_exec(line: &str) -> (r: bool)
    ensures
        r == ends_idle(line@),
{
    let l = chars_of(line);
    let t = trim_exec(&l);
    contains_str(&t, " OK") || contains_str(&t, " NO") || contains_str(&t, " BAD")
}

// ───────────────────────── SELECT and literals ─────────────────────────

/// The message count an `EXISTS` line reports: the second word, when the line
/// mentions ` EXISTS` and that word is a number.
pub open spec fn exists_count(line: Seq<char>) -> Option<u32> {
    if contains(line, " EXISTS"@) && words(line).len() > 1 {
        parse_u32(words(line)[1])
    } else {
        None
    }
}

/// Executable `exists_count`.
pub fn exists_count_exec(line: &str) -> (r: Option<u32>)
    ensures
        r == exists_count(line@),
{
    let l = chars_of(line);
    if !contains_str(&l, " EXISTS") {
        return None;
    }
    let w = split_whitespace_exec(&l);
    if w.len() > 1 {
        assert(views(w@)[1] == w@[1]@);
        parse_u32_exec(&w[1])
    } else {
        None
    }
}

/// The line's literal announcement is well placed: when it has both a `{` and
/// a `}`, the first `}` does not come before the first `{`.
pub open spec fn literal_line_ok(line: Seq<char>) -> bool {
    match (find_char(line, '{'), find_char(line, '}')) {
        (Some(s), Some(e)) => s < e,
        _ => true,
    }
}

/// The size of the literal a line announces: the number between its first
/// `{` and its first `}`.
pub open spec fn literal_size(line: Seq<char>) -> Option<usize> {
    match (find_char(line, '{'), find_char(line, '}')) {
        (Some(s), Some(e)) => parse_usize(line.subrange(s + 1, e)),
        _ => None,
    }
}

/// Executable `literal_line_ok`.
pub fn literal_line_ok_exec(line: &str) -> (r: bool)
    ensures
        r == literal_line_ok(line@),
{
    let l = chars_of(line);
    match (find_char_exec(&l, '{'), find_char_exec(&l, '}')) {
        (Some(s), Some(e)) => s < e,
        _ => true,
    }
}

/// Executable `literal_size`.
pub fn literal_size_exec(line: &str) -> (r: Option<usize>)
    requires
        literal_line_ok(line@),
    ensures
        r == literal_size(line@),
{
    let l = chars_of(line);
    match (find_char_exec(&l, '{'), find_char_exec(&l, '}')) {
        (Some(s), Some(e)) => {
            proof {
                lemma_find_from(l@, seq!['}'], 0);
            }
            let inner = slice_of(&l, s + 1, e);
            parse_usize_exec(&inner)
        },
        _ => None,
    }
}

// ───────────────────────── APPENDUID ─────────────────────────

/// The UID an `[APPENDUID uidvalidity uid]` response code reports.
pub open spec fn append_uid(resp: Seq<char>) -> Option<u32> {
    match find(resp, "[APPENDUID "@) {
        Some(start) => {
            let rest = resp.skip(start + "[APPENDUID "@.len());
            match find_char(rest, ']') {
                Some(end) => {
                    let parts = words(rest.take(end));
                    if parts.len() == 2 {
                        parse_u32(parts[1])
                    } else {
                        None
                    }
                },
                None => None,
            }
        },
        None => None,
    }
}

/// Executable `append_uid`.
pub fn append_uid_exec(resp: &str) -> (r: Option<u32>)
    ensures
        r == append_uid(resp@),
{
    let l = chars_of(resp);
    let key = chars_of("[APPENDUID ");
    match find_str(&l, "[APPENDUID ") {
        Some(start) => {
            proof {
                lemma_find_from(l@, key@, 0);
            }
            let n = l.len();
            assert(start + key.len() <= n);
            let rest = slice_of(&l, start + key.len(), n);
            assert(rest@ =~= l@.skip(start + "[APPENDUID "@.len()));
            match find_char_exec(&rest, ']') {
                Some(end) => {
                    proof {
                        lemma_find_from(rest@, seq![']'], 0);
                    }
                    let head = slice_of(&rest, 0, end);
                    assert(head@ =~= rest@.take(end as int));
                    let parts = split_whitespace_exec(&head);
                    if parts.len() == 2 {
                        assert(views(parts@)[1] == parts@[1]@);
                        parse_u32_exec(&parts[1])
                    } else {
                        None
                    }
                },
                None => None,
            }
        },
        None => None,
    }
}

// ───────────────────────── STATUS ─────────────────────────

/// `s` without its trailing `)` characters.
pub open spec fn strip_close_parens(s: Seq<char>) -> Seq<char>
    decreases s.len(),
{
    if s.len() > 0 && s.last() == ')' {
        strip_close_parens(s.drop_last())
    } else {
        s
    }
}

/// The number a STATUS value word holds, `0` when it is not a number.
pub open spec fn status_value(w: Seq<char>) -> u32 {
    match parse_u32(strip_close_parens(w)) {
        Some(v) => v,
        None => 0,
    }
}

/// The `MESSAGES` and `UNSEEN` counts read from name/value pairs starting at
/// `i`; a later pair overrides an earlier one and other names are ignored.
pub open spec fn status_counts(parts: Seq<Seq<char>>, i: int, m: u32, u: u32) -> (u32, u32)
    decreases parts.len() - i,
{
    if i < 0 || i + 1 >= parts.len() {
        (m, u)
    } else {
        let v = status_value(parts[i + 1]);
        if parts[i] == "MESSAGES"@ {
            status_counts(parts, i + 2, v, u)
        } else if parts[i] == "UNSEEN"@ {
            status_counts(parts, i + 2, m, v)
        } else {
            status_counts(parts, i + 2, m, u)
        }
    }
}

/// The counts in the text after the last `(` of `s`, starting from `(m, u)`.
pub open spec fn counts_after_paren(s: Seq<char>, m: u32, u: u32) -> (u32, u32) {
    match rfind_char(s, '(') {
        Some(p) => status_counts(words(s.skip(p + 1)), 0, m, u),
        None => (m, u),
    }
}

/// The counts after one more line of a single STATUS command's response.
pub open spec fn status_line_update(line: Seq<char>, m: u32, u: u32) -> (u32, u32) {
    if has_prefix(line, "* STATUS "@) {
        counts_after_paren(line, m, u)
    } else {
        (m, u)
    }
}

/// The folder name and counts of a `* STATUS "name" (MESSAGES n UNSEEN m)` line.
pub open spec fn status_line(line: Seq<char>) -> Option<(Seq<char>, u32, u32)> {
    if !has_prefix(line, "* STATUS "@) {
        None
    } else {
        let after = line.skip("* STATUS "@.len() as int);
        if after.len() > 0 && after[0] == '"' {
            let inner = after.skip(1);
            match find_char(inner, '"') {
                Some(end) => {
                    let c = counts_after_paren(inner.skip(end + 1), 0, 0);
                    Some((inner.take(end), c.0, c.1))
                },
                None => None,
            }
        } else {
            match find_char(after, ' ') {
                Some(end) => {
                    let c = counts_after_paren(after.skip(end), 0, 0);
                    Some((after.take(end), c.0, c.1))
                },
                None => None,
            }
        }
    }
}

/// `s` without its trailing `)` characters.
fn strip_close_parens_exec(s: &[char]) -> (r: Vec<char>)
    ensures
        r@ == strip_close_parens(s@),
{
    let mut n = s.len();
    assert(s@.take(n as int) =~= s@);
    while n > 0 && s[n - 1] == ')'
        invariant
            n <= s@.len(),
            strip_close_parens(s@) == strip_close_parens(s@.take(n as int)),
        decreases n,
    {
        assert(s@.take(n as int).drop_last() =~= s@.take(n - 1));
        n -= 1;
    }
    slice_of(s, 0, n)
}

/// Executable `status_counts` from the start of the list.
fn status_counts_exec(parts: &Vec<Vec<char>>, m0: u32, u0: u32) -> (r: (u32, u32))
    ensures
        r == status_counts(views(parts@), 0, m0, u0),
{
    let ghost pv = views(parts@);
    let mut m = m0;
    let mut u = u0;
    let mut i: usize = 0;
    while i < parts.len() && parts.len() - i > 1
        invariant
            i <= parts@.len(),
            pv == views(parts@),
            status_counts(pv, 0, m0, u0) == status_counts(pv, i as int, m, u),
        decreases parts@.len() - i,
    {
        assert(pv[i as int] == parts@[i as int]@);
        assert(pv[i + 1] == parts@[i + 1]@);
        let stripped = strip_close_parens_exec(&parts[i + 1]);
        let v = match parse_u32_exec(&stripped) {
            Some(v) => v,
            None => 0,
        };
        if eq_str(&parts[i], "MESSAGES") {
            m = v;
        } else if eq_str(&parts[i], "UNSEEN") {
            u = v;
        }
        i += 2;
    }
    (m, u)
}

/// Executable `counts_after_paren`.
fn counts_after_paren_exec(s: &[char], m: u32, u: u32) -> (r: (u32, u32))
    ensures
        r == counts_after_paren(s@, m, u),
{
    match rfind_char_exec(s, '(') {
        Some(p) => {
            proof {
                lemma_rfind_bound(s@, '(');
            }
            let n = s.len();
            assert(p < n);
            let tail = slice_of(s, p + 1, n);
            assert(tail@ =~= s@.skip(p + 1));
            let w = split_whitespace_exec(&tail);
            status_counts_exec(&w, m, u)
        },
        None => (m, u),
    }
}

/// The last occurrence lies inside the sequence.
proof fn lemma_rfind_bound(s: Seq<char>, c: char)
    ensures
        rfind_char(s, c) matches Some(p) ==> 0 <= p < s.len() && s[p] == c,
    decreases s.len(),
{
    if s.len() > 0 && s.last() != c {
        lemma_rfind_bound(s.drop_last(), c);
    }
}

/// The counts after one more line of a single STATUS command's response.
pub fn status_line_update_exec(line: &str, m: u32, u: u32) -> (r: (u32, u32))
    ensures
        r == status_line_update(line@, m, u),
{
    let l = chars_of(line);
    if starts_with_str(&l, "* STATUS ") {
        counts_after_paren_exec(&l, m, u)
    } else {
        (m, u)
    }
}

/// Parse a STATUS response line: * STATUS "folder" (MESSAGES 42 UNSEEN 5)
pub fn parse_status_line(line: &str) -> (r: Option<(String, u32, u32)>)
    ensures
        match status_line(line@) {
            None => r is None,
            Some((n, m, u)) => r matches Some(t) && t.0@ == n && t.1 == m && t.2 == u,
        },
{
    let l = chars_of(line);
    if !starts_with_str(&l, "* STATUS ") {
        return None;
    }
    let key = chars_of("* STATUS ");
    let after = slice_of(&l, key.len(), l.len());
    assert(after@ =~= l@.skip("* STATUS "@.len() as int));
    if after.len() > 0 && after[0] == '"' {
        let inner = slice_of(&after, 1, after.len());
        assert(inner@ =~= after@.skip(1));
        match find_char_exec(&inner, '"') {
            Some(end) => {
                proof {
                    lemma_find_from(inner@, seq!['"'], 0);
                }
                let name = slice_of(&inner, 0, end);
                assert(name@ =~= inner@.take(end as int));
                let tail = slice_of(&inner, end + 1, inner.len());
                assert(tail@ =~= inner@.skip(end + 1));
                let (m, u) = counts_after_paren_exec(&tail, 0, 0);
                Some((string_of(&name), m, u))
            },
            None => None,
        }
    } else {
        match find_char_exec(&after, ' ') {
            Some(end) => {
                proof {
                    lemma_find_from(after@, seq![' '], 0);
                }
                let name = slice_of(&after, 0, end);
                assert(name@ =~= after@.take(end as int));
                let tail = slice_of(&after, end, after.len());
                assert(tail@ =~= after@.skip(end as int));
                let (m, u) = counts_after_paren_exec(&tail, 0, 0);
                Some((string_of(&name), m, u))
            },
            None => None,
        }
    }
}

/// Collects the counts of pipelined STATUS commands, one command at a time:
/// the last STATUS line seen before a command's tagged completion belongs to it.
pub struct StatusCollector {
    pending_messages: u32,
    pending_unseen: u32,
    got_status: bool,
}

impl StatusCollector {
    /// The counts of the latest STATUS line since the last completion, if any.
    pub closed spec fn pending(&self) -> Option<(u32, u32)> {
        if self.got_status {
            Some((self.pending_messages, self.pending_unseen))
        } else {
            None
        }
    }

    /// A collector that has seen no line.
    pub fn new() -> (r: StatusCollector)
        ensures
            r.pending() is None,
    {
        StatusCollector { pending_messages: 0, pending_unseen: 0, got_status: false }
    }

    /// Takes one response line while waiting for the completion tagged `tag`.
    /// Returns the command's counts when the line completes it: those of the
    /// last STATUS line since the previous completion, or `(0, 0)` without one.
    pub fn observe(&mut self, line: &str, tag: &str) -> (r: Option<(u32, u32)>)
        ensures
            ({
                let p = match status_line(line@) {
                    Some((_, m, u)) => if has_prefix(line@, "* STATUS "@) {
                        Some((m, u))
                    } else {
                        old(self).pending()
                    },
                    None => old(self).pending(),
                };
                if has_prefix(line@, tag@) {
                    &&& r == Some(
                        match p {
                            Some(c) => c,
                            None => (0u32, 0u32),
                        },
                    )
                    &&& final(self).pending() is None
                } else {
                    &&& r is None
                    &&& final(self).pending() == p
                }
            }),
    {
        let l = chars_of(line);
        if starts_with_str(&l, "* STATUS ") {
            if let Some((_, messages, unseen)) = parse_status_line(line) {
                self.pending_messages = messages;
                self.pending_unseen = unseen;
                self.got_status = true;
            }
        }
        if starts_with_str(&l, tag) {
            let result = if self.got_status {
                (self.pending_messages, self.pending_unseen)
            } else {
                (0, 0)
            };
            self.got_status = false;
            self.pending_messages = 0;
            self.pending_unseen = 0;
            Some(result)
        } else {
            None
        }
    }
}

// ───────────────────────── IDLE ─────────────────────────

/// Event returned from IDLE mode
#[derive(Debug, Clone, Copy, PartialEq, Eq, Structural)]
pub enum IdleEvent {
    /// New messages exist (reported count from EXISTS response)
    NewMessages(u32),
    /// A message was expunged (sequence number)
    Expunge(u32),
    /// Flags changed on a message
    FlagsChanged,
    /// IDLE timed out (for keepalive)
    Timeout,
    /// Server closed connection
    ServerBye,
}

/// The event one line received while idling reports, if any: `* BYE` ends the
/// session; `* n EXISTS`, `* n RECENT` (n > 0), `* n EXPUNGE` and `* n FETCH`
/// (keyword in any case) report changes; other lines report nothing.
pub open spec fn idle_event(line: Seq<char>) -> Option<IdleEvent> {
    let t = trim(line);
    if has_prefix(t, "* BYE"@) {
        Some(IdleEvent::ServerBye)
    } else if has_prefix(t, "* "@) {
        let parts = words(t.skip(2));
        if parts.len() >= 2 {
            match parse_u32(parts[0]) {
                Some(n) => {
                    let kw = uppercase(parts[1]);
                    if kw == "EXISTS"@ {
                        Some(IdleEvent::NewMessages(n))
                    } else if kw == "RECENT"@ {
                        if n > 0 {
                            Some(IdleEvent::NewMessages(n))
                        } else {
                            None
                        }
                    } else if kw == "EXPUNGE"@ {
                        Some(IdleEvent::Expunge(n))
                    } else if kw == "FETCH"@ {
                        Some(IdleEvent::FlagsChanged)
                    } else {
                        None
                    }
                },
                None => None,
            }
        } else {
            None
        }
    } else {
        None
    }
}

/// Executable `idle_event`.
pub fn idle_event_exec(line: &str) -> (r: Option<IdleEvent>)
    ensures
        r == idle_event(line@),
{
    let l = chars_of(line);
    let t = trim_exec(&l);
    if starts_with_str(&t, "* BYE") {
        return Some(IdleEvent::ServerBye);
    }
    if !starts_with_str(&t, "* ") {
        return None;
    }
    proof {
        reveal_strlit("* ");
    }
    let rest = slice_of(&t, 2, t.len());
    assert(rest@ =~= t@.skip(2));
    let parts = split_whitespace_exec(&rest);
    if parts.len() < 2 {
        return None;
    }
    assert(views(parts@)[0] == parts@[0]@);
    assert(views(parts@)[1] == parts@[1]@);
    let n = match parse_u32_exec(&parts[0]) {
        Some(n) => n,
        None => return None,
    };
    let kws = string_of(&parts[1]);
    let kw_up = to_uppercase(kws.as_str());
    let kw = chars_of(kw_up.as_str());
    if eq_str(&kw, "EXISTS") {
        Some(IdleEvent::NewMessages(n))
    } else if eq_str(&kw, "RECENT") {
        if n > 0 {
            Some(IdleEvent::NewMessages(n))
        } else {
            None
        }
    } else if eq_str(&kw, "EXPUNGE") {
        Some(IdleEvent::Expunge(n))
    } else if eq_str(&kw, "FETCH") {
        Some(IdleEvent::FlagsChanged)
    } else {
        None
    }
}

// ───────────────────────── sequencing ─────────────────────────

/// What the client does with a line read after `AUTHENTICATE XOAUTH2`.
#[derive(Debug, Clone, Copy, PartialEq, Eq, Structural)]
pub enum AuthStep {
    /// A challenge (`+ `): answer with an empty line, which makes the server
    /// send its error details.
    AnswerEmpty,
    /// The tagged reply reports OK.
    Succeeded,
    /// The tagged reply reports anything else.
    Failed,
    /// Some other line: read on.
    Wait,
}

/// The step for a line read while authenticating with the command `tag`.
pub open spec fn auth_step(line: Seq<char>, tag: Seq<char>) -> AuthStep {
    if has_prefix(line, "+ "@) {
        AuthStep::AnswerEmpty
    } else {
        match tagged_outcome(line, tag) {
            Some(true) => AuthStep::Succeeded,
            Some(false) => AuthStep::Failed,
            None => AuthStep::Wait,
        }
    }
}

/// Executable `auth_step`.
pub fn auth_step_exec(line: &str, tag: &str) -> (r: AuthStep)
    ensures
        r == auth_step(line@, tag@),
{
    let l = chars_of(line);
    if starts_with_str(&l, "+ ") {
        AuthStep::AnswerEmpty
    } else {
        match tagged_outcome_exec(line, tag) {
            Some(true) => AuthStep::Succeeded,
            Some(false) => AuthStep::Failed,
            None => AuthStep::Wait,
        }
    }
}

/// What ends the wait in IDLE after a read of `bytes_read` bytes giving
/// `line`: a closed connection (nothing read) is the server saying goodbye;
/// otherwise the event the line reports, if any (`None`: read on).
pub fn idle_step(bytes_read: usize, line: &str) -> (r: Option<IdleEvent>)
    ensures
        bytes_read == 0 ==> r == Some(IdleEvent::ServerBye),
        bytes_read > 0 ==> r == idle_event(line@),
{
    if bytes_read == 0 {
        Some(IdleEvent::ServerBye)
    } else {
        idle_event_exec(line)
    }
}

} // verus!
