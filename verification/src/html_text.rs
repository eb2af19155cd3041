//! Plain text from an HTML mail body, for views that cannot render HTML.
//!
//! Tags are dropped, `<style>` and `<script>` blocks skipped, a handful of
//! entities decoded, runs of whitespace collapsed to one space, a newline put
//! after closing block elements and line breaks, and runs of newlines
//! collapsed to one.
use vstd::prelude::*;
use crate::compose::{byte_len, utf8_len_exec};
use crate::text::{ascii_lower, ascii_lower_char, chars_of, is_ws, is_ws_exec, lowercase, occurs_at, occurs_at_exec, string_of, to_lowercase, trim, trim_exec, utf8_bytes};

verus! {

/// Every character is ASCII.
pub open spec fn is_ascii_text(s: Seq<char>) -> bool {
    forall|k: int| 0 <= k < s.len() ==> (#[trigger] s[k] as u32) < 128
}

/// A byte that continues a UTF-8 character.
pub open spec fn continuation_byte(b: u8) -> bool {
    0x80 <= b && b < 0xC0
}

/// `str::is_char_boundary` on the bytes of a text: position `p` is the start,
/// the end, or a byte that starts a character.
pub open spec fn char_boundary(lb: Seq<u8>, p: int) -> bool {
    p == 0 || p == lb.len() || (0 < p < lb.len() && !continuation_byte(lb[p]))
}

/// The ASCII text `pat` occurs in the bytes `lb` at position `p`.
pub open spec fn bytes_at(lb: Seq<u8>, pat: Seq<char>, p: int) -> bool {
    &&& 0 <= p
    &&& p + pat.len() <= lb.len()
    &&& forall|k: int| 0 <= k < pat.len() ==> lb[p + k] as u32 == #[trigger] pat[k] as u32
}

/// The ASCII text `pat` occurs somewhere in the bytes `lb`.
pub open spec fn bytes_contain(lb: Seq<u8>, pat: Seq<char>) -> bool {
    exists|j: int| bytes_at(lb, pat, j)
}

/// Where the window before the `>` at byte `p` starts: ten bytes back, or
/// at the start.
pub open spec fn window_start(p: int) -> int {
    if p >= 10 { p - 10 } else { 0 }
}

/// The ten bytes before position `p` and the one at it.
pub open spec fn window_before(lb: Seq<u8>, p: int) -> Seq<u8> {
    lb.subrange(window_start(p), p + 1)
}

/// The closing `>` at byte `p` ends a block element or a line break.
pub open spec fn ends_block(lb: Seq<u8>, p: int) -> bool {
    let w = window_before(lb, p);
    ||| bytes_contain(w, "</p>"@)
    ||| bytes_contain(w, "</div>"@)
    ||| bytes_contain(w, "</br>"@)
    ||| bytes_contain(w, "<br>"@)
    ||| bytes_contain(w, "<br/>"@)
    ||| bytes_contain(w, "<br />"@)
    ||| bytes_contain(w, "</h1>"@)
    ||| bytes_contain(w, "</h2>"@)
    ||| bytes_contain(w, "</h3>"@)
    ||| bytes_contain(w, "</li>"@)
    ||| bytes_contain(w, "</tr>"@)
}

/// The entity that starts after the `&` at `i - 1`: the character it
/// stands for and how many characters it takes after the `&`.
pub open spec fn entity_at(h: Seq<char>, i: int) -> Option<(char, nat)> {
    if occurs_at(h, "nbsp;"@, i) {
        Some((' ', 5))
    } else if occurs_at(h, "lt;"@, i) {
        Some(('<', 3))
    } else if occurs_at(h, "gt;"@, i) {
        Some(('>', 3))
    } else if occurs_at(h, "amp;"@, i) {
        Some(('&', 4))
    } else if occurs_at(h, "quot;"@, i) {
        Some(('"', 5))
    } else if occurs_at(h, "apos;"@, i) {
        Some(('\'', 5))
    } else if occurs_at(h, "#39;"@, i) {
        Some(('\'', 4))
    } else {
        None
    }
}

/// Whether a style block is open after looking at byte `p` of the
/// lower-cased text.
pub open spec fn style_after(lb: Seq<u8>, p: int, tag: bool, style: bool, script: bool) -> bool {
    if !tag && bytes_at(lb, "<style"@, p) {
        true
    } else if !tag && bytes_at(lb, "<script"@, p) {
        style
    } else if style && bytes_at(lb, "</style"@, p) {
        false
    } else {
        style
    }
}

/// Whether a script block is open after looking at byte `p` of the
/// lower-cased text.
pub open spec fn script_after(lb: Seq<u8>, p: int, tag: bool, style: bool, script: bool) -> bool {
    if !tag && bytes_at(lb, "<style"@, p) {
        script
    } else if !tag && bytes_at(lb, "<script"@, p) {
        true
    } else if style && bytes_at(lb, "</style"@, p) {
        script
    } else if script && bytes_at(lb, "</script"@, p) {
        false
    } else {
        script
    }
}

/// The text gathered from character `i` on, given the bytes `lb` of the
/// lower-cased text and the state there: inside a tag, a style block, a
/// script block, whether the last character written was a space, and what
/// was written so far. The lower-cased text is read at `p`, the byte
/// position of character `i` in the text itself: when no tag is open, or a
/// style or script block is, at `p` (which must be a character boundary of
/// the lower-cased text), and at a `>` from the fifth byte on, over the
/// window from `p - 10` (or the start) to `p + 1` (both boundaries too).
/// `None` when a boundary fails: there the text cannot be read.
pub open spec fn strip_from(h: Seq<char>, lb: Seq<u8>, i: int, tag: bool, style: bool, script: bool, last_space: bool, out: Seq<char>) -> Option<Seq<char>>
    decreases h.len() - i,
{
    if i < 0 || i >= h.len() {
        Some(out)
    } else {
        let p = byte_len(h.take(i)) as int;
        if (!tag || style || script) && !char_boundary(lb, p) {
            None
        } else {
            let st = style_after(lb, p, tag, style, script);
            let sc = script_after(lb, p, tag, style, script);
            let c = h[i];
            if c == '<' {
                strip_from(h, lb, i + 1, true, st, sc, last_space, out)
            } else if c == '>' {
                if p >= 4 && !(char_boundary(lb, window_start(p)) && char_boundary(lb, p + 1)) {
                    None
                } else if p >= 4 && ends_block(lb, p) && !(out.len() > 0 && out.last() == '\n') {
                    strip_from(h, lb, i + 1, false, st, sc, true, out.push('\n'))
                } else {
                    strip_from(h, lb, i + 1, false, st, sc, last_space, out)
                }
            } else if !tag && !st && !sc {
                if c == '&' {
                    match entity_at(h, i + 1) {
                        Some((e, k)) => if i + 1 + k <= h.len() {
                            strip_from(h, lb, i + 1 + k, tag, st, sc, last_space, out.push(e))
                        } else {
                            Some(out.push(e))
                        },
                        None => strip_from(h, lb, i + 1, tag, st, sc, last_space, out.push('&')),
                    }
                } else if is_ws(c) {
                    if !last_space {
                        strip_from(h, lb, i + 1, tag, st, sc, true, out.push(' '))
                    } else {
                        strip_from(h, lb, i + 1, tag, st, sc, true, out)
                    }
                } else {
                    strip_from(h, lb, i + 1, tag, st, sc, false, out.push(c))
                }
            } else {
                strip_from(h, lb, i + 1, tag, st, sc, last_space, out)
            }
        }
    }
}

/// `s` with runs of newlines reduced to one and newlines at the start
/// dropped: a newline is kept only right after a kept character other than
/// a newline.
pub open spec fn collapse_newlines(s: Seq<char>) -> Seq<char>
    decreases s.len(),
{
    if s.len() == 0 {
        s
    } else {
        let p = collapse_newlines(s.drop_last());
        if s.last() == '\n' {
            if p.len() > 0 && p.last() != '\n' {
                p.push('\n')
            } else {
                p
            }
        } else {
            p.push(s.last())
        }
    }
}

/// The plain text shown for an HTML body, given the bytes of its
/// lower-cased copy; `None` where the positions of the text itself cannot be read in
/// that copy.
pub open spec fn html_display_text(h: Seq<char>, lb: Seq<u8>) -> Option<Seq<char>> {
    match strip_from(h, lb, 0, false, false, false, true, Seq::empty()) {
        Some(o) => Some(trim(collapse_newlines(o))),
        None => None,
    }
}

/// The bytes of the text lower-cased by `str::to_lowercase`.
pub open spec fn lower_bytes(h: Seq<char>) -> Seq<u8> {
    utf8_bytes(lowercase(h))
}

fn occurs_str(h: &[char], p: &str, i: usize) -> (r: bool)
    ensures
        r == occurs_at(h@, p@, i as int),
{
    let pc = chars_of(p);
    occurs_at_exec(h, &pc, i)
}

fn entity_at_exec(h: &[char], i: usize) -> (r: Option<(char, usize)>)
    ensures
        match r {
            Some((e, k)) => entity_at(h@, i as int) == Some((e, k as nat)) && i + k <= h@.len(),
            None => entity_at(h@, i as int) is None,
        },
{
    proof {
        reveal_strlit("nbsp;");
        reveal_strlit("lt;");
        reveal_strlit("gt;");
        reveal_strlit("amp;");
        reveal_strlit("quot;");
        reveal_strlit("apos;");
        reveal_strlit("#39;");
    }
    if occurs_str(h, "nbsp;", i) {
        Some((' ', 5))
    } else if occurs_str(h, "lt;", i) {
        Some(('<', 3))
    } else if occurs_str(h, "gt;", i) {
        Some(('>', 3))
    } else if occurs_str(h, "amp;", i) {
        Some(('&', 4))
    } else if occurs_str(h, "quot;", i) {
        Some(('"', 5))
    } else if occurs_str(h, "apos;", i) {
        Some(('\'', 5))
    } else if occurs_str(h, "#39;", i) {
        Some(('\'', 4))
    } else {
        None
    }
}

fn collapse_newlines_exec(s: &[char]) -> (r: Vec<char>)
    ensures
        r@ == collapse_newlines(s@),
{
    let mut out: Vec<char> = Vec::new();
    let mut last_was_newline = true;
    let mut i: usize = 0;
    while i < s.len()
        invariant
            i <= s@.len(),
            out@ == collapse_newlines(s@.take(i as int)),
            last_was_newline == (out@.len() == 0 || out@.last() == '\n'),
        decreases s@.len() - i,
    {
        proof {
            assert(s@.take(i + 1).drop_last() =~= s@.take(i as int));
        }
        let c = s[i];
        if c == '\n' {
            if !last_was_newline {
                out.push('\n');
            }
        } else {
            out.push(c);
        }
        last_was_newline = out.len() == 0 || out[out.len() - 1] == '\n';
        i += 1;
    }
    proof {
        assert(s@.take(i as int) =~= s@);
    }
    out
}

fn char_boundary_exec(lb: &[u8], p: usize) -> (r: bool)
    ensures
        r == char_boundary(lb@, p as int),
{
    p == 0 || p == lb.len() || (p < lb.len() && !(0x80u8 <= lb[p] && lb[p] < 0xC0u8))
}

fn bytes_at_exec(lb: &[u8], pat: &str, p: usize) -> (r: bool)
    ensures
        r == bytes_at(lb@, pat@, p as int),
{
    let pc = chars_of(pat);
    let n = lb.len();
    if p > n || pc.len() > n - p {
        return false;
    }
    let mut k: usize = 0;
    while k < pc.len()
        invariant
            n == lb@.len(),
            pc@ == pat@,
            p + pc@.len() <= lb@.len(),
            k <= pc@.len(),
            forall|j: int| 0 <= j < k ==> lb@[p + j] as u32 == #[trigger] pc@[j] as u32,
        decreases pc@.len() - k,
    {
        if lb[p + k] as u32 != pc[k] as u32 {
            return false;
        }
        k += 1;
    }
    true
}

fn bytes_contain_exec(w: &[u8], pat: &str) -> (r: bool)
    ensures
        r == bytes_contain(w@, pat@),
{
    let n = w.len();
    let mut j: usize = 0;
    while j < n
        invariant
            n == w@.len(),
            j <= n,
            forall|t: int| 0 <= t < j ==> !bytes_at(w@, pat@, t),
        decreases n - j,
    {
        if bytes_at_exec(w, pat, j) {
            return true;
        }
        j += 1;
    }
    if bytes_at_exec(w, pat, n) {
        return true;
    }
    assert forall|t: int| !bytes_at(w@, pat@, t) by {
        if 0 <= t < n {
        } else if t > n {
        }
    }
    false
}

fn window_exec(lb: &[u8], p: usize) -> (r: Vec<u8>)
    requires
        p + 1 <= lb@.len(),
    ensures
        r@ == window_before(lb@, p as int),
{
    let start: usize = if p >= 10 { p - 10 } else { 0 };
    let mut r: Vec<u8> = Vec::new();
    let mut k = start;
    while k <= p
        invariant
            start <= k <= p + 1,
            p + 1 <= lb@.len(),
            start == window_start(p as int),
            r@ == lb@.subrange(start as int, k as int),
        decreases p + 1 - k,
    {
        r.push(lb[k]);
        assert(lb@.subrange(start as int, k + 1) =~= lb@.subrange(start as int, k as int).push(lb@[k as int]));
        k += 1;
    }
    r
}

fn ends_block_exec(lb: &[u8], p: usize) -> (r: bool)
    requires
        p + 1 <= lb@.len(),
    ensures
        r == ends_block(lb@, p as int),
{
    let w = window_exec(lb, p);
    bytes_contain_exec(&w, "</p>") || bytes_contain_exec(&w, "</div>") || bytes_contain_exec(&w, "</br>")
        || bytes_contain_exec(&w, "<br>") || bytes_contain_exec(&w, "<br/>") || bytes_contain_exec(&w, "<br />")
        || bytes_contain_exec(&w, "</h1>") || bytes_contain_exec(&w, "</h2>") || bytes_contain_exec(&w, "</h3>")
        || bytes_contain_exec(&w, "</li>") || bytes_contain_exec(&w, "</tr>")
}

proof fn lemma_byte_len_step(h: Seq<char>, i: int)
    requires
        0 <= i < h.len(),
    ensures
        byte_len(h.take(i + 1)) == byte_len(h.take(i)) + crate::compose::utf8_len(h[i]),
        byte_len(h.take(i + 1)) <= byte_len(h),
{
    assert(h.take(i + 1).drop_last() =~= h.take(i));
    crate::compose::lemma_byte_len_prefix(h, i + 1);
}

/// The text gathered from `h` with the lower-cased bytes `lb`, or `None`
/// where a position cannot be read.
fn strip_exec(h: &[char], lb: &[u8]) -> (r: Option<Vec<char>>)
    requires
        byte_len(h@) <= usize::MAX,
    ensures
        match strip_from(h@, lb@, 0, false, false, false, true, Seq::empty()) {
            Some(o) => r matches Some(v) && v@ == o,
            None => r is None,
        },
{
    let n = h.len();
    let mut out: Vec<char> = Vec::new();
    let mut tag = false;
    let mut style = false;
    let mut script = false;
    let mut last_space = true;
    let mut i: usize = 0;
    let mut pos: usize = 0;
    proof {
        assert(h@.take(0) =~= Seq::<char>::empty());
    }
    while i < n
        invariant
            n == h@.len(),
            i <= n,
            pos == byte_len(h@.take(i as int)),
            byte_len(h@) <= usize::MAX,
            strip_from(h@, lb@, i as int, tag, style, script, last_space, out@)
                == strip_from(h@, lb@, 0, false, false, false, true, Seq::empty()),
        decreases n - i,
    {
        proof {
            crate::compose::lemma_byte_len_prefix(h@, i as int);
        }
        if (!tag || style || script) && !char_boundary_exec(lb, pos) {
            return None;
        }
        let is_style_open = !tag && bytes_at_exec(lb, "<style", pos);
        let is_script_open = !tag && bytes_at_exec(lb, "<script", pos);
        let is_style_close = style && bytes_at_exec(lb, "</style", pos);
        let is_script_close = script && bytes_at_exec(lb, "</script", pos);
        if is_style_open {
            style = true;
        } else if is_script_open {
            script = true;
        } else if is_style_close {
            style = false;
        } else if is_script_close {
            script = false;
        }
        let c = h[i];
        proof {
            lemma_byte_len_step(h@, i as int);
        }
        let step = utf8_len_exec(c);
        if c == '<' {
            tag = true;
            i += 1;
            pos += step;
        } else if c == '>' {
            tag = false;
            if pos >= 4 {
                let start: usize = if pos >= 10 { pos - 10 } else { 0 };
                if !(char_boundary_exec(lb, start) && pos < lb.len() && char_boundary_exec(lb, pos + 1)) {
                    return None;
                }
                if ends_block_exec(lb, pos) && !(out.len() > 0 && out[out.len() - 1] == '\n') {
                    out.push('\n');
                    last_space = true;
                }
            }
            i += 1;
            pos += step;
        } else if !tag && !style && !script {
            if c == '&' {
                match entity_at_exec(h, i + 1) {
                    Some((e, k)) => {
                        out.push(e);
                        let stop = i + 1 + k;
                        i += 1;
                        pos += step;
                        while i < stop
                            invariant
                                stop <= n,
                                n == h@.len(),
                                i <= stop,
                                pos == byte_len(h@.take(i as int)),
                                byte_len(h@) <= usize::MAX,
                            decreases stop - i,
                        {
                            proof {
                                lemma_byte_len_step(h@, i as int);
                            }
                            pos += utf8_len_exec(h[i]);
                            i += 1;
                        }
                    },
                    None => {
                        out.push('&');
                        i += 1;
                        pos += step;
                    },
                }
            } else if is_ws_exec(c) {
                if !last_space {
                    out.push(' ');
                }
                last_space = true;
                i += 1;
                pos += step;
            } else {
                out.push(c);
                last_space = false;
                i += 1;
                pos += step;
            }
        } else {
            i += 1;
            pos += step;
        }
    }
    Some(out)
}

proof fn lemma_byte_len_encoded(s: Seq<char>)
    ensures
        byte_len(s) == utf8_bytes(s).len(),
    decreases s.len(),
{
    if s.len() > 0 {
        lemma_byte_len_encoded(s.drop_first());
        lemma_byte_len_front(s);
        let v = s[0] as u32;
        vstd::utf8::char_is_scalar(s[0]);
        assert(utf8_bytes(s) == vstd::utf8::encode_scalar(v) + utf8_bytes(s.drop_first()));
        if v < 0x80 {
            assert(vstd::utf8::has_width_1_encoding(v));
        } else if v < 0x800 {
            assert(vstd::utf8::has_width_2_encoding(v));
        } else if v < 0x10000 {
            assert(vstd::utf8::has_width_3_encoding(v));
        } else {
            assert(!vstd::utf8::has_width_1_encoding(v) && !vstd::utf8::has_width_2_encoding(v)
                && !vstd::utf8::has_width_3_encoding(v));
        }
        assert(vstd::utf8::encode_scalar(v).len() == crate::compose::utf8_len(s[0]));
    }
}

proof fn lemma_byte_len_front(s: Seq<char>)
    requires
        s.len() > 0,
    ensures
        byte_len(s) == crate::compose::utf8_len(s[0]) + byte_len(s.drop_first()),
    decreases s.len(),
{
    if s.len() > 1 {
        lemma_byte_len_front(s.drop_last());
        assert(s.drop_last().drop_first() =~= s.drop_first().drop_last());
        assert(s.drop_last()[0] == s[0]);
    } else {
        assert(s.drop_last() =~= Seq::<char>::empty());
        assert(s.drop_first() =~= Seq::<char>::empty());
    }
}

fn strip_inner(html: &str) -> (r: Option<String>)
    ensures
        match html_display_text(html@, lower_bytes(html@)) {
            Some(t) => r matches Some(s) && s@ == t,
            None => r is None,
        },
        vstd::utf8::is_ascii_chars(html@) ==> lower_bytes(html@) == utf8_bytes(ascii_lower(html@)),
{
    let h = chars_of(html);
    let lower = to_lowercase(html);
    let lb = lower.as_str().as_bytes();
    proof {
        lemma_byte_len_encoded(html@);
    }
    let hb = html.as_bytes();
    let hn = hb.len();
    assert(hb@ == utf8_bytes(html@));
    assert(byte_len(h@) == hn);
    match strip_exec(&h, lb) {
        Some(out) => {
            let collapsed = collapse_newlines_exec(&out);
            let t = trim_exec(&collapsed);
            Some(string_of(&t))
        },
        None => None,
    }
}

/// Strip HTML tags and convert to plain text for display. The text is read
/// at byte positions of the text itself in its lower-cased copy; those
/// positions must fall between characters of that copy.
pub fn strip_html_for_display(html: &str) -> (r: String)
    requires
        html_display_text(html@, lower_bytes(html@)) is Some,
    ensures
        Some(r@) == html_display_text(html@, lower_bytes(html@)),
{
    let r = strip_inner(html);
    r.unwrap()
}

/// Strip HTML tags and convert to plain text for display, or `None` where
/// the text cannot be read at the byte positions the stripper uses (a
/// position of the text that falls inside a character of its lower-cased
/// copy, where `strip_html_for_display` may not be called).
pub fn strip_html_checked(html: &str) -> (r: Option<String>)
    ensures
        match html_display_text(html@, lower_bytes(html@)) {
            Some(t) => r matches Some(s) && s@ == t,
            None => r is None,
        },
        vstd::utf8::is_ascii_chars(html@) ==> (r matches Some(s)
            && Some(s@) == html_display_text(html@, utf8_bytes(ascii_lower(html@)))),
{
    proof {
        if vstd::utf8::is_ascii_chars(html@) {
            lemma_ascii_readable(html@, 0, false, false, false, true, Seq::empty());
        }
    }
    match strip_inner(html) {
        Some(_) => Some(strip_html_for_display(html)),
        None => None,
    }
}

// ───────────────────────── ASCII text ─────────────────────────

proof fn lemma_ascii_byte_len(h: Seq<char>, i: int)
    requires
        vstd::utf8::is_ascii_chars(h),
        0 <= i <= h.len(),
    ensures
        byte_len(h.take(i)) == i,
    decreases i,
{
    if i > 0 {
        lemma_ascii_byte_len(h, i - 1);
        assert(h.take(i).drop_last() =~= h.take(i - 1));
        assert(h.take(i).last() == h[i - 1]);
    } else {
        assert(h.take(0) =~= Seq::<char>::empty());
    }
}

/// The bytes of ASCII text lower-cased ASCII-wise: one ASCII byte per
/// character.
proof fn lemma_ascii_lower_bytes(h: Seq<char>)
    requires
        vstd::utf8::is_ascii_chars(h),
    ensures
        utf8_bytes(ascii_lower(h)).len() == h.len(),
        forall|k: int| 0 <= k < h.len() ==> (#[trigger] utf8_bytes(ascii_lower(h))[k]) as u32 == ascii_lower_char(h[k]) as u32
            && utf8_bytes(ascii_lower(h))[k] < 0x80,
{
    let l = ascii_lower(h);
    assert forall|k: int| 0 <= k < l.len() implies '\0' <= #[trigger] l[k] <= '\u{7f}' by {
        assert(l[k] == ascii_lower_char(h[k]));
        assert('\0' <= h[k] <= '\u{7f}');
    }
    assert(vstd::utf8::is_ascii_chars(l));
    vstd::utf8::is_ascii_chars_encode_utf8(l);
    assert forall|k: int| 0 <= k < h.len() implies (#[trigger] utf8_bytes(l)[k]) as u32 == ascii_lower_char(h[k]) as u32
        && utf8_bytes(l)[k] < 0x80 by {
        assert(l[k] == ascii_lower_char(h[k]));
        assert('\0' <= h[k] <= '\u{7f}');
        assert(l[k] as u8 == utf8_bytes(l)[k]);
    }
}

/// On ASCII text every position the stripper reads is a character
/// boundary of the lower-cased copy, so it never gives `None`.
proof fn lemma_ascii_readable(h: Seq<char>, i: int, tag: bool, style: bool, script: bool, last_space: bool, out: Seq<char>)
    requires
        vstd::utf8::is_ascii_chars(h),
        0 <= i,
    ensures
        strip_from(h, utf8_bytes(ascii_lower(h)), i, tag, style, script, last_space, out) is Some,
    decreases h.len() - i,
{
    let lb = utf8_bytes(ascii_lower(h));
    if i < h.len() {
        lemma_ascii_byte_len(h, i);
        lemma_ascii_lower_bytes(h);
        let p = i;
        assert(char_boundary(lb, p)) by {
            if 0 < p < lb.len() {
                assert(lb[p] < 0x80);
            }
        }
        assert(char_boundary(lb, window_start(p))) by {
            let q = window_start(p);
            if 0 < q < lb.len() {
                assert(lb[q] < 0x80);
            }
        }
        assert(char_boundary(lb, p + 1)) by {
            if 0 < p + 1 < lb.len() {
                assert(lb[p + 1] < 0x80);
            }
        }
        let st = style_after(lb, p, tag, style, script);
        let sc = script_after(lb, p, tag, style, script);
        let c = h[i];
        if c == '<' {
            lemma_ascii_readable(h, i + 1, true, st, sc, last_space, out);
        } else if c == '>' {
            lemma_ascii_readable(h, i + 1, false, st, sc, true, out.push('\n'));
            lemma_ascii_readable(h, i + 1, false, st, sc, last_space, out);
        } else if !tag && !st && !sc {
            if c == '&' {
                match entity_at(h, i + 1) {
                    Some((e, k)) => {
                        if i + 1 + k <= h.len() {
                            lemma_ascii_readable(h, i + 1 + k, tag, st, sc, last_space, out.push(e));
                        }
                    },
                    None => lemma_ascii_readable(h, i + 1, tag, st, sc, last_space, out.push('&')),
                }
            } else if is_ws(c) {
                lemma_ascii_readable(h, i + 1, tag, st, sc, true, out.push(' '));
                lemma_ascii_readable(h, i + 1, tag, st, sc, true, out);
            } else {
                lemma_ascii_readable(h, i + 1, tag, st, sc, false, out.push(c));
            }
        } else {
            lemma_ascii_readable(h, i + 1, tag, st, sc, last_space, out);
        }
    }
}

/// Plain text: ASCII, free of `<`, `>` and `&`, without whitespace at either
/// end, and whose only whitespace is single spaces.
pub open spec fn plain_text(h: Seq<char>) -> bool {
    &&& vstd::utf8::is_ascii_chars(h)
    &&& forall|k: int| 0 <= k < h.len() ==> #[trigger] h[k] != '<' && h[k] != '>' && h[k] != '&'
    &&& forall|k: int| 0 <= k < h.len() ==> is_ws(#[trigger] h[k]) ==> h[k] == ' '
    &&& forall|k: int| 0 <= k < h.len() - 1 ==> !(#[trigger] h[k] == ' ' && h[k + 1] == ' ')
    &&& h.len() > 0 ==> !is_ws(h[0]) && !is_ws(h[h.len() - 1])
}

proof fn lemma_plain_from(h: Seq<char>, i: int, last_space: bool)
    requires
        plain_text(h),
        0 <= i <= h.len(),
        last_space == (i == 0 || h[i - 1] == ' '),
    ensures
        strip_from(h, utf8_bytes(ascii_lower(h)), i, false, false, false, last_space, h.take(i)) == Some(h),
    decreases h.len() - i,
{
    let lb = utf8_bytes(ascii_lower(h));
    if i == h.len() {
        assert(h.take(i) =~= h);
    } else {
        lemma_ascii_byte_len(h, i);
        lemma_ascii_lower_bytes(h);
        let p = i;
        assert(char_boundary(lb, p)) by {
            if 0 < p < lb.len() {
                assert(lb[p] < 0x80);
            }
        }
        let c = h[i];
        assert(c != '<' && c != '>' && c != '&');
        assert(lb[p] as u32 != '<' as u32) by {
            assert(lb[p] as u32 == ascii_lower_char(c) as u32);
        }
        reveal_strlit("<style");
        reveal_strlit("<script");
        assert(!bytes_at(lb, "<style"@, p)) by {
            if bytes_at(lb, "<style"@, p) {
                assert(lb[p + 0] as u32 == "<style"@[0] as u32);
            }
        }
        assert(!bytes_at(lb, "<script"@, p)) by {
            if bytes_at(lb, "<script"@, p) {
                assert(lb[p + 0] as u32 == "<script"@[0] as u32);
            }
        }
        assert(h.take(i + 1) =~= h.take(i).push(c));
        if is_ws(c) {
            assert(c == ' ');
            assert(i > 0);
            assert(h[i - 1] != ' ') by {
                assert(!(h[i - 1] == ' ' && h[i] == ' '));
            }
            lemma_plain_from(h, i + 1, true);
        } else {
            lemma_plain_from(h, i + 1, false);
        }
    }
}

proof fn lemma_collapse_no_newline(s: Seq<char>)
    requires
        forall|k: int| 0 <= k < s.len() ==> #[trigger] s[k] != '\n',
    ensures
        collapse_newlines(s) == s,
    decreases s.len(),
{
    if s.len() > 0 {
        lemma_collapse_no_newline(s.drop_last());
        assert(s.drop_last().push(s.last()) =~= s);
    }
}

/// Plain text passes through the stripper unchanged: ASCII text without
/// `<`, `>` or `&`, trimmed and single-spaced, reads the same once stripped
/// (its lower-cased copy being the ASCII lower-casing that
/// `str::to_lowercase` gives ASCII text).
pub proof fn law_plain_text_unchanged(h: Seq<char>)
    requires
        plain_text(h),
    ensures
        html_display_text(h, utf8_bytes(ascii_lower(h))) == Some(h),
{
    assert(h.take(0) =~= Seq::<char>::empty());
    lemma_plain_from(h, 0, true);
    assert forall|k: int| 0 <= k < h.len() implies #[trigger] h[k] != '\n' by {
        if h[k] == '\n' {
            assert(is_ws(h[k]));
        }
    }
    lemma_collapse_no_newline(h);
    if h.len() > 0 {
        assert(crate::text::trim_start(h) == h);
        assert(crate::text::trim_end(h) == h);
    } else {
        assert(crate::text::trim_start(h) == h);
    }
}


// ───────────────────────── list items ─────────────────────────

/// A `<` opens a tag and, unless the next character is an `s`, no style or
/// script block.
proof fn lemma_open_tag(h: Seq<char>, s: int, ls: bool, out: Seq<char>)
    requires
        vstd::utf8::is_ascii_chars(h),
        0 <= s,
        s + 1 < h.len(),
        h[s] == '<',
        ascii_lower_char(h[s + 1]) != 's',
    ensures
        strip_from(h, utf8_bytes(ascii_lower(h)), s, false, false, false, ls, out) == strip_from(
            h,
            utf8_bytes(ascii_lower(h)),
            s + 1,
            true,
            false,
            false,
            ls,
            out,
        ),
{
    let lb = utf8_bytes(ascii_lower(h));
    lemma_ascii_byte_len(h, s);
    lemma_ascii_lower_bytes(h);
    assert(char_boundary(lb, s)) by {
        if 0 < s < lb.len() {
            assert(lb[s] < 0x80);
        }
    }
    reveal_strlit("<style");
    reveal_strlit("<script");
    assert(lb[s + 1] as u32 == ascii_lower_char(h[s + 1]) as u32);
    assert(!bytes_at(lb, "<style"@, s)) by {
        if bytes_at(lb, "<style"@, s) {
            assert(lb[s + 1] as u32 == "<style"@[1] as u32);
        }
    }
    assert(!bytes_at(lb, "<script"@, s)) by {
        if bytes_at(lb, "<script"@, s) {
            assert(lb[s + 1] as u32 == "<script"@[1] as u32);
        }
    }
}

/// Inside a tag, outside style and script blocks, characters other than
/// `<` and `>` are skipped.
proof fn lemma_tag_body(h: Seq<char>, lb: Seq<u8>, i: int, e: int, ls: bool, out: Seq<char>)
    requires
        0 <= i <= e < h.len(),
        forall|k: int| i <= k < e ==> #[trigger] h[k] != '<' && h[k] != '>',
    ensures
        strip_from(h, lb, i, true, false, false, ls, out) == strip_from(h, lb, e, true, false, false, ls, out),
    decreases e - i,
{
    if i < e {
        lemma_tag_body(h, lb, i + 1, e, ls, out);
    }
}

/// A `>` closing a tag where no line is ended (too early in the text, or
/// right after a line end) only closes the tag.
proof fn lemma_close_tag_plain(h: Seq<char>, e: int, ls: bool, out: Seq<char>)
    requires
        vstd::utf8::is_ascii_chars(h),
        0 <= e < h.len(),
        h[e] == '>',
        e < 4 || (out.len() > 0 && out.last() == '\n'),
    ensures
        strip_from(h, utf8_bytes(ascii_lower(h)), e, true, false, false, ls, out) == strip_from(
            h,
            utf8_bytes(ascii_lower(h)),
            e + 1,
            false,
            false,
            false,
            ls,
            out,
        ),
{
    let lb = utf8_bytes(ascii_lower(h));
    lemma_ascii_byte_len(h, e);
    lemma_ascii_lower_bytes(h);
    assert(char_boundary(lb, window_start(e))) by {
        let q = window_start(e);
        if 0 < q < lb.len() {
            assert(lb[q] < 0x80);
        }
    }
    assert(char_boundary(lb, e + 1)) by {
        if 0 < e + 1 < lb.len() {
            assert(lb[e + 1] < 0x80);
        }
    }
}

/// The tags after which the text continues on a new line: closing
/// paragraph, division, heading (levels one to three), list item and table
/// row tags, and the line break tags.
pub open spec fn line_ending_tag(c: Seq<char>) -> bool {
    ||| c == "</p>"@
    ||| c == "</div>"@
    ||| c == "</br>"@
    ||| c == "<br>"@
    ||| c == "<br/>"@
    ||| c == "<br />"@
    ||| c == "</h1>"@
    ||| c == "</h2>"@
    ||| c == "</h3>"@
    ||| c == "</li>"@
    ||| c == "</tr>"@
}

proof fn lemma_line_tag(c: Seq<char>)
    requires
        line_ending_tag(c),
    ensures
        4 <= c.len() <= 6,
        c[0] == '<',
        c[c.len() - 1] == '>',
        c[1] == '/' || c[1] == 'b',
        forall|k: int| 0 <= k < c.len() ==> ascii_lower_char(#[trigger] c[k]) == c[k] && c[k] <= '\u{7f}',
        forall|k: int| 0 < k < c.len() - 1 ==> #[trigger] c[k] != '<' && c[k] != '>',
{
    reveal_strlit("</p>");
    reveal_strlit("</div>");
    reveal_strlit("</br>");
    reveal_strlit("<br>");
    reveal_strlit("<br/>");
    reveal_strlit("<br />");
    reveal_strlit("</h1>");
    reveal_strlit("</h2>");
    reveal_strlit("</h3>");
    reveal_strlit("</li>");
    reveal_strlit("</tr>");
    assert forall|k: int| 0 <= k < c.len() implies ascii_lower_char(#[trigger] c[k]) == c[k] && c[k] <= '\u{7f}'
        && (0 < k < c.len() - 1 ==> c[k] != '<' && c[k] != '>') by {
        if k == 0 {
        } else if k == 1 {
        } else if k == 2 {
        } else if k == 3 {
        } else if k == 4 {
        } else {
        }
    }
}

/// The `>` that ends a line-ending tag ends a line when the text written so
/// far does not already end one.
proof fn lemma_close_item(h: Seq<char>, e: int, c: Seq<char>, ls: bool, out: Seq<char>)
    requires
        vstd::utf8::is_ascii_chars(h),
        line_ending_tag(c),
        4 <= e < h.len(),
        c.len() <= e + 1,
        h.subrange(e + 1 - c.len(), e + 1) == c,
        !(out.len() > 0 && out.last() == '\n'),
    ensures
        strip_from(h, utf8_bytes(ascii_lower(h)), e, true, false, false, ls, out) == strip_from(
            h,
            utf8_bytes(ascii_lower(h)),
            e + 1,
            false,
            false,
            false,
            true,
            out.push('\n'),
        ),
{
    let lb = utf8_bytes(ascii_lower(h));
    let n = c.len() as int;
    lemma_line_tag(c);
    lemma_ascii_byte_len(h, e);
    lemma_ascii_lower_bytes(h);
    assert(h[e] == c[n - 1]);
    assert(char_boundary(lb, window_start(e))) by {
        let q = window_start(e);
        if 0 < q < lb.len() {
            assert(lb[q] < 0x80);
        }
    }
    assert(char_boundary(lb, e + 1)) by {
        if 0 < e + 1 < lb.len() {
            assert(lb[e + 1] < 0x80);
        }
    }
    let w = window_before(lb, e);
    let j = e + 1 - n - window_start(e);
    assert forall|k: int| 0 <= k < n implies w[j + k] as u32 == #[trigger] c[k] as u32 by {
        assert(h[e + 1 - n + k] == c[k]);
        assert(lb[e + 1 - n + k] as u32 == ascii_lower_char(h[e + 1 - n + k]) as u32);
    }
    assert(bytes_at(w, c, j));
    assert(bytes_contain(w, c));
    assert(ends_block(lb, e));
}

/// Plain text inside the body, outside any tag, is copied as it stands.
proof fn lemma_plain_segment(h: Seq<char>, s: int, a: Seq<char>, k: int, ls: bool, out: Seq<char>)
    requires
        vstd::utf8::is_ascii_chars(h),
        plain_text(a),
        a.len() > 0,
        0 <= s,
        s + a.len() <= h.len(),
        h.subrange(s, s + a.len()) == a,
        0 <= k <= a.len(),
        k > 0 ==> ls == (a[k - 1] == ' '),
    ensures
        strip_from(h, utf8_bytes(ascii_lower(h)), s + k, false, false, false, ls, out + a.take(k)) == strip_from(
            h,
            utf8_bytes(ascii_lower(h)),
            s + a.len(),
            false,
            false,
            false,
            false,
            out + a,
        ),
    decreases a.len() - k,
{
    let lb = utf8_bytes(ascii_lower(h));
    if k == a.len() {
        assert(a.take(k) =~= a);
        assert(is_ws(' '));
    } else {
        let p = s + k;
        lemma_ascii_byte_len(h, p);
        lemma_ascii_lower_bytes(h);
        assert(char_boundary(lb, p)) by {
            if 0 < p < lb.len() {
                assert(lb[p] < 0x80);
            }
        }
        let c = a[k];
        assert(h[p] == c);
        assert(c != '<' && c != '>' && c != '&');
        assert(lb[p] as u32 != '<' as u32) by {
            assert(lb[p] as u32 == ascii_lower_char(c) as u32);
        }
        reveal_strlit("<style");
        reveal_strlit("<script");
        assert(!bytes_at(lb, "<style"@, p)) by {
            if bytes_at(lb, "<style"@, p) {
                assert(lb[p + 0] as u32 == "<style"@[0] as u32);
            }
        }
        assert(!bytes_at(lb, "<script"@, p)) by {
            if bytes_at(lb, "<script"@, p) {
                assert(lb[p + 0] as u32 == "<script"@[0] as u32);
            }
        }
        assert((out + a.take(k)).push(c) =~= out + a.take(k + 1));
        if is_ws(c) {
            assert(c == ' ');
            assert(k > 0);
            assert(a[k - 1] != ' ') by {
                assert(!(a[k - 1] == ' ' && a[k] == ' '));
            }
            lemma_plain_segment(h, s, a, k + 1, true, out);
        } else {
            lemma_plain_segment(h, s, a, k + 1, false, out);
        }
    }
}

/// Newlines that neither start the text nor follow another newline are kept.
proof fn lemma_collapse_single_newlines(s: Seq<char>)
    requires
        forall|k: int| 0 <= k < s.len() && #[trigger] s[k] == '\n' ==> k > 0 && s[k - 1] != '\n',
    ensures
        collapse_newlines(s) == s,
    decreases s.len(),
{
    if s.len() > 0 {
        let d = s.drop_last();
        assert forall|k: int| 0 <= k < d.len() && #[trigger] d[k] == '\n' implies k > 0 && d[k - 1] != '\n' by {
            assert(s[k] == d[k]);
            assert(s[k - 1] == d[k - 1]);
        }
        lemma_collapse_single_newlines(d);
        assert(d.push(s.last()) =~= s);
        if s.last() == '\n' {
            assert(s[s.len() - 1] == '\n');
        }
    }
}

/// A closing `</li>` ends a line: the text of two consecutive list items
/// comes out on two lines, one item per line.
pub proof fn law_list_items_lines(a: Seq<char>, b: Seq<char>)
    requires
        plain_text(a),
        plain_text(b),
        a.len() > 0,
        b.len() > 0,
    ensures
        ({
            let h = "<li>"@ + a + "</li><li>"@ + b + "</li>"@;
            html_display_text(h, utf8_bytes(ascii_lower(h))) == Some(a + seq!['\n'] + b)
        }),
{
    reveal_strlit("<li>");
    reveal_strlit("</li>");
    reveal_strlit("</li><li>");
    let h = "<li>"@ + a + "</li><li>"@ + b + "</li>"@;
    let lb = utf8_bytes(ascii_lower(h));
    let na = a.len() as int;
    let nb = b.len() as int;
    let o1 = a.push('\n');
    let o2 = o1 + b;
    let o3 = o2.push('\n');
    assert(h.len() == 18 + na + nb);
    assert forall|k: int| 0 <= k < h.len() implies '\0' <= #[trigger] h[k] <= '\u{7f}' by {
        if 4 <= k < 4 + na {
            assert(h[k] == a[k - 4]);
            assert(vstd::utf8::is_ascii_chars(a));
        } else if 13 + na <= k < 13 + na + nb {
            assert(h[k] == b[k - 13 - na]);
            assert(vstd::utf8::is_ascii_chars(b));
        }
    }
    assert(vstd::utf8::is_ascii_chars(h));
    assert(h.subrange(4, 4 + na) =~= a);
    assert(h.subrange(13 + na, 13 + na + nb) =~= b);
    assert(h.subrange(4 + na, 9 + na) =~= "</li>"@);
    assert(h.subrange(13 + na + nb, 18 + na + nb) =~= "</li>"@);
    assert(line_ending_tag("</li>"@));
    // the first `<li>`
    lemma_open_tag(h, 0, true, Seq::empty());
    lemma_tag_body(h, lb, 1, 3, true, Seq::empty());
    lemma_close_tag_plain(h, 3, true, Seq::empty());
    // the first item
    assert(Seq::<char>::empty() + a.take(0) =~= Seq::<char>::empty());
    assert(Seq::<char>::empty() + a =~= a);
    lemma_plain_segment(h, 4, a, 0, true, Seq::empty());
    // `</li>`
    lemma_open_tag(h, 4 + na, false, a);
    lemma_tag_body(h, lb, 5 + na, 8 + na, false, a);
    assert(a.last() != '\n') by {
        assert(is_ws('\n'));
    }
    lemma_close_item(h, 8 + na, "</li>"@, false, a);
    // `<li>`
    lemma_open_tag(h, 9 + na, true, o1);
    lemma_tag_body(h, lb, 10 + na, 12 + na, true, o1);
    lemma_close_tag_plain(h, 12 + na, true, o1);
    // the second item
    assert(o1 + b.take(0) =~= o1);
    lemma_plain_segment(h, 13 + na, b, 0, true, o1);
    // the last `</li>`
    lemma_open_tag(h, 13 + na + nb, false, o2);
    lemma_tag_body(h, lb, 14 + na + nb, 17 + na + nb, false, o2);
    assert(o2.last() == b.last());
    assert(b.last() != '\n') by {
        assert(is_ws('\n'));
    }
    lemma_close_item(h, 17 + na + nb, "</li>"@, false, o2);
    assert(strip_from(h, lb, 18 + na + nb, false, false, false, true, o3) == Some(o3));
    assert(strip_from(h, lb, 0, false, false, false, true, Seq::empty()) == Some(o3));
    // one newline after each item, none doubled
    assert forall|k: int| 0 <= k < o3.len() && #[trigger] o3[k] == '\n' implies k > 0 && o3[k - 1] != '\n' by {
        assert(is_ws('\n'));
        if k < na {
            assert(o3[k] == a[k]);
        } else if k == na {
            assert(o3[k - 1] == a[na - 1]);
        } else if k < na + 1 + nb {
            assert(o3[k] == b[k - na - 1]);
        } else {
            assert(o3[k - 1] == b[nb - 1]);
        }
    }
    lemma_collapse_single_newlines(o3);
    assert(is_ws(o3[0])  == is_ws(a[0]));
    assert(crate::text::trim_start(o3) == o3);
    assert(o3.drop_last() =~= a + seq!['\n'] + b);
    assert(crate::text::trim_end(o3) == crate::text::trim_end(o3.drop_last()));
    assert((a + seq!['\n'] + b).last() == b.last());
    assert(crate::text::trim_end(a + seq!['\n'] + b) == a + seq!['\n'] + b);
}


/// A closing block tag or a line break ends a line: text, such a tag, and
/// more text come out as the two texts on two lines.
pub proof fn law_line_ending_tags(a: Seq<char>, c: Seq<char>, b: Seq<char>)
    requires
        plain_text(a),
        plain_text(b),
        a.len() > 0,
        b.len() > 0,
        line_ending_tag(c),
    ensures
        html_display_text(a + c + b, utf8_bytes(ascii_lower(a + c + b))) == Some(a + seq!['\n'] + b),
{
    let h = a + c + b;
    let lb = utf8_bytes(ascii_lower(h));
    let na = a.len() as int;
    let nc = c.len() as int;
    let nb = b.len() as int;
    lemma_line_tag(c);
    assert forall|k: int| 0 <= k < h.len() implies '\0' <= #[trigger] h[k] <= '\u{7f}' by {
        if k < na {
            assert(h[k] == a[k]);
            assert(vstd::utf8::is_ascii_chars(a));
        } else if k < na + nc {
            assert(h[k] == c[k - na]);
            assert(c[k - na] <= '\u{7f}');
        } else {
            assert(h[k] == b[k - na - nc]);
            assert(vstd::utf8::is_ascii_chars(b));
        }
    }
    assert(vstd::utf8::is_ascii_chars(h));
    assert(h.subrange(0, na) =~= a);
    assert(h.subrange(na + nc, na + nc + nb) =~= b);
    assert(h.subrange(na, na + nc) =~= c);
    let o1 = a.push('\n');
    let o2 = o1 + b;
    // the text before the tag
    assert(Seq::<char>::empty() + a.take(0) =~= Seq::<char>::empty());
    assert(Seq::<char>::empty() + a =~= a);
    lemma_plain_segment(h, 0, a, 0, true, Seq::empty());
    // the tag
    assert(h[na] == c[0]);
    assert(h[na + 1] == c[1]);
    lemma_open_tag(h, na, false, a);
    assert forall|k: int| na + 1 <= k < na + nc - 1 implies #[trigger] h[k] != '<' && h[k] != '>' by {
        assert(h[k] == c[k - na]);
    }
    lemma_tag_body(h, lb, na + 1, na + nc - 1, false, a);
    assert(a.last() != '\n') by {
        assert(is_ws('\n'));
    }
    lemma_close_item(h, na + nc - 1, c, false, a);
    // the text after it
    assert(o1 + b.take(0) =~= o1);
    lemma_plain_segment(h, na + nc, b, 0, true, o1);
    assert(strip_from(h, lb, na + nc + nb, false, false, false, false, o2) == Some(o2));
    assert(strip_from(h, lb, 0, false, false, false, true, Seq::empty()) == Some(o2));
    assert forall|k: int| 0 <= k < o2.len() && #[trigger] o2[k] == '\n' implies k > 0 && o2[k - 1] != '\n' by {
        assert(is_ws('\n'));
        if k < na {
            assert(o2[k] == a[k]);
        } else if k == na {
            assert(o2[k - 1] == a[na - 1]);
        } else {
            assert(o2[k] == b[k - na - 1]);
        }
    }
    lemma_collapse_single_newlines(o2);
    assert(o2 =~= a + seq!['\n'] + b);
    assert(crate::text::trim_start(o2) == o2);
    assert(crate::text::trim_end(o2) == o2);
}

} // verus!
