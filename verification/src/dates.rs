//! Dates in the message list: how a message's date header is shown
//! relative to today, and the dates typed into the filter panel.
use vstd::prelude::*;
use crate::compose::{byte_len, chars_fitting, utf8_len, utf8_len_exec};
use crate::text::{
    chars_of, decimal, decimal_exec, eq_str, extend_chars, extend_str, lowercase, occurs_at,
    occurs_at_exec, parse_i64, parse_i64_exec, parse_u32, parse_u32_exec, rfind_char,
    rfind_char_exec, signed_decimal, signed_decimal_exec, slice_of, split_on, split_on_exec,
    string_of, to_lowercase, trim, trim_exec, views, words, split_whitespace_exec,
};

verus! {

/// Today's date, as the local clock gives it.
#[derive(Clone, Copy, Debug)]
pub struct Today {
    pub year: i32,
    pub month: i32,
    pub day: i32,
}

/// What `str::parse::<i32>` returns.
pub open spec fn parse_i32(s: Seq<char>) -> Option<i32> {
    match parse_i64(s) {
        Some(v) => if i32::MIN <= v <= i32::MAX { Some(v as i32) } else { None },
        None => None,
    }
}

fn parse_i32_exec(s: &[char]) -> (r: Option<i32>)
    ensures
        r == parse_i32(s@),
{
    match parse_i64_exec(s) {
        Some(v) => if i32::MIN as i64 <= v && v <= i32::MAX as i64 { Some(v as i32) } else { None },
        None => None,
    }
}

/// The number of a month's three-letter name in lower case.
pub open spec fn month_number(m: Seq<char>) -> Option<i32> {
    if m == "jan"@ { Some(1) }
    else if m == "feb"@ { Some(2) }
    else if m == "mar"@ { Some(3) }
    else if m == "apr"@ { Some(4) }
    else if m == "may"@ { Some(5) }
    else if m == "jun"@ { Some(6) }
    else if m == "jul"@ { Some(7) }
    else if m == "aug"@ { Some(8) }
    else if m == "sep"@ { Some(9) }
    else if m == "oct"@ { Some(10) }
    else if m == "nov"@ { Some(11) }
    else if m == "dec"@ { Some(12) }
    else { None }
}

fn month_number_exec(m: &[char]) -> (r: Option<i32>)
    ensures
        r == month_number(m@),
{
    if eq_str(m, "jan") { Some(1) }
    else if eq_str(m, "feb") { Some(2) }
    else if eq_str(m, "mar") { Some(3) }
    else if eq_str(m, "apr") { Some(4) }
    else if eq_str(m, "may") { Some(5) }
    else if eq_str(m, "jun") { Some(6) }
    else if eq_str(m, "jul") { Some(7) }
    else if eq_str(m, "aug") { Some(8) }
    else if eq_str(m, "sep") { Some(9) }
    else if eq_str(m, "oct") { Some(10) }
    else if eq_str(m, "nov") { Some(11) }
    else if eq_str(m, "dec") { Some(12) }
    else { None }
}

/// A number with at least two digits (`{:02}`).
pub open spec fn two_digits(n: nat) -> Seq<char> {
    if n < 10 { seq!['0'] + decimal(n) } else { decimal(n) }
}

/// The remainder of a division that truncates toward zero, as Rust's `%`.
pub open spec fn trunc_rem(a: int, b: int) -> int {
    if a >= 0 { a % b } else { 0 - ((0 - a) % b) }
}

/// How a date header `Day, DD Mon YYYY HH:MM[:SS] ...` is shown: the time
/// for today, `Yesterday`, `Mon D` within this year, else `M/D/YY`; nothing
/// when the header does not read that way or the clock is unknown.
pub open spec fn email_date_label(date: Seq<char>, today: Option<Today>) -> Option<Seq<char>> {
    let ps = words(date);
    if ps.len() < 5 {
        None
    } else {
        let tp = split_on(ps[4], ':');
        match (parse_u32(ps[1]), parse_i32(ps[3])) {
            (Some(day), Some(year)) => {
                if tp.len() < 2 || parse_u32(tp[0]) is None || parse_u32(tp[1]) is None {
                    None
                } else {
                    let hour = parse_u32(tp[0]).unwrap();
                    let minute = parse_u32(tp[1]).unwrap();
                    match today {
                        None => None,
                        Some(t) => match month_number(lowercase(ps[2])) {
                            None => None,
                            Some(month) => Some(
                                if year == t.year && month == t.month && day == t.day {
                                    let h12: nat = if hour == 0 { 12 } else if hour > 12 { (hour - 12) as nat } else { hour as nat };
                                    decimal(h12) + seq![':'] + two_digits(minute as nat) + seq![' ']
                                        + (if hour < 12 { "AM"@ } else { "PM"@ })
                                } else if year == t.year && month == t.month && day == t.day - 1 {
                                    "Yesterday"@
                                } else if year == t.year {
                                    ps[2] + seq![' '] + decimal(day as nat)
                                } else {
                                    signed_decimal(month as int) + seq!['/'] + decimal(day as nat) + seq!['/']
                                        + signed_decimal(trunc_rem(year as int, 100))
                                },
                            ),
                        },
                    }
                }
            },
            _ => None,
        }
    }
}

/// Format an RFC 2822 style date ("Sat, 08 Feb 2025 14:30:45 +0000") for
/// the list, given today's date (`None` when the clock cannot be read).
pub fn try_parse_email_date(date_str: &str, today: Option<Today>) -> (r: Option<String>)
    requires
        today matches Some(t) ==> t.day > i32::MIN,
    ensures
        match r {
            Some(s) => email_date_label(date_str@, today) == Some(s@),
            None => email_date_label(date_str@, today) is None,
        },
{
    let dc = chars_of(date_str);
    let ps = split_whitespace_exec(&dc);
    if ps.len() < 5 {
        return None;
    }
    proof {
        assert(views(ps@)[1] == ps@[1]@);
        assert(views(ps@)[2] == ps@[2]@);
        assert(views(ps@)[3] == ps@[3]@);
        assert(views(ps@)[4] == ps@[4]@);
    }
    let day = match parse_u32_exec(&ps[1]) {
        Some(d) => d,
        None => return None,
    };
    let year = match parse_i32_exec(&ps[3]) {
        Some(y) => y,
        None => return None,
    };
    let tp = split_on_exec(&ps[4], ':');
    if tp.len() < 2 {
        return None;
    }
    proof {
        assert(views(tp@)[0] == tp@[0]@);
        assert(views(tp@)[1] == tp@[1]@);
    }
    let hour = match parse_u32_exec(&tp[0]) {
        Some(h) => h,
        None => return None,
    };
    let minute = match parse_u32_exec(&tp[1]) {
        Some(m) => m,
        None => return None,
    };
    let t = match today {
        Some(t) => t,
        None => return None,
    };
    let ms = string_of(&ps[2]);
    let ml = to_lowercase(ms.as_str());
    let mlc = chars_of(ml.as_str());
    let month = match month_number_exec(&mlc) {
        Some(m) => m,
        None => return None,
    };
    let same_month = year == t.year && month == t.month;
    let day_is_today = day <= i32::MAX as u32 && day as i32 == t.day;
    let day_is_yesterday = day <= i32::MAX as u32 && day as i32 == t.day - 1;
    let mut v: Vec<char> = Vec::new();
    if same_month && day_is_today {
        let h12: u32 = if hour == 0 { 12 } else if hour > 12 { hour - 12 } else { hour };
        let hd = decimal_exec(h12 as u64);
        extend_chars(&mut v, &hd);
        v.push(':');
        if minute < 10 {
            v.push('0');
        }
        let md = decimal_exec(minute as u64);
        extend_chars(&mut v, &md);
        v.push(' ');
        if hour < 12 {
            extend_str(&mut v, "AM");
        } else {
            extend_str(&mut v, "PM");
        }
    } else if same_month && day_is_yesterday {
        extend_str(&mut v, "Yesterday");
    } else if year == t.year {
        extend_chars(&mut v, &ps[2]);
        v.push(' ');
        let dd = decimal_exec(day as u64);
        extend_chars(&mut v, &dd);
    } else {
        let mdig = signed_decimal_exec(month as i64);
        extend_chars(&mut v, &mdig);
        v.push('/');
        let dd = decimal_exec(day as u64);
        extend_chars(&mut v, &dd);
        v.push('/');
        let yr: i64 = if year >= 0 { (year % 100) as i64 } else { -(((-(year as i64)) % 100)) };
        let yd = signed_decimal_exec(yr);
        extend_chars(&mut v, &yd);
    }
    proof {
        assert(v@ =~= email_date_label(date_str@, today).unwrap());
    }
    Some(string_of(&v))
}

/// `s` with every occurrence of `p` (left to right, not overlapping) replaced by nothing.
pub open spec fn remove_all(s: Seq<char>, p: Seq<char>) -> Seq<char>
    decreases s.len(),
{
    if p.len() == 0 || s.len() < p.len() {
        s
    } else if occurs_at(s, p, 0) {
        remove_all(s.skip(p.len() as int), p)
    } else {
        seq![s[0]] + remove_all(s.drop_first(), p)
    }
}

fn remove_all_exec(s: &[char], p: &str) -> (r: Vec<char>)
    ensures
        r@ == remove_all(s@, p@),
{
    let pc = chars_of(p);
    let m = pc.len();
    let mut out: Vec<char> = Vec::new();
    let mut i: usize = 0;
    proof {
        assert(s@.skip(0) =~= s@);
    }
    while i < s.len()
        invariant
            m == p@.len(),
            pc@ == p@,
            i <= s@.len(),
            out@ + remove_all(s@.skip(i as int), p@) == remove_all(s@, p@),
        decreases s@.len() - i,
    {
        let ghost rest = s@.skip(i as int);
        if m > 0 && s.len() - i >= m && occurs_at_exec(s, &pc, i) {
            proof {
                assert(s@.subrange(i as int, i + m) =~= rest.subrange(0, m as int));
                assert(rest.skip(m as int) =~= s@.skip(i + m));
            }
            i = i + m;
        } else {
            proof {
                if m > 0 && rest.len() >= m {
                    assert(s@.subrange(i as int, i + m) =~= rest.subrange(0, m as int));
                }
                assert(rest.drop_first() =~= s@.skip(i + 1));
                assert(rest[0] == s@[i as int]);
                if m == 0 || rest.len() < m {
                    // the rest passes unchanged
                    assert(remove_all(rest, p@) == rest);
                    assert(remove_all(rest.drop_first(), p@) == rest.drop_first()) by {
                        lemma_remove_all_short(rest.drop_first(), p@);
                    }
                }
            }
            out.push(s[i]);
            proof {
                assert(out@ + remove_all(s@.skip(i + 1), p@) =~= out@.drop_last() + (seq![s@[i as int]] + remove_all(
                    rest.drop_first(),
                    p@,
                )));
            }
            i += 1;
        }
    }
    proof {
        assert(s@.skip(i as int) =~= Seq::<char>::empty());
    }
    out
}

proof fn lemma_remove_all_short(s: Seq<char>, p: Seq<char>)
    requires
        p.len() == 0 || s.len() < p.len(),
    ensures
        remove_all(s, p) == s,
{
}

/// The text of a date without surrounding whitespace and without ` +0000`
/// and ` -0000`.
pub open spec fn cleaned_date(date: Seq<char>) -> Seq<char> {
    remove_all(remove_all(trim(date), " +0000"@), " -0000"@)
}

/// The last word of a text (after its last space), if it has a space.
pub open spec fn last_word(s: Seq<char>) -> Option<Seq<char>> {
    match rfind_char(s, ' ') {
        Some(i) => Some(s.skip(i + 1)),
        None => None,
    }
}

/// The word looks like a time: at least five bytes, a `:` third.
pub open spec fn looks_like_time(w: Seq<char>) -> bool {
    byte_len(w) >= 5 && w.len() > 2 && w[2] == ':'
}

/// The fallback label of a date that does not read as a full date header:
/// the cleaned text cut to its last word's first five bytes when that word
/// looks like a time, else to its first 16 bytes.
pub open spec fn fallback_label(date: Seq<char>) -> Seq<char> {
    let cleaned = cleaned_date(date);
    let tw = last_word(cleaned);
    if tw is Some && looks_like_time(tw.unwrap()) {
        tw.unwrap().take(chars_fitting(tw.unwrap(), 5))
    } else if byte_len(cleaned) > 16 {
        cleaned.take(chars_fitting(cleaned, 16))
    } else {
        cleaned
    }
}

/// The fallback cuts, made at byte offsets, fall between characters.
pub open spec fn fallback_cut_ok(date: Seq<char>) -> bool {
    let cleaned = cleaned_date(date);
    let tw = last_word(cleaned);
    if tw is Some && looks_like_time(tw.unwrap()) {
        byte_len(tw.unwrap().take(chars_fitting(tw.unwrap(), 5))) == 5
    } else {
        byte_len(cleaned) > 16 ==> byte_len(cleaned.take(chars_fitting(cleaned, 16))) == 16
    }
}

/// What the list shows for a message's date.
pub open spec fn date_label(date: Seq<char>, today: Option<Today>) -> Seq<char> {
    match email_date_label(date, today) {
        Some(s) => s,
        None => fallback_label(date),
    }
}

fn byte_len_at_least(s: &[char], n: usize) -> (r: bool)
    requires
        0 < n < 1000,
    ensures
        r == (byte_len(s@) >= n),
{
    let mut sum: usize = 0;
    let mut i: usize = 0;
    while i < s.len()
        invariant
            n < 1000,
            i <= s@.len(),
            sum == byte_len(s@.take(i as int)),
            sum < n,
        decreases s@.len() - i,
    {
        proof {
            assert(s@.take(i + 1).drop_last() =~= s@.take(i as int));
        }
        let c = s[i];
        let u = c as u32;
        let l: usize = if u < 0x80 { 1 } else if u < 0x800 { 2 } else if u < 0x10000 { 3 } else { 4 };
        if sum + l >= n {
            proof {
                lemma_byte_len_mono(s@, i + 1);
            }
            return true;
        }
        sum = sum + l;
        i += 1;
    }
    proof {
        assert(s@.take(i as int) =~= s@);
    }
    false
}

proof fn lemma_byte_len_mono(s: Seq<char>, k: int)
    requires
        0 <= k <= s.len(),
    ensures
        byte_len(s.take(k)) <= byte_len(s),
    decreases s.len() - k,
{
    if k < s.len() {
        lemma_byte_len_mono(s, k + 1);
        assert(s.take(k + 1).drop_last() =~= s.take(k));
    } else {
        assert(s.take(k) =~= s);
    }
}

fn take_bytes(s: &[char], budget: usize) -> (r: Vec<char>)
    requires
        budget < 1000,
    ensures
        r@ == s@.take(chars_fitting(s@, budget as int)),
{
    let mut used: usize = 0;
    let mut j: usize = 0;
    proof {
        assert(s@.skip(0) =~= s@);
    }
    while j < s.len() && used + utf8_len_exec(s[j]) <= budget
        invariant
            budget < 1000,
            j <= s@.len(),
            used <= budget,
            chars_fitting(s@, budget as int) == j + chars_fitting(s@.skip(j as int), budget - used),
        decreases s@.len() - j,
    {
        proof {
            assert(s@.skip(j as int)[0] == s@[j as int]);
            assert(s@.skip(j as int).drop_first() =~= s@.skip(j + 1));
        }
        used = used + utf8_len_exec(s[j]);
        j += 1;
    }
    proof {
        if j < s@.len() {
            assert(s@.skip(j as int)[0] == s@[j as int]);
        }
    }
    let r = slice_of(s, 0, j);
    proof {
        assert(s@.subrange(0, j as int) =~= s@.take(j as int));
    }
    r
}

/// Format email date for display (like Apple Mail): "2:30 PM" (today),
/// "Yesterday", "Feb 7", "12/25/24"; a date that does not read that way is
/// shown cleaned up.
pub fn format_date(date_str: &str, today: Option<Today>) -> (r: String)
    requires
        today matches Some(t) ==> t.day > i32::MIN,
        email_date_label(date_str@, today) is None ==> fallback_cut_ok(date_str@),
    ensures
        r@ == date_label(date_str@, today),
{
    match try_parse_email_date(date_str, today) {
        Some(s) => return s,
        None => {},
    }
    let dc = chars_of(date_str);
    let t = trim_exec(&dc);
    let c1 = remove_all_exec(&t, " +0000");
    let cleaned = remove_all_exec(&c1, " -0000");
    let n = cleaned.len();
    match rfind_char_exec(&cleaned, ' ') {
        Some(i) => {
            proof {
                crate::text::lemma_rfind_char_in(cleaned@, ' ');
            }
            let tp = slice_of(&cleaned, i + 1, n);
            proof {
                assert(cleaned@.subrange(i + 1, n as int) =~= cleaned@.skip(i + 1));
            }
            if byte_len_at_least(&tp, 5) && tp.len() > 2 && tp[2] == ':' {
                let cut = take_bytes(&tp, 5);
                return string_of(&cut);
            }
        },
        None => {},
    }
    if byte_len_at_least(&cleaned, 17) {
        let cut = take_bytes(&cleaned, 16);
        string_of(&cut)
    } else {
        string_of(&cleaned)
    }
}

// ───────────────────────── the filter panel's dates ─────────────────────────

/// A leap year of the Gregorian calendar.
pub open spec fn is_leap(y: int) -> bool {
    (y % 4 == 0 && y % 100 != 0) || y % 400 == 0
}

/// The number of days of a month.
pub open spec fn days_in_month(y: int, m: int) -> int {
    if m == 2 { if is_leap(y) { 29 } else { 28 } }
    else if m == 4 || m == 6 || m == 9 || m == 11 { 30 }
    else { 31 }
}

/// The days from 1970-01-01 to the first day of year `y` (for `y >= 1970`).
pub open spec fn days_before_year(y: int) -> int
    decreases y - 1970,
{
    if y <= 1970 { 0 } else { days_before_year(y - 1) + if is_leap(y - 1) { 366int } else { 365int } }
}

/// The days from the first of the year to the first of month `m`.
pub open spec fn days_before_month(y: int, m: int) -> int
    decreases m,
{
    if m <= 1 { 0 } else { days_before_month(y, m - 1) + days_in_month(y, m - 1) }
}

/// The Unix time of midnight UTC at the start of a calendar date.
pub open spec fn epoch_of(y: int, m: int, d: int) -> int {
    (days_before_year(y) + days_before_month(y, m) + (d - 1)) * 86400
}

/// `s` without the `-` characters at its end.
pub open spec fn trim_trailing_dashes(s: Seq<char>) -> Seq<char>
    decreases s.len(),
{
    if s.len() > 0 && s.last() == '-' { trim_trailing_dashes(s.drop_last()) } else { s }
}

/// The epoch of a date typed as `YYYY`, `YYYY-MM` or `YYYY-MM-DD` (a missing
/// or unreadable month or day counts as 1): none for an empty text, a year
/// outside 1970..=2100, a month outside 1..=12, a day outside 1..=31 or a
/// day the month does not have.
pub open spec fn typed_date_epoch(s: Seq<char>) -> Option<i64> {
    let t = trim(s);
    if t.len() == 0 {
        None
    } else {
        let u = trim_trailing_dashes(t);
        let ps = split_on(u, '-');
        match parse_i32(ps[0]) {
            None => None,
            Some(year) => {
                let month: int = if ps.len() > 1 && parse_i32(ps[1]) is Some { parse_i32(ps[1]).unwrap() as int } else { 1 };
                let day: int = if ps.len() > 2 && parse_i32(ps[2]) is Some { parse_i32(ps[2]).unwrap() as int } else { 1 };
                if !(1970 <= year <= 2100) || !(1 <= month <= 12) || !(1 <= day <= 31) || day > days_in_month(year as int, month) {
                    None
                } else {
                    Some(epoch_of(year as int, month, day) as i64)
                }
            },
        }
    }
}

proof fn lemma_days_before_year_bound(y: int)
    requires
        1970 <= y <= 2100,
    ensures
        0 <= days_before_year(y) <= (y - 1970) * 366,
    decreases y - 1970,
{
    if y > 1970 {
        lemma_days_before_year_bound(y - 1);
    }
}

proof fn lemma_days_before_month_bound(y: int, m: int)
    requires
        1 <= m <= 12,
    ensures
        0 <= days_before_month(y, m) <= (m - 1) * 31,
    decreases m,
{
    if m > 1 {
        lemma_days_before_month_bound(y, m - 1);
    }
}

/// Parse a date typed into the filter panel to a Unix timestamp (start of day UTC).
pub fn parse_date_to_epoch(s: &str) -> (r: Option<i64>)
    ensures
        r == typed_date_epoch(s@),
{
    let sc = chars_of(s);
    let t = trim_exec(&sc);
    if t.len() == 0 {
        return None;
    }
    let mut end = t.len();
    proof {
        assert(t@.take(end as int) =~= t@);
    }
    while end > 0 && t[end - 1] == '-'
        invariant
            end <= t@.len(),
            trim_trailing_dashes(t@) == trim_trailing_dashes(t@.take(end as int)),
        decreases end,
    {
        proof {
            assert(t@.take(end as int).drop_last() =~= t@.take(end - 1));
        }
        end -= 1;
    }
    let u = slice_of(&t, 0, end);
    proof {
        assert(t@.subrange(0, end as int) =~= t@.take(end as int));
    }
    let ps = split_on_exec(&u, '-');
    proof {
        crate::text::lemma_join_split(u@, '-');
        assert(views(ps@)[0] == ps@[0]@);
    }
    let year = match parse_i32_exec(&ps[0]) {
        Some(y) => y,
        None => return None,
    };
    let month: i32 = if ps.len() > 1 {
        proof {
            assert(views(ps@)[1] == ps@[1]@);
        }
        match parse_i32_exec(&ps[1]) {
            Some(m) => m,
            None => 1,
        }
    } else {
        1
    };
    let day: i32 = if ps.len() > 2 {
        proof {
            assert(views(ps@)[2] == ps@[2]@);
        }
        match parse_i32_exec(&ps[2]) {
            Some(d) => d,
            None => 1,
        }
    } else {
        1
    };
    if !(1970 <= year && year <= 2100) || !(1 <= month && month <= 12) || !(1 <= day && day <= 31) {
        return None;
    }
    let leap = (year % 4 == 0 && year % 100 != 0) || year % 400 == 0;
    let dim: i32 = if month == 2 {
        if leap { 29 } else { 28 }
    } else if month == 4 || month == 6 || month == 9 || month == 11 {
        30
    } else {
        31
    };
    if day > dim {
        return None;
    }
    // days before the year
    let mut days: i64 = 0;
    let mut y: i32 = 1970;
    while y < year
        invariant
            1970 <= y <= year <= 2100,
            days == days_before_year(y as int),
            0 <= days <= (y - 1970) * 366,
        decreases year - y,
    {
        let l = (y % 4 == 0 && y % 100 != 0) || y % 400 == 0;
        days = days + if l { 366 } else { 365 };
        y += 1;
    }
    // days before the month
    let mut m: i32 = 1;
    let mut md: i64 = 0;
    while m < month
        invariant
            1 <= m <= month <= 12,
            1970 <= year <= 2100,
            leap == is_leap(year as int),
            md == days_before_month(year as int, m as int),
            0 <= md <= (m - 1) * 31,
        decreases month - m,
    {
        let dm: i64 = if m == 2 {
            if leap { 29 } else { 28 }
        } else if m == 4 || m == 6 || m == 9 || m == 11 {
            30
        } else {
            31
        };
        md = md + dm;
        m += 1;
    }
    let total = days + md + (day as i64 - 1);
    Some(total * 86400)
}

} // verus!
