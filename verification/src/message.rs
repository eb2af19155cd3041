//! IMAP message metadata: flags, addresses, envelopes and headers.
use vstd::prelude::*;

use crate::folder::string_views;
use crate::text::{ascii_lower, lemma_push_contains, chars_of, extend_chars, extend_str, eq_str, lowercase, string_of, to_lowercase};

verus! {

/// Email message flags
#[derive(Debug, Clone)]
pub struct MessageFlags {
    /// Message has been read
    pub seen: bool,
    /// Message has been answered
    pub answered: bool,
    /// Message is flagged/starred
    pub flagged: bool,
    /// Message is marked for deletion
    pub deleted: bool,
    /// Message is a draft
    pub draft: bool,
    /// Custom flags (Gmail labels, etc.), lower-cased, each held once
    pub custom: Vec<String>,
}

/// The system flag one raw flag string names, compared after lower-casing.
pub open spec fn system_flag(lower: Seq<char>) -> bool {
    lower == "\\seen"@ || lower == "\\answered"@ || lower == "\\flagged"@ || lower == "\\deleted"@
        || lower == "\\draft"@
}

/// Some flag in the list lower-cases to `name`.
pub open spec fn has_flag(flags: Seq<Seq<char>>, name: Seq<char>) -> bool {
    exists|i: int| 0 <= i < flags.len() && lowercase(#[trigger] flags[i]) == name
}

/// The custom flags a list of raw flags carries: each non-system flag, lower-cased.
pub open spec fn custom_flags(flags: Seq<Seq<char>>) -> Set<Seq<char>> {
    Set::new(
        |c: Seq<char>|
            !system_flag(c) && exists|i: int| 0 <= i < flags.len() && lowercase(#[trigger] flags[i]) == c,
    )
}

/// No string occurs twice in the list.
pub open spec fn no_duplicates(v: Seq<Seq<char>>) -> bool {
    forall|i: int, j: int| 0 <= i < j < v.len() ==> v[i] != v[j]
}

/// The character content of each string slice in a list.
pub open spec fn str_views(v: Seq<&str>) -> Seq<Seq<char>> {
    v.map_values(|s: &str| s@)
}

/// The system flags of a flag set, in the order the STORE command lists them.
pub open spec fn system_flag_strings(seen: bool, answered: bool, flagged: bool, deleted: bool, draft: bool) -> Seq<Seq<char>> {
    (if seen { seq!["\\Seen"@] } else { Seq::empty() }) + (if answered { seq!["\\Answered"@] } else { Seq::empty() })
        + (if flagged { seq!["\\Flagged"@] } else { Seq::empty() }) + (if deleted { seq!["\\Deleted"@] } else { Seq::empty() })
        + (if draft { seq!["\\Draft"@] } else { Seq::empty() })
}

/// The flags parsed from raw flag strings: each system flag set when some
/// flag names it (ignoring case), every other flag kept once, lower-cased.
pub open spec fn parsed_flags(r: MessageFlags, raw: Seq<Seq<char>>) -> bool {
    &&& r.wf()
    &&& r.seen == has_flag(raw, "\\seen"@)
    &&& r.answered == has_flag(raw, "\\answered"@)
    &&& r.flagged == has_flag(raw, "\\flagged"@)
    &&& r.deleted == has_flag(raw, "\\deleted"@)
    &&& r.draft == has_flag(raw, "\\draft"@)
    &&& r.custom_set() == custom_flags(raw)
}

/// What `str::to_lowercase` is known to give: the ASCII lower-casing for
/// ASCII text, else the named result.
pub open spec fn lower_known(x: Seq<char>) -> Seq<char> {
    if vstd::utf8::is_ascii_chars(x) {
        ascii_lower(x)
    } else {
        lowercase(x)
    }
}

/// `has_flag` with the lower-casing spelled out as far as it is known.
pub open spec fn has_flag_known(flags: Seq<Seq<char>>, name: Seq<char>) -> bool {
    exists|i: int| 0 <= i < flags.len() && lower_known(#[trigger] flags[i]) == name
}

/// `custom_flags` with the lower-casing spelled out as far as it is known.
pub open spec fn custom_flags_known(flags: Seq<Seq<char>>) -> Set<Seq<char>> {
    Set::new(
        |c: Seq<char>|
            !system_flag(c) && exists|i: int| 0 <= i < flags.len() && lower_known(#[trigger] flags[i]) == c,
    )
}

/// `parsed_flags` with the lower-casing spelled out as far as it is known
/// (ASCII flags, such as the system flag names, lower-cased ASCII-wise).
pub open spec fn parsed_flags_known(r: MessageFlags, raw: Seq<Seq<char>>) -> bool {
    &&& r.wf()
    &&& r.seen == has_flag_known(raw, "\\seen"@)
    &&& r.answered == has_flag_known(raw, "\\answered"@)
    &&& r.flagged == has_flag_known(raw, "\\flagged"@)
    &&& r.deleted == has_flag_known(raw, "\\deleted"@)
    &&& r.draft == has_flag_known(raw, "\\draft"@)
    &&& r.custom_set() == custom_flags_known(raw)
}

impl MessageFlags {
    /// The custom flags as a set of strings.
    pub open spec fn custom_set(self) -> Set<Seq<char>> {
        string_views(self.custom@).to_set()
    }

    /// The custom flags hold no duplicates.
    pub open spec fn wf(self) -> bool {
        no_duplicates(string_views(self.custom@))
    }

    /// Parse flags from IMAP FETCH response
    pub fn from_imap_flags(flags: &[&str]) -> (r: MessageFlags)
        ensures
            parsed_flags(r, str_views(flags@)),
            parsed_flags_known(r, str_views(flags@)),
    {
        let ghost fv = str_views(flags@);
        let mut result = MessageFlags::default();
        let mut i: usize = 0;
        while i < flags.len()
            invariant
                i <= flags@.len(),
                fv == str_views(flags@),
                result.wf(),
                result.seen == has_flag(fv.take(i as int), "\\seen"@),
                result.answered == has_flag(fv.take(i as int), "\\answered"@),
                result.flagged == has_flag(fv.take(i as int), "\\flagged"@),
                result.deleted == has_flag(fv.take(i as int), "\\deleted"@),
                result.draft == has_flag(fv.take(i as int), "\\draft"@),
                result.custom_set() == custom_flags(fv.take(i as int)),
                forall|j: int| 0 <= j < i && vstd::utf8::is_ascii_chars(#[trigger] fv[j]) ==> lowercase(fv[j])
                    == ascii_lower(fv[j]),
            decreases flags@.len() - i,
        {
            let lower = to_lowercase(flags[i]);
            let l = chars_of(lower.as_str());
            proof {
                lemma_system_flags_distinct();
            }
            let ghost prev = fv.take(i as int);
            let ghost next = fv.take(i + 1);
            assert(next == prev.push(fv[i as int]));
            assert(fv[i as int] == flags@[i as int]@);
            proof {
                lemma_has_flag_push(prev, fv[i as int], "\\seen"@);
                lemma_has_flag_push(prev, fv[i as int], "\\answered"@);
                lemma_has_flag_push(prev, fv[i as int], "\\flagged"@);
                lemma_has_flag_push(prev, fv[i as int], "\\deleted"@);
                lemma_has_flag_push(prev, fv[i as int], "\\draft"@);
                lemma_custom_push(prev, fv[i as int]);
            }
            if eq_str(&l, "\\seen") {
                result.seen = true;
            } else if eq_str(&l, "\\answered") {
                result.answered = true;
            } else if eq_str(&l, "\\flagged") {
                result.flagged = true;
            } else if eq_str(&l, "\\deleted") {
                result.deleted = true;
            } else if eq_str(&l, "\\draft") {
                result.draft = true;
            } else {
                insert_unique(&mut result.custom, lower);
            }
            i += 1;
        }
        assert(fv.take(i as int) =~= fv);
        proof {
            lemma_known_parse(fv);
        }
        result
    }

    /// Convert to IMAP flag strings for STORE command
    #[verifier::spinoff_prover]
    #[verifier::rlimit(30)]
    pub fn to_imap_flags(&self) -> (r: Vec<String>)
        ensures
            string_views(r@) == system_flag_strings(self.seen, self.answered, self.flagged, self.deleted, self.draft)
                + string_views(self.custom@),
    {
        let mut flags: Vec<String> = Vec::new();
        if self.seen {
            flags.push(String::from_str("\\Seen"));
        }
        if self.answered {
            flags.push(String::from_str("\\Answered"));
        }
        if self.flagged {
            flags.push(String::from_str("\\Flagged"));
        }
        if self.deleted {
            flags.push(String::from_str("\\Deleted"));
        }
        if self.draft {
            flags.push(String::from_str("\\Draft"));
        }
        assert(string_views(flags@) =~= system_flag_strings(self.seen, self.answered, self.flagged, self.deleted, self.draft));
        let ghost base = flags@;
        let mut i: usize = 0;
        while i < self.custom.len()
            invariant
                i <= self.custom@.len(),
                flags@ == base + self.custom@.take(i as int),
            decreases self.custom@.len() - i,
        {
            flags.push(self.custom[i].clone());
            assert(base + self.custom@.take(i + 1) =~= (base + self.custom@.take(i as int)).push(
                self.custom@[i as int],
            ));
            i += 1;
        }
        assert(self.custom@.take(i as int) =~= self.custom@);
        assert(string_views(flags@) =~= string_views(base) + string_views(self.custom@));
        flags
    }
}

impl Default for MessageFlags {
    fn default() -> (r: MessageFlags)
        ensures
            !r.seen && !r.answered && !r.flagged && !r.deleted && !r.draft,
            r.custom@.len() == 0,
    {
        MessageFlags {
            seen: false,
            answered: false,
            flagged: false,
            deleted: false,
            draft: false,
            custom: Vec::new(),
        }
    }
}

/// The five system flag names are pairwise different.
proof fn lemma_known_parse(fv: Seq<Seq<char>>)
    requires
        forall|j: int| 0 <= j < fv.len() && vstd::utf8::is_ascii_chars(#[trigger] fv[j]) ==> lowercase(fv[j])
            == ascii_lower(fv[j]),
    ensures
        forall|name: Seq<char>| has_flag(fv, name) == has_flag_known(fv, name),
        custom_flags(fv) == custom_flags_known(fv),
{
    assert forall|j: int| 0 <= j < fv.len() implies lowercase(#[trigger] fv[j]) == lower_known(fv[j]) by {
        if vstd::utf8::is_ascii_chars(fv[j]) {
        }
    }
    assert forall|name: Seq<char>| has_flag(fv, name) == has_flag_known(fv, name) by {
        if has_flag(fv, name) {
            let i = choose|i: int| 0 <= i < fv.len() && lowercase(#[trigger] fv[i]) == name;
            assert(lower_known(fv[i]) == name);
        }
        if has_flag_known(fv, name) {
            let i = choose|i: int| 0 <= i < fv.len() && lower_known(#[trigger] fv[i]) == name;
            assert(lowercase(fv[i]) == name);
        }
    }
    assert forall|c: Seq<char>| custom_flags(fv).contains(c) == custom_flags_known(fv).contains(c) by {
        if exists|i: int| 0 <= i < fv.len() && lowercase(#[trigger] fv[i]) == c {
            let i = choose|i: int| 0 <= i < fv.len() && lowercase(#[trigger] fv[i]) == c;
            assert(lower_known(fv[i]) == c);
        }
        if exists|i: int| 0 <= i < fv.len() && lower_known(#[trigger] fv[i]) == c {
            let i = choose|i: int| 0 <= i < fv.len() && lower_known(#[trigger] fv[i]) == c;
            assert(lowercase(fv[i]) == c);
        }
    }
    assert(custom_flags(fv) =~= custom_flags_known(fv));
}

// ───────────────────────── flags written and read back ─────────────────────────

proof fn lemma_system_names_lower()
    ensures
        ascii_lower("\\Seen"@) == "\\seen"@,
        ascii_lower("\\Answered"@) == "\\answered"@,
        ascii_lower("\\Flagged"@) == "\\flagged"@,
        ascii_lower("\\Deleted"@) == "\\deleted"@,
        ascii_lower("\\Draft"@) == "\\draft"@,
        vstd::utf8::is_ascii_chars("\\Seen"@),
        vstd::utf8::is_ascii_chars("\\Answered"@),
        vstd::utf8::is_ascii_chars("\\Flagged"@),
        vstd::utf8::is_ascii_chars("\\Deleted"@),
        vstd::utf8::is_ascii_chars("\\Draft"@),
        lower_known("\\Seen"@) == "\\seen"@,
        lower_known("\\Answered"@) == "\\answered"@,
        lower_known("\\Flagged"@) == "\\flagged"@,
        lower_known("\\Deleted"@) == "\\deleted"@,
        lower_known("\\Draft"@) == "\\draft"@,
{
    reveal_strlit("\\Seen");
    reveal_strlit("\\Answered");
    reveal_strlit("\\Flagged");
    reveal_strlit("\\Deleted");
    reveal_strlit("\\Draft");
    reveal_strlit("\\seen");
    reveal_strlit("\\answered");
    reveal_strlit("\\flagged");
    reveal_strlit("\\deleted");
    reveal_strlit("\\draft");
    assert(ascii_lower("\\Seen"@) =~= "\\seen"@);
    assert(ascii_lower("\\Answered"@) =~= "\\answered"@);
    assert(ascii_lower("\\Flagged"@) =~= "\\flagged"@);
    assert(ascii_lower("\\Deleted"@) =~= "\\deleted"@);
    assert(ascii_lower("\\Draft"@) =~= "\\draft"@);
}

/// The members of the system part of a STORE flag list.
proof fn lemma_system_strings_member(s: bool, a: bool, fl: bool, d: bool, dr: bool, i: int)
    requires
        0 <= i < system_flag_strings(s, a, fl, d, dr).len(),
    ensures
        ({
            let x = system_flag_strings(s, a, fl, d, dr)[i];
            ||| (x == "\\Seen"@ && s)
            ||| (x == "\\Answered"@ && a)
            ||| (x == "\\Flagged"@ && fl)
            ||| (x == "\\Deleted"@ && d)
            ||| (x == "\\Draft"@ && dr)
        }),
{
    let p1: Seq<Seq<char>> = if s { seq!["\\Seen"@] } else { Seq::empty() };
    let p2: Seq<Seq<char>> = if a { seq!["\\Answered"@] } else { Seq::empty() };
    let p3: Seq<Seq<char>> = if fl { seq!["\\Flagged"@] } else { Seq::empty() };
    let p4: Seq<Seq<char>> = if d { seq!["\\Deleted"@] } else { Seq::empty() };
    let p5: Seq<Seq<char>> = if dr { seq!["\\Draft"@] } else { Seq::empty() };
    let all = system_flag_strings(s, a, fl, d, dr);
    assert(all == p1 + p2 + p3 + p4 + p5);
    let x = all[i];
    if i < p1.len() {
        assert(x == p1[i]);
    } else if i < p1.len() + p2.len() {
        assert(x == p2[i - p1.len()]);
    } else if i < p1.len() + p2.len() + p3.len() {
        assert(x == p3[i - p1.len() - p2.len()]);
    } else if i < p1.len() + p2.len() + p3.len() + p4.len() {
        assert(x == p4[i - p1.len() - p2.len() - p3.len()]);
    } else {
        assert(x == p5[i - p1.len() - p2.len() - p3.len() - p4.len()]);
    }
}

/// The index of each set system flag in the STORE flag list.
proof fn lemma_system_strings_has(s: bool, a: bool, fl: bool, d: bool, dr: bool)
    ensures
        s ==> system_flag_strings(s, a, fl, d, dr).contains("\\Seen"@),
        a ==> system_flag_strings(s, a, fl, d, dr).contains("\\Answered"@),
        fl ==> system_flag_strings(s, a, fl, d, dr).contains("\\Flagged"@),
        d ==> system_flag_strings(s, a, fl, d, dr).contains("\\Deleted"@),
        dr ==> system_flag_strings(s, a, fl, d, dr).contains("\\Draft"@),
{
    let p1: Seq<Seq<char>> = if s { seq!["\\Seen"@] } else { Seq::empty() };
    let p2: Seq<Seq<char>> = if a { seq!["\\Answered"@] } else { Seq::empty() };
    let p3: Seq<Seq<char>> = if fl { seq!["\\Flagged"@] } else { Seq::empty() };
    let p4: Seq<Seq<char>> = if d { seq!["\\Deleted"@] } else { Seq::empty() };
    let p5: Seq<Seq<char>> = if dr { seq!["\\Draft"@] } else { Seq::empty() };
    let all = system_flag_strings(s, a, fl, d, dr);
    assert(all == p1 + p2 + p3 + p4 + p5);
    let n1 = p1.len() as int;
    let n2 = n1 + p2.len();
    let n3 = n2 + p3.len();
    let n4 = n3 + p4.len();
    if s {
        assert(all[0] == "\\Seen"@);
    }
    if a {
        assert(all[n1] == "\\Answered"@);
    }
    if fl {
        assert(all[n2] == "\\Flagged"@);
    }
    if d {
        assert(all[n3] == "\\Deleted"@);
    }
    if dr {
        assert(all[n4] == "\\Draft"@);
    }
}

/// Each custom flag is its own lower-casing (`c == c.to_lowercase()`) and
/// no system flag name.
pub open spec fn customs_canonical(f: MessageFlags) -> bool {
    forall|k: int| 0 <= k < f.custom@.len() ==> {
        let c = (#[trigger] f.custom@[k])@;
        lower_known(c) == c && !system_flag(c)
    }
}

spec fn round_trip_raw(f: MessageFlags) -> Seq<Seq<char>> {
    system_flag_strings(f.seen, f.answered, f.flagged, f.deleted, f.draft) + string_views(f.custom@)
}

/// Each entry of the flag list is a set system flag or a custom flag.
proof fn lemma_raw_member(f: MessageFlags, i: int)
    requires
        0 <= i < round_trip_raw(f).len(),
    ensures
        ({
            let raw = round_trip_raw(f);
            let n = system_flag_strings(f.seen, f.answered, f.flagged, f.deleted, f.draft).len();
            ||| (raw[i] == "\\Seen"@ && f.seen)
            ||| (raw[i] == "\\Answered"@ && f.answered)
            ||| (raw[i] == "\\Flagged"@ && f.flagged)
            ||| (raw[i] == "\\Deleted"@ && f.deleted)
            ||| (raw[i] == "\\Draft"@ && f.draft)
            ||| (n <= i && raw[i] == f.custom@[i - n]@)
        }),
{
    let sys = system_flag_strings(f.seen, f.answered, f.flagged, f.deleted, f.draft);
    let cs = string_views(f.custom@);
    if i < sys.len() {
        lemma_system_strings_member(f.seen, f.answered, f.flagged, f.deleted, f.draft, i);
        assert(round_trip_raw(f)[i] == sys[i]);
    } else {
        assert(round_trip_raw(f)[i] == cs[i - sys.len()]);
    }
}

/// A system name is found in the list exactly when its flag is set.
proof fn lemma_raw_system(f: MessageFlags, name: Seq<char>, set: bool, upper: Seq<char>)
    requires
        customs_canonical(f),
        system_flag(name),
        lower_known(upper) == name,
        set ==> system_flag_strings(f.seen, f.answered, f.flagged, f.deleted, f.draft).contains(upper),
        forall|i: int| 0 <= i < round_trip_raw(f).len() && i < system_flag_strings(f.seen, f.answered, f.flagged, f.deleted, f.draft).len()
            && lower_known(#[trigger] round_trip_raw(f)[i]) == name ==> set,
    ensures
        has_flag_known(round_trip_raw(f), name) == set,
{
    let raw = round_trip_raw(f);
    let sys = system_flag_strings(f.seen, f.answered, f.flagged, f.deleted, f.draft);
    if has_flag_known(raw, name) {
        let i = choose|i: int| 0 <= i < raw.len() && lower_known(#[trigger] raw[i]) == name;
        if i >= sys.len() {
            let k = i - sys.len();
            assert(raw[i] == string_views(f.custom@)[k]);
            assert(raw[i] == f.custom@[k]@);
            assert(lower_known(f.custom@[k]@) == f.custom@[k]@);
        }
    }
    if set {
        let i = choose|i: int| 0 <= i < sys.len() && sys[i] == upper;
        assert(raw[i] == sys[i]);
    }
}

/// Which system entries lower-case to each system name.
proof fn lemma_sys_lowers(f: MessageFlags, i: int)
    requires
        0 <= i < system_flag_strings(f.seen, f.answered, f.flagged, f.deleted, f.draft).len(),
    ensures
        ({
            let l = lower_known(round_trip_raw(f)[i]);
            &&& l == "\\seen"@ ==> f.seen
            &&& l == "\\answered"@ ==> f.answered
            &&& l == "\\flagged"@ ==> f.flagged
            &&& l == "\\deleted"@ ==> f.deleted
            &&& l == "\\draft"@ ==> f.draft
        }),
{
    lemma_system_names_lower();
    lemma_system_flags_distinct();
    lemma_raw_member(f, i);
}

/// The custom flags come back as they were.
proof fn lemma_raw_customs(f: MessageFlags)
    requires
        customs_canonical(f),
    ensures
        custom_flags_known(round_trip_raw(f)) == f.custom_set(),
{
    let raw = round_trip_raw(f);
    let sys = system_flag_strings(f.seen, f.answered, f.flagged, f.deleted, f.draft);
    let cs = string_views(f.custom@);
    assert forall|c: Seq<char>| custom_flags_known(raw).contains(c) == f.custom_set().contains(c) by {
        if custom_flags_known(raw).contains(c) {
            let i = choose|i: int| 0 <= i < raw.len() && lower_known(#[trigger] raw[i]) == c;
            if i < sys.len() {
                lemma_system_names_lower();
                lemma_raw_member(f, i);
            } else {
                let k = i - sys.len();
                assert(raw[i] == cs[k]);
                assert(cs[k] == f.custom@[k]@);
                assert(lower_known(f.custom@[k]@) == f.custom@[k]@);
            }
        }
        if f.custom_set().contains(c) {
            let k = choose|k: int| 0 <= k < cs.len() && cs[k] == c;
            assert(f.custom@[k]@ == c);
            assert(raw[sys.len() + k] == cs[k]);
            assert(lower_known(raw[sys.len() + k]) == c);
            assert(!system_flag(f.custom@[k]@));
        }
    }
    assert(custom_flags_known(raw) =~= f.custom_set());
}

/// Flags written out for a STORE command and parsed back are the same
/// flags: each system flag and each custom flag comes back, for custom flags
/// that are their own lower-casing and no system flag name.
pub proof fn law_flags_round_trip(f: MessageFlags, g: MessageFlags)
    requires
        f.wf(),
        customs_canonical(f),
        parsed_flags_known(
            g,
            system_flag_strings(f.seen, f.answered, f.flagged, f.deleted, f.draft) + string_views(f.custom@),
        ),
    ensures
        g.seen == f.seen,
        g.answered == f.answered,
        g.flagged == f.flagged,
        g.deleted == f.deleted,
        g.draft == f.draft,
        g.custom_set() == f.custom_set(),
{
    let raw = round_trip_raw(f);
    let sys = system_flag_strings(f.seen, f.answered, f.flagged, f.deleted, f.draft);
    lemma_system_names_lower();
    lemma_system_strings_has(f.seen, f.answered, f.flagged, f.deleted, f.draft);
    assert forall|i: int| 0 <= i < raw.len() && i < sys.len() implies ({
        let l = lower_known(#[trigger] raw[i]);
        &&& l == "\\seen"@ ==> f.seen
        &&& l == "\\answered"@ ==> f.answered
        &&& l == "\\flagged"@ ==> f.flagged
        &&& l == "\\deleted"@ ==> f.deleted
        &&& l == "\\draft"@ ==> f.draft
    }) by {
        lemma_sys_lowers(f, i);
    }
    lemma_raw_system(f, "\\seen"@, f.seen, "\\Seen"@);
    lemma_raw_system(f, "\\answered"@, f.answered, "\\Answered"@);
    lemma_raw_system(f, "\\flagged"@, f.flagged, "\\Flagged"@);
    lemma_raw_system(f, "\\deleted"@, f.deleted, "\\Deleted"@);
    lemma_raw_system(f, "\\draft"@, f.draft, "\\Draft"@);
    lemma_raw_customs(f);
}

proof fn lemma_system_flags_distinct()
    ensures
        "\\seen"@ != "\\answered"@,
        "\\seen"@ != "\\flagged"@,
        "\\seen"@ != "\\deleted"@,
        "\\seen"@ != "\\draft"@,
        "\\answered"@ != "\\flagged"@,
        "\\answered"@ != "\\deleted"@,
        "\\answered"@ != "\\draft"@,
        "\\flagged"@ != "\\deleted"@,
        "\\flagged"@ != "\\draft"@,
        "\\deleted"@ != "\\draft"@,
{
    reveal_strlit("\\seen");
    reveal_strlit("\\answered");
    reveal_strlit("\\flagged");
    reveal_strlit("\\deleted");
    reveal_strlit("\\draft");
    assert("\\seen"@.len() == 5);
    assert("\\answered"@.len() == 9);
    assert("\\flagged"@.len() == 8);
    assert("\\deleted"@.len() == 8);
    assert("\\draft"@.len() == 6);
    assert("\\flagged"@[1] != "\\deleted"@[1]);
}

/// Adding one more raw flag adds exactly its lower-cased name.
proof fn lemma_has_flag_push(prev: Seq<Seq<char>>, f: Seq<char>, name: Seq<char>)
    ensures
        has_flag(prev.push(f), name) <==> has_flag(prev, name) || lowercase(f) == name,
{
    let next = prev.push(f);
    if has_flag(next, name) {
        let i = choose|i: int| 0 <= i < next.len() && lowercase(#[trigger] next[i]) == name;
        if i < prev.len() {
            assert(prev[i] == next[i]);
        }
    }
    if has_flag(prev, name) {
        let i = choose|i: int| 0 <= i < prev.len() && lowercase(#[trigger] prev[i]) == name;
        assert(next[i] == prev[i]);
    }
    if lowercase(f) == name {
        assert(next[prev.len() as int] == f);
    }
}

/// Adding one more raw flag adds its lower-cased name to the custom set
/// unless it is a system flag.
proof fn lemma_custom_push(prev: Seq<Seq<char>>, f: Seq<char>)
    ensures
        custom_flags(prev.push(f)) == if system_flag(lowercase(f)) {
            custom_flags(prev)
        } else {
            custom_flags(prev).insert(lowercase(f))
        },
{
    let next = prev.push(f);
    assert forall|c: Seq<char>| custom_flags(next).contains(c) == (if system_flag(lowercase(f)) {
        custom_flags(prev)
    } else {
        custom_flags(prev).insert(lowercase(f))
    }).contains(c) by {
        lemma_has_flag_push(prev, f, c);
    }
    if system_flag(lowercase(f)) {
        assert(custom_flags(next) =~= custom_flags(prev));
    } else {
        assert(custom_flags(next) =~= custom_flags(prev).insert(lowercase(f)));
    }
}

/// Adds `s` to `v` unless an equal string is already there.
fn insert_unique(v: &mut Vec<String>, s: String)
    requires
        no_duplicates(string_views(old(v)@)),
    ensures
        no_duplicates(string_views(final(v)@)),
        string_views(final(v)@).to_set() == string_views(old(v)@).to_set().insert(s@),
{
    let ghost sv = string_views(v@);
    let mut i: usize = 0;
    while i < v.len()
        invariant
            i <= v@.len(),
            sv == string_views(v@),
            no_duplicates(sv),
            forall|j: int| 0 <= j < i ==> sv[j] != s@,
        decreases v@.len() - i,
    {
        if v[i] == s {
            assert(sv[i as int] == s@);
            assert(sv.to_set().insert(s@) =~= sv.to_set());
            return;
        }
        i += 1;
    }
    let ghost sc = s@;
    v.push(s);
    assert(string_views(v@) =~= sv.push(sc));
    assert forall|x: Seq<char>| sv.push(sc).to_set().contains(x) == sv.to_set().insert(sc).contains(x) by {
        lemma_push_contains(sv, sc, x);
    }
    assert(sv.push(sc).to_set() =~= sv.to_set().insert(sc));
}

/// Email address with optional display name
#[derive(Debug, Clone)]
pub struct EmailAddress {
    /// Display name (e.g., "John Doe")
    pub name: Option<String>,
    /// Email address (e.g., "john@example.com")
    pub address: String,
}

/// `"Name <address>"` when the name is present and non-empty, else the address.
pub open spec fn display_string(name: Option<Seq<char>>, address: Seq<char>) -> Seq<char> {
    match name {
        Some(n) if n.len() > 0 => n + " <"@ + address + ">"@,
        _ => address,
    }
}

/// The name of an address, by its characters.
pub open spec fn name_view(name: Option<String>) -> Option<Seq<char>> {
    match name {
        Some(n) => Some(n@),
        None => None,
    }
}

/// The text held, or the empty text when there is none.
pub open spec fn text_or_empty(o: Option<String>) -> Seq<char> {
    match o {
        Some(s) => s@,
        None => Seq::empty(),
    }
}

impl EmailAddress {
    pub fn new(name: Option<String>, address: String) -> (r: EmailAddress)
        ensures
            r.name == name,
            r.address == address,
    {
        EmailAddress { name, address }
    }

    /// The address of an IMAP address structure: its mailbox, `@` and its
    /// host, a missing part taken as empty.
    pub fn from_parts(name: Option<String>, mailbox: Option<String>, host: Option<String>) -> (r: EmailAddress)
        ensures
            r.name == name,
            r.address@ == text_or_empty(mailbox) + "@"@ + text_or_empty(host),
    {
        let mut v: Vec<char> = Vec::new();
        match &mailbox {
            Some(m) => extend_str(&mut v, m.as_str()),
            None => {},
        }
        extend_str(&mut v, "@");
        match &host {
            Some(h) => extend_str(&mut v, h.as_str()),
            None => {},
        }
        proof {
            assert(v@ =~= text_or_empty(mailbox) + "@"@ + text_or_empty(host));
        }
        EmailAddress { name, address: string_of(&v) }
    }

    /// Format as "Name <address>" or just "address"
    pub fn to_display_string(&self) -> (r: String)
        ensures
            r@ == display_string(name_view(self.name), self.address@),
    {
        match &self.name {
            Some(name) if !name.as_str().is_empty() => {
                let mut v = chars_of(name.as_str());
                extend_str(&mut v, " <");
                let a = chars_of(self.address.as_str());
                extend_chars(&mut v, &a);
                extend_str(&mut v, ">");
                string_of(&v)
            },
            _ => self.address.clone(),
        }
    }
}

/// Envelope data from IMAP FETCH
#[derive(Debug, Clone)]
pub struct Envelope {
    /// Message-ID header
    pub message_id: Option<String>,
    /// Subject line
    pub subject: Option<String>,
    /// From addresses
    pub from: Vec<EmailAddress>,
    /// To addresses
    pub to: Vec<EmailAddress>,
    /// CC addresses
    pub cc: Vec<EmailAddress>,
    /// Reply-To addresses
    pub reply_to: Vec<EmailAddress>,
    /// Date sent
    pub date: Option<String>,
    /// In-Reply-To header
    pub in_reply_to: Option<String>,
}

impl Envelope {
    /// Every field is absent or empty.
    pub open spec fn is_empty(self) -> bool {
        &&& self.message_id is None
        &&& self.subject is None
        &&& self.from@.len() == 0
        &&& self.to@.len() == 0
        &&& self.cc@.len() == 0
        &&& self.reply_to@.len() == 0
        &&& self.date is None
        &&& self.in_reply_to is None
    }
}

impl Default for Envelope {
    fn default() -> (r: Envelope)
        ensures
            r.is_empty(),
    {
        Envelope {
            message_id: None,
            subject: None,
            from: Vec::new(),
            to: Vec::new(),
            cc: Vec::new(),
            reply_to: Vec::new(),
            date: None,
            in_reply_to: None,
        }
    }
}

/// Message header information from IMAP
#[derive(Debug, Clone)]
pub struct MessageHeader {
    /// Server-assigned UID
    pub uid: u32,
    /// Message sequence number (can change)
    pub seq: u32,
    /// Envelope data
    pub envelope: Envelope,
    /// Message flags
    pub flags: MessageFlags,
    /// Size in bytes
    pub size: u32,
    /// Body structure (for attachment detection)
    pub has_attachments: bool,
}

impl MessageHeader {
    /// Get the subject, with a default for a missing or empty one
    pub fn subject(&self) -> (r: &str)
        ensures
            r@ == match self.envelope.subject {
                Some(s) => if s@.len() > 0 { s@ } else { "(No subject)"@ },
                None => "(No subject)"@,
            },
    {
        match &self.envelope.subject {
            Some(s) => if s.as_str().is_empty() { "(No subject)" } else { s.as_str() },
            None => "(No subject)",
        }
    }

    /// Get the primary sender's display string
    pub fn from_display(&self) -> (r: String)
        ensures
            r@ == if self.envelope.from@.len() > 0 {
                display_string(name_view(self.envelope.from@[0].name), self.envelope.from@[0].address@)
            } else {
                "(Unknown sender)"@
            },
    {
        if self.envelope.from.len() > 0 {
            self.envelope.from[0].to_display_string()
        } else {
            String::from_str("(Unknown sender)")
        }
    }

    /// Check if message is read
    pub fn is_read(&self) -> (r: bool)
        ensures
            r == self.flags.seen,
    {
        self.flags.seen
    }

    /// Check if message is starred/flagged
    pub fn is_starred(&self) -> (r: bool)
        ensures
            r == self.flags.flagged,
    {
        self.flags.flagged
    }
}

} // verus!
