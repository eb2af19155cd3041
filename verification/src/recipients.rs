//! The recipient rows of the compose window: addresses entered as chips in
//! To, Cc and Bcc, kept free of case-insensitive duplicates across the three
//! rows, and the keyboard selection in the address suggestions.
use vstd::prelude::*;

use crate::compose::strings;
use crate::text::{
    chars_of, eq_str, find_char, find_char_exec, lowercase, slice_of, string_of, to_lowercase, trim,
    trim_exec,
};

verus! {

/// A recipient row.
#[derive(Clone, Copy, Debug, PartialEq, Eq, Structural)]
pub enum RecipientField {
    To,
    Cc,
    Bcc,
}

/// The addresses of the three recipient rows, in the order they were added.
pub struct RecipientChips {
    pub to: Vec<String>,
    pub cc: Vec<String>,
    pub bcc: Vec<String>,
}

/// The rows as sequences of addresses: (To, Cc, Bcc).
pub type ChipsView = (Seq<Seq<char>>, Seq<Seq<char>>, Seq<Seq<char>>);

impl View for RecipientChips {
    type V = ChipsView;

    open spec fn view(&self) -> ChipsView {
        (strings(self.to@), strings(self.cc@), strings(self.bcc@))
    }
}

/// The addresses of one row.
pub open spec fn row(v: ChipsView, f: RecipientField) -> Seq<Seq<char>> {
    match f {
        RecipientField::To => v.0,
        RecipientField::Cc => v.1,
        RecipientField::Bcc => v.2,
    }
}

/// The rows with one of them replaced.
pub open spec fn with_row(v: ChipsView, f: RecipientField, l: Seq<Seq<char>>) -> ChipsView {
    match f {
        RecipientField::To => (l, v.1, v.2),
        RecipientField::Cc => (v.0, l, v.2),
        RecipientField::Bcc => (v.0, v.1, l),
    }
}

/// The addresses lower-cased.
pub open spec fn lowered(l: Seq<Seq<char>>) -> Seq<Seq<char>> {
    l.map_values(|s: Seq<char>| lowercase(s))
}

/// Some address of the row equals `email` ignoring case.
pub open spec fn row_has(l: Seq<Seq<char>>, email: Seq<char>) -> bool {
    lowered(l).contains(lowercase(email))
}

/// Some row already holds `email` ignoring case.
pub open spec fn listed(v: ChipsView, email: Seq<char>) -> bool {
    row_has(v.0, email) || row_has(v.1, email) || row_has(v.2, email)
}

/// No address occurs twice in a row, ignoring case.
pub open spec fn row_unique(l: Seq<Seq<char>>) -> bool {
    lowered(l).no_duplicates()
}

/// No address occurs in both rows, ignoring case.
pub open spec fn rows_disjoint(a: Seq<Seq<char>>, b: Seq<Seq<char>>) -> bool {
    forall|x: Seq<char>| lowered(a).contains(x) ==> !lowered(b).contains(x)
}

/// No address occurs twice over the three rows, ignoring case.
pub open spec fn chips_unique(v: ChipsView) -> bool {
    &&& row_unique(v.0)
    &&& row_unique(v.1)
    &&& row_unique(v.2)
    &&& rows_disjoint(v.0, v.1)
    &&& rows_disjoint(v.0, v.2)
    &&& rows_disjoint(v.1, v.2)
}

/// The rows after adding `email` to row `f`: unchanged when some row already
/// holds it (ignoring case), else appended to that row.
pub open spec fn after_add(v: ChipsView, f: RecipientField, email: Seq<char>) -> ChipsView {
    if listed(v, email) {
        v
    } else {
        with_row(v, f, row(v, f).push(email))
    }
}

/// `l` without the entries equal to `e`.
pub open spec fn without(l: Seq<Seq<char>>, e: Seq<char>) -> Seq<Seq<char>>
    decreases l.len(),
{
    if l.len() == 0 {
        l
    } else {
        let r = without(l.drop_last(), e);
        if l.last() == e {
            r
        } else {
            r.push(l.last())
        }
    }
}

/// The rows after removing the chip of `email` from row `f`.
pub open spec fn after_remove(v: ChipsView, f: RecipientField, email: Seq<char>) -> ChipsView {
    with_row(v, f, without(row(v, f), email))
}

/// The text a chip shows: the display name, or the address when the name is
/// empty or is the address itself.
pub open spec fn chip_text(display: Seq<char>, email: Seq<char>) -> Seq<char> {
    if display.len() == 0 || display == email {
        email
    } else {
        display
    }
}

/// Executable `chip_text`.
pub fn chip_label(display: &str, email: &str) -> (r: String)
    ensures
        r@ == chip_text(display@, email@),
{
    let d = chars_of(display);
    if d.len() == 0 || eq_str(&d, email) {
        String::from_str(email)
    } else {
        String::from_str(display)
    }
}

fn row_has_exec(l: &Vec<String>, lower_email: &str) -> (r: bool)
    ensures
        r == lowered(strings(l@)).contains(lower_email@),
{
    let ghost low = lowered(strings(l@));
    let mut i: usize = 0;
    while i < l.len()
        invariant
            i <= l@.len(),
            low == lowered(strings(l@)),
            low.len() == l@.len(),
            forall|k: int| 0 <= k < i ==> low[k] != lower_email@,
        decreases l@.len() - i,
    {
        let lo = to_lowercase(l[i].as_str());
        let lc = chars_of(lo.as_str());
        assert(low[i as int] == lowercase(l@[i as int]@));
        if eq_str(&lc, lower_email) {
            assert(low[i as int] == lower_email@);
            return true;
        }
        i += 1;
    }
    false
}

fn push_to_row(chips: &mut RecipientChips, f: RecipientField, email: &str)
    ensures
        final(chips)@ == with_row(old(chips)@, f, row(old(chips)@, f).push(email@)),
{
    let s = String::from_str(email);
    match f {
        RecipientField::To => {
            chips.to.push(s);
            assert(strings(chips.to@) =~= strings(old(chips).to@).push(email@));
        },
        RecipientField::Cc => {
            chips.cc.push(s);
            assert(strings(chips.cc@) =~= strings(old(chips).cc@).push(email@));
        },
        RecipientField::Bcc => {
            chips.bcc.push(s);
            assert(strings(chips.bcc@) =~= strings(old(chips).bcc@).push(email@));
        },
    }
}

fn without_exec(l: &Vec<String>, e: &str) -> (r: Vec<String>)
    ensures
        strings(r@) == without(strings(l@), e@),
{
    let ghost s = strings(l@);
    let mut r: Vec<String> = Vec::new();
    let mut i: usize = 0;
    while i < l.len()
        invariant
            i <= l@.len(),
            s == strings(l@),
            strings(r@) == without(s.take(i as int), e@),
        decreases l@.len() - i,
    {
        let c = chars_of(l[i].as_str());
        let same = eq_str(&c, e);
        let ghost before = r@;
        proof {
            assert(s.take(i + 1).drop_last() =~= s.take(i as int));
            assert(s.take(i + 1).last() == l@[i as int]@);
        }
        if !same {
            r.push(l[i].clone());
            assert(strings(r@) =~= strings(before).push(l@[i as int]@));
        }
        i += 1;
    }
    assert(s.take(i as int) =~= s);
    r
}

impl RecipientChips {
    /// Empty rows.
    pub fn new() -> (r: RecipientChips)
        ensures
            r@.0.len() == 0 && r@.1.len() == 0 && r@.2.len() == 0,
    {
        RecipientChips { to: Vec::new(), cc: Vec::new(), bcc: Vec::new() }
    }

    /// Add a chip for `email` (shown as `display`) to row `f`. When any row
    /// already holds the address, ignoring case, nothing changes and `None`
    /// comes back; otherwise the address is appended and the chip's text
    /// comes back.
    pub fn add_recipient(&mut self, f: RecipientField, display: &str, email: &str) -> (r: Option<String>)
        ensures
            final(self)@ == after_add(old(self)@, f, email@),
            listed(old(self)@, email@) ==> r is None,
            !listed(old(self)@, email@) ==> (r matches Some(t) && t@ == chip_text(display@, email@)),
    {
        let lower = to_lowercase(email);
        if row_has_exec(&self.to, lower.as_str()) || row_has_exec(&self.cc, lower.as_str())
            || row_has_exec(&self.bcc, lower.as_str()) {
            return None;
        }
        push_to_row(self, f, email);
        Some(chip_label(display, email))
    }

    /// Remove the chip of `email` from row `f` (every entry equal to it).
    pub fn remove_recipient(&mut self, f: RecipientField, email: &str)
        ensures
            final(self)@ == after_remove(old(self)@, f, email@),
    {
        match f {
            RecipientField::To => {
                self.to = without_exec(&self.to, email);
            },
            RecipientField::Cc => {
                self.cc = without_exec(&self.cc, email);
            },
            RecipientField::Bcc => {
                self.bcc = without_exec(&self.bcc, email);
            },
        }
    }
}

// ───────────────────────── laws ─────────────────────────

proof fn lemma_lowered_push(l: Seq<Seq<char>>, e: Seq<char>)
    ensures
        lowered(l.push(e)) == lowered(l).push(lowercase(e)),
{
    assert(lowered(l.push(e)) =~= lowered(l).push(lowercase(e)));
}

proof fn lemma_without_absent(l: Seq<Seq<char>>, e: Seq<char>)
    requires
        !l.contains(e),
    ensures
        without(l, e) == l,
    decreases l.len(),
{
    if l.len() > 0 {
        assert(l.drop_last().contains(e) ==> l.contains(e)) by {
            if l.drop_last().contains(e) {
                let k = choose|k: int| 0 <= k < l.drop_last().len() && l.drop_last()[k] == e;
                assert(l[k] == e);
            }
        }
        lemma_without_absent(l.drop_last(), e);
        assert(l.last() != e) by {
            assert(l[l.len() - 1] == l.last());
        }
        assert(l.drop_last().push(l.last()) =~= l);
    }
}

proof fn lemma_without_push(l: Seq<Seq<char>>, e: Seq<char>)
    ensures
        without(l.push(e), e) == without(l, e),
{
    assert(l.push(e).drop_last() =~= l);
}

proof fn lemma_not_listed_absent(l: Seq<Seq<char>>, e: Seq<char>)
    requires
        !row_has(l, e),
    ensures
        !l.contains(e),
{
    if l.contains(e) {
        let k = choose|k: int| 0 <= k < l.len() && l[k] == e;
        assert(lowered(l)[k] == lowercase(e));
    }
}

proof fn lemma_without_subset(l: Seq<Seq<char>>, e: Seq<char>)
    ensures
        forall|x: Seq<char>| lowered(without(l, e)).contains(x) ==> lowered(l).contains(x),
        row_unique(l) ==> row_unique(without(l, e)),
    decreases l.len(),
{
    if l.len() > 0 {
        let d = l.drop_last();
        lemma_without_subset(d, e);
        let w = without(d, e);
        assert forall|x: Seq<char>| lowered(d).contains(x) implies lowered(l).contains(x) by {
            let k = choose|k: int| 0 <= k < lowered(d).len() && lowered(d)[k] == x;
            assert(lowered(l)[k] == x);
        }
        assert(lowered(l) =~= lowered(d).push(lowercase(l.last())));
        if l.last() != e {
            lemma_lowered_push(w, l.last());
            assert forall|x: Seq<char>| lowered(w.push(l.last())).contains(x) implies lowered(l).contains(x) by {
                let k = choose|k: int| 0 <= k < lowered(w.push(l.last())).len() && lowered(w.push(l.last()))[k] == x;
                if k == w.len() {
                    assert(lowered(l)[l.len() - 1] == x);
                } else {
                    assert(lowered(w).contains(x));
                }
            }
            if row_unique(l) {
                assert(row_unique(d)) by {
                    assert forall|i: int, j: int| 0 <= i < lowered(d).len() && 0 <= j < lowered(d).len() && i != j implies
                        lowered(d)[i] != lowered(d)[j] by {
                        assert(lowered(l)[i] == lowered(d)[i]);
                        assert(lowered(l)[j] == lowered(d)[j]);
                    }
                }
                assert(!lowered(d).contains(lowercase(l.last()))) by {
                    if lowered(d).contains(lowercase(l.last())) {
                        let k = choose|k: int| 0 <= k < lowered(d).len() && lowered(d)[k] == lowercase(l.last());
                        assert(lowered(l)[k] == lowered(l)[l.len() - 1]);
                    }
                }
                let lw = lowered(w);
                assert forall|i: int, j: int| 0 <= i < lw.push(lowercase(l.last())).len() && 0 <= j < lw.push(lowercase(l.last())).len() && i != j implies
                    lw.push(lowercase(l.last()))[i] != lw.push(lowercase(l.last()))[j] by {
                    if i == lw.len() {
                        assert(lw.contains(lw[j]));
                    } else if j == lw.len() {
                        assert(lw.contains(lw[i]));
                    }
                }
            }
        } else {
            if row_unique(l) {
                assert forall|i: int, j: int| 0 <= i < lowered(d).len() && 0 <= j < lowered(d).len() && i != j implies
                    lowered(d)[i] != lowered(d)[j] by {
                    assert(lowered(l)[i] == lowered(d)[i]);
                    assert(lowered(l)[j] == lowered(d)[j]);
                }
            }
        }
    }
}

/// Removing a chip right after adding it to the same row gives back the
/// rows as they were, when the address was not there yet.
pub proof fn law_remove_undoes_add(v: ChipsView, f: RecipientField, email: Seq<char>)
    requires
        !listed(v, email),
    ensures
        after_remove(after_add(v, f, email), f, email) == v,
{
    let l = row(v, f);
    lemma_without_push(l, email);
    lemma_not_listed_absent(l, email);
    lemma_without_absent(l, email);
    assert(row(with_row(v, f, l.push(email)), f) == l.push(email));
    match f {
        RecipientField::To => assert(with_row(v, f, l) == v),
        RecipientField::Cc => assert(with_row(v, f, l) == v),
        RecipientField::Bcc => assert(with_row(v, f, l) == v),
    }
}

proof fn lemma_push_unique(l: Seq<Seq<char>>, e: Seq<char>)
    requires
        row_unique(l),
        !row_has(l, e),
    ensures
        row_unique(l.push(e)),
{
    lemma_lowered_push(l, e);
    let lw = lowered(l);
    assert forall|i: int, j: int| 0 <= i < lw.push(lowercase(e)).len() && 0 <= j < lw.push(lowercase(e)).len() && i != j implies
        lw.push(lowercase(e))[i] != lw.push(lowercase(e))[j] by {
        if i == lw.len() {
            assert(lw.contains(lw[j]));
        } else if j == lw.len() {
            assert(lw.contains(lw[i]));
        }
    }
}

proof fn lemma_push_disjoint(a: Seq<Seq<char>>, b: Seq<Seq<char>>, e: Seq<char>)
    requires
        rows_disjoint(a, b),
        !row_has(b, e),
    ensures
        rows_disjoint(a.push(e), b),
        rows_disjoint(b, a.push(e)) <== rows_disjoint(b, a),
{
    lemma_lowered_push(a, e);
    assert forall|x: Seq<char>| lowered(a.push(e)).contains(x) implies !lowered(b).contains(x) by {
        let k = choose|k: int| 0 <= k < lowered(a.push(e)).len() && lowered(a.push(e))[k] == x;
        if k < a.len() {
            assert(lowered(a)[k] == x);
        }
    }
    if rows_disjoint(b, a) {
        assert forall|x: Seq<char>| lowered(b).contains(x) implies !lowered(a.push(e)).contains(x) by {
            if lowered(a.push(e)).contains(x) {
                let k = choose|k: int| 0 <= k < lowered(a.push(e)).len() && lowered(a.push(e))[k] == x;
                if k < a.len() {
                    assert(lowered(a)[k] == x);
                }
            }
        }
    }
}

/// Adding a chip keeps every address unique over the three rows, ignoring case.
pub proof fn law_add_keeps_unique(v: ChipsView, f: RecipientField, email: Seq<char>)
    requires
        chips_unique(v),
    ensures
        chips_unique(after_add(v, f, email)),
{
    if !listed(v, email) {
        match f {
            RecipientField::To => {
                lemma_push_unique(v.0, email);
                lemma_push_disjoint(v.0, v.1, email);
                lemma_push_disjoint(v.0, v.2, email);
            },
            RecipientField::Cc => {
                lemma_push_unique(v.1, email);
                lemma_push_disjoint(v.1, v.2, email);
                lemma_push_disjoint(v.1, v.0, email);
            },
            RecipientField::Bcc => {
                lemma_push_unique(v.2, email);
                lemma_push_disjoint(v.2, v.0, email);
                lemma_push_disjoint(v.2, v.1, email);
            },
        }
    }
}

/// Removing a chip keeps every address unique over the three rows, ignoring case.
pub proof fn law_remove_keeps_unique(v: ChipsView, f: RecipientField, email: Seq<char>)
    requires
        chips_unique(v),
    ensures
        chips_unique(after_remove(v, f, email)),
{
    let l = row(v, f);
    lemma_without_subset(l, email);
    let w = without(l, email);
    match f {
        RecipientField::To => {
            assert(rows_disjoint(w, v.1));
            assert(rows_disjoint(w, v.2));
        },
        RecipientField::Cc => {
            assert(rows_disjoint(v.0, w));
            assert(rows_disjoint(w, v.2));
        },
        RecipientField::Bcc => {
            assert(rows_disjoint(v.0, w));
            assert(rows_disjoint(v.1, w));
        },
    }
}

// ───────────────────────── entry and suggestions ─────────────────────────

/// The address typed into a recipient entry when Enter is pressed: the
/// trimmed text, unless it is empty.
pub fn typed_recipient(text: &str) -> (r: Option<String>)
    ensures
        trim(text@).len() == 0 ==> r is None,
        trim(text@).len() > 0 ==> (r matches Some(t) && t@ == trim(text@)),
{
    let c = chars_of(text);
    let t = trim_exec(&c);
    if t.len() == 0 {
        None
    } else {
        Some(string_of(&t))
    }
}

/// The (display name, address) a suggestion row carries as `name<TAB>address`;
/// a row without a tab is an address with no name.
pub open spec fn suggestion_parts(tooltip: Seq<char>) -> (Seq<char>, Seq<char>) {
    match find_char(tooltip, '\t') {
        Some(k) => (tooltip.take(k), tooltip.skip(k + 1)),
        None => (Seq::empty(), tooltip),
    }
}

/// Executable `suggestion_parts`.
pub fn suggestion_choice(tooltip: &str) -> (r: (String, String))
    ensures
        (r.0@, r.1@) == suggestion_parts(tooltip@),
{
    let c = chars_of(tooltip);
    match find_char_exec(&c, '\t') {
        Some(k) => {
            proof {
                crate::text::lemma_find_from(c@, seq!['\t'], 0);
                assert(seq!['\t'].len() == 1);
                assert(crate::text::occurs_at(c@, seq!['\t'], k as int));
            }
            let a = slice_of(&c, 0, k);
            let n = c.len();
            let b = slice_of(&c, k + 1, n);
            assert(a@ =~= c@.take(k as int));
            assert(b@ =~= c@.skip(k + 1));
            (string_of(&a), string_of(&b))
        },
        None => (String::new(), String::from_str(tooltip)),
    }
}

/// A key that moves the selection in the suggestion list.
#[derive(Clone, Copy, Debug, PartialEq, Eq, Structural)]
pub enum SuggestionKey {
    Down,
    Up,
    Escape,
}

/// The selected suggestion after a key: Down moves to the next row (the first
/// when none is selected) and stays on the last; Up moves to the previous row
/// and leaves the list from the first; Escape clears the selection.
pub open spec fn selection_after(selected: Option<usize>, count: usize, key: SuggestionKey) -> Option<usize> {
    match key {
        SuggestionKey::Down => match selected {
            Some(i) => if i + 1 < count { Some((i + 1) as usize) } else { Some(i) },
            None => if count > 0 { Some(0usize) } else { None },
        },
        SuggestionKey::Up => match selected {
            Some(i) => if i > 0 { Some((i - 1) as usize) } else { None },
            None => None,
        },
        SuggestionKey::Escape => None,
    }
}

/// Executable `selection_after`.
pub fn move_suggestion(selected: Option<usize>, count: usize, key: SuggestionKey) -> (r: Option<usize>)
    requires
        selected matches Some(i) ==> i < count,
    ensures
        r == selection_after(selected, count, key),
        r matches Some(j) ==> j < count,
{
    match key {
        SuggestionKey::Down => match selected {
            Some(i) => if i + 1 < count { Some(i + 1) } else { Some(i) },
            None => if count > 0 { Some(0) } else { None },
        },
        SuggestionKey::Up => match selected {
            Some(i) => if i > 0 { Some(i - 1) } else { None },
            None => None,
        },
        SuggestionKey::Escape => None,
    }
}

} // verus!
