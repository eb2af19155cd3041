//! The message list: which messages are shown, in what order, and how the
//! list changes when messages arrive, change or leave.
//!
//! The list holds each UID at most once and keeps its messages newest first;
//! the filter panel and the search field decide which of them are visible.
use vstd::prelude::*;
use crate::dates::{Today, date_label, email_date_label, fallback_cut_ok, format_date, parse_date_to_epoch, typed_date_epoch};
use crate::text::{
    replace_char, replace_char_exec, slice_of, extend_str,
    chars_of, contains, contains_str, decimal, decimal_exec, extend_chars, join_exec, join_with,
    lowercase, signed_decimal, signed_decimal_exec, string_of, to_lowercase, views,
};

verus! {

/// Information about a message for display
#[derive(Clone)]
pub struct MessageInfo {
    pub id: i64,
    pub uid: u32,
    pub folder_id: i64,
    pub message_id: Option<String>,
    pub subject: String,
    pub from: String,
    pub from_address: String,
    pub to: String,
    pub cc: String,
    pub date: String,
    pub date_epoch: Option<i64>,
    pub snippet: Option<String>,
    pub is_read: bool,
    pub is_starred: bool,
    pub has_attachments: bool,
}

/// The state of the filter panel.
#[derive(Clone)]
pub struct FilterState {
    pub unread_only: bool,
    pub starred_only: bool,
    pub has_attachments: bool,
    pub from_contains: String,
    pub to_cc_contains: String,
    pub date_after: Option<i64>,
    pub date_before: Option<i64>,
}

impl FilterState {
    /// Some filter of the panel restricts the list.
    pub open spec fn active(&self) -> bool {
        ||| self.unread_only
        ||| self.starred_only
        ||| self.has_attachments
        ||| self.from_contains@.len() > 0
        ||| self.to_cc_contains@.len() > 0
        ||| self.date_after is Some
        ||| self.date_before is Some
    }

    pub fn is_active(&self) -> (r: bool)
        ensures
            r == self.active(),
    {
        self.unread_only || self.starred_only || self.has_attachments
            || !self.from_contains.as_str().is_empty() || !self.to_cc_contains.as_str().is_empty()
            || self.date_after.is_some() || self.date_before.is_some()
    }
}

impl Default for FilterState {
    fn default() -> (r: FilterState)
        ensures
            !r.active(),
            r.from_contains@.len() == 0,
            r.to_cc_contains@.len() == 0,
    {
        FilterState {
            unread_only: false,
            starred_only: false,
            has_attachments: false,
            from_contains: String::new(),
            to_cc_contains: String::new(),
            date_after: None,
            date_before: None,
        }
    }
}

/// A change made in the filter panel.
pub enum FilterEdit {
    UnreadOnly(bool),
    StarredOnly(bool),
    HasAttachments(bool),
    FromContains(String),
    ToCcContains(String),
    /// The text of the "after" date field.
    DateAfter(String),
    /// The text of the "before" date field.
    DateBefore(String),
    /// The Clear Filters button.
    Clear,
}

impl FilterState {
    /// Apply one change of the filter panel; a date field's text counts
    /// only when it reads as a date.
    pub fn apply_edit(&mut self, edit: FilterEdit)
        ensures
            match edit {
                FilterEdit::UnreadOnly(b) => *final(self) == FilterState { unread_only: b, ..*old(self) },
                FilterEdit::StarredOnly(b) => *final(self) == FilterState { starred_only: b, ..*old(self) },
                FilterEdit::HasAttachments(b) => *final(self) == FilterState { has_attachments: b, ..*old(self) },
                FilterEdit::FromContains(t) => *final(self) == FilterState { from_contains: t, ..*old(self) },
                FilterEdit::ToCcContains(t) => *final(self) == FilterState { to_cc_contains: t, ..*old(self) },
                FilterEdit::DateAfter(t) => *final(self) == FilterState { date_after: typed_date_epoch(t@), ..*old(self) },
                FilterEdit::DateBefore(t) => *final(self) == FilterState { date_before: typed_date_epoch(t@), ..*old(self) },
                FilterEdit::Clear => !final(self).active() && final(self).from_contains@.len() == 0
                    && final(self).to_cc_contains@.len() == 0,
            },
    {
        match edit {
            FilterEdit::UnreadOnly(b) => {
                self.unread_only = b;
            },
            FilterEdit::StarredOnly(b) => {
                self.starred_only = b;
            },
            FilterEdit::HasAttachments(b) => {
                self.has_attachments = b;
            },
            FilterEdit::FromContains(t) => {
                self.from_contains = t;
            },
            FilterEdit::ToCcContains(t) => {
                self.to_cc_contains = t;
            },
            FilterEdit::DateAfter(t) => {
                self.date_after = parse_date_to_epoch(t.as_str());
            },
            FilterEdit::DateBefore(t) => {
                self.date_before = parse_date_to_epoch(t.as_str());
            },
            FilterEdit::Clear => {
                *self = FilterState::default();
            },
        }
    }
}

/// The filter handed to the message store's query.
pub struct MessageFilter {
    pub unread_only: bool,
    pub starred_only: bool,
    pub has_attachments: bool,
    pub from_contains: String,
    pub date_after: Option<i64>,
    pub date_before: Option<i64>,
}

// ───────────────────────── filtering ─────────────────────────

/// `needle` occurs in the lower-cased `hay`.
pub open spec fn mentions(hay: Seq<char>, needle_lower: Seq<char>) -> bool {
    contains(lowercase(hay), needle_lower)
}

/// The epoch passes a lower bound: a message without a date never does.
pub open spec fn after_ok(bound: Option<i64>, epoch: Option<i64>) -> bool {
    match bound {
        None => true,
        Some(a) => match epoch {
            Some(e) => e >= a,
            None => false,
        },
    }
}

/// The epoch passes an upper bound: a message without a date never does.
pub open spec fn before_ok(bound: Option<i64>, epoch: Option<i64>) -> bool {
    match bound {
        None => true,
        Some(b) => match epoch {
            Some(e) => e <= b,
            None => false,
        },
    }
}

/// The lower-cased query occurs in the subject, sender, recipients or preview.
pub open spec fn search_hit(m: MessageInfo, q: Seq<char>) -> bool {
    ||| mentions(m.subject@, q)
    ||| mentions(m.from@, q)
    ||| mentions(m.to@, q)
    ||| mentions(m.cc@, q)
    ||| (m.snippet matches Some(s) && mentions(s@, q))
}

/// Whether a message passes the filter panel and, unless `skip_search`, the
/// search query.
pub open spec fn matches(st: FilterState, query: Seq<char>, m: MessageInfo, skip_search: bool) -> bool {
    &&& !(st.unread_only && m.is_read)
    &&& !(st.starred_only && !m.is_starred)
    &&& !(st.has_attachments && !m.has_attachments)
    &&& (st.from_contains@.len() == 0 || mentions(m.from@, lowercase(st.from_contains@)))
    &&& (st.to_cc_contains@.len() == 0
        || mentions(m.to@, lowercase(st.to_cc_contains@))
        || mentions(m.cc@, lowercase(st.to_cc_contains@)))
    &&& after_ok(st.date_after, m.date_epoch)
    &&& before_ok(st.date_before, m.date_epoch)
    &&& (skip_search || query.len() == 0 || search_hit(m, lowercase(query)))
}

/// The search looks at the subject, the sender, the To and Cc lines and the
/// preview, ignoring case: for a message that passes the filter panel, a
/// non-empty query occurring (case-insensitively) in any of them lets the
/// message through, and a query occurring in none of them hides it.
pub proof fn law_search_fields(st: FilterState, query: Seq<char>, m: MessageInfo)
    requires
        matches(st, Seq::empty(), m, false),
        query.len() > 0,
    ensures
        contains(lowercase(m.subject@), lowercase(query)) ==> matches(st, query, m, false),
        contains(lowercase(m.from@), lowercase(query)) ==> matches(st, query, m, false),
        contains(lowercase(m.to@), lowercase(query)) ==> matches(st, query, m, false),
        contains(lowercase(m.cc@), lowercase(query)) ==> matches(st, query, m, false),
        (m.snippet matches Some(p) && contains(lowercase(p@), lowercase(query))) ==> matches(st, query, m, false),
        !contains(lowercase(m.subject@), lowercase(query)) && !contains(lowercase(m.from@), lowercase(query))
            && !contains(lowercase(m.to@), lowercase(query)) && !contains(lowercase(m.cc@), lowercase(query))
            && !(m.snippet matches Some(p) && contains(lowercase(p@), lowercase(query)))
            ==> !matches(st, query, m, false),
{
}

/// With no filter set, a message passes exactly when the query is empty or
/// occurs (case-insensitively) in its subject, sender, recipients or preview.
pub proof fn law_search_unfiltered(st: FilterState, query: Seq<char>, m: MessageInfo)
    requires
        !st.active(),
    ensures
        matches(st, query, m, false) == (query.len() == 0
            || contains(lowercase(m.subject@), lowercase(query))
            || contains(lowercase(m.from@), lowercase(query))
            || contains(lowercase(m.to@), lowercase(query))
            || contains(lowercase(m.cc@), lowercase(query))
            || (m.snippet matches Some(p) && contains(lowercase(p@), lowercase(query)))),
{
}

/// Each filter of the panel hides the messages it rules out, with or
/// without the search: unread only hides read messages, starred only
/// unstarred ones, "has attachments" those without, a sender or recipient
/// text those whose sender (or To and Cc lines) lack it, ignoring case, and
/// a date bound the messages outside it and those without a date. A message
/// that no filter rules out and that the search finds (or an empty query)
/// is shown.
pub proof fn law_filter_panel(st: FilterState, query: Seq<char>, m: MessageInfo, skip: bool)
    ensures
        st.unread_only && m.is_read ==> !matches(st, query, m, skip),
        st.starred_only && !m.is_starred ==> !matches(st, query, m, skip),
        st.has_attachments && !m.has_attachments ==> !matches(st, query, m, skip),
        st.from_contains@.len() > 0 && !contains(lowercase(m.from@), lowercase(st.from_contains@)) ==> !matches(
            st,
            query,
            m,
            skip,
        ),
        st.to_cc_contains@.len() > 0 && !contains(lowercase(m.to@), lowercase(st.to_cc_contains@)) && !contains(
            lowercase(m.cc@),
            lowercase(st.to_cc_contains@),
        ) ==> !matches(st, query, m, skip),
        (st.date_after matches Some(a) && !(m.date_epoch matches Some(e) && e >= a)) ==> !matches(st, query, m, skip),
        (st.date_before matches Some(b) && !(m.date_epoch matches Some(e) && e <= b)) ==> !matches(st, query, m, skip),
        !(st.unread_only && m.is_read) && !(st.starred_only && !m.is_starred) && !(st.has_attachments
            && !m.has_attachments) && (st.from_contains@.len() == 0 || contains(
            lowercase(m.from@),
            lowercase(st.from_contains@),
        )) && (st.to_cc_contains@.len() == 0 || contains(lowercase(m.to@), lowercase(st.to_cc_contains@))
            || contains(lowercase(m.cc@), lowercase(st.to_cc_contains@))) && (st.date_after matches Some(a)
            ==> (m.date_epoch matches Some(e) && e >= a)) && (st.date_before matches Some(b) ==> (
        m.date_epoch matches Some(e) && e <= b)) && (skip || query.len() == 0) ==> matches(st, query, m, skip),
{
}

/// Whether the lower-cased `hay` contains the (already lower-cased) `needle`.
fn mentions_exec(hay: &str, needle_lower: &str) -> (r: bool)
    ensures
        r == mentions(hay@, needle_lower@),
{
    let low = to_lowercase(hay);
    let lc = chars_of(low.as_str());
    contains_str(&lc, needle_lower)
}

fn search_hit_exec(m: &MessageInfo, q: &str) -> (r: bool)
    ensures
        r == search_hit(*m, q@),
{
    if mentions_exec(m.subject.as_str(), q) || mentions_exec(m.from.as_str(), q)
        || mentions_exec(m.to.as_str(), q) || mentions_exec(m.cc.as_str(), q) {
        return true;
    }
    match &m.snippet {
        Some(s) => mentions_exec(s.as_str(), q),
        None => false,
    }
}

/// Check if a message passes filters, optionally skipping the search query
/// (search results already come from a full-text search).
pub fn message_matches_with_options(state: &FilterState, query: &str, msg: &MessageInfo, skip_search_filter: bool) -> (r: bool)
    ensures
        r == matches(*state, query@, *msg, skip_search_filter),
{
    if state.unread_only && msg.is_read {
        return false;
    }
    if state.starred_only && !msg.is_starred {
        return false;
    }
    if state.has_attachments && !msg.has_attachments {
        return false;
    }
    if !state.from_contains.as_str().is_empty() {
        let needle = to_lowercase(state.from_contains.as_str());
        if !mentions_exec(msg.from.as_str(), needle.as_str()) {
            return false;
        }
    }
    if !state.to_cc_contains.as_str().is_empty() {
        let needle = to_lowercase(state.to_cc_contains.as_str());
        if !mentions_exec(msg.to.as_str(), needle.as_str()) && !mentions_exec(msg.cc.as_str(), needle.as_str()) {
            return false;
        }
    }
    match state.date_after {
        Some(after) => match msg.date_epoch {
            Some(epoch) => {
                if epoch < after {
                    return false;
                }
            },
            None => {
                return false;
            },
        },
        None => {},
    }
    match state.date_before {
        Some(before) => match msg.date_epoch {
            Some(epoch) => {
                if epoch > before {
                    return false;
                }
            },
            None => {
                return false;
            },
        },
        None => {},
    }
    if !skip_search_filter && !query.is_empty() {
        let q = to_lowercase(query);
        if !search_hit_exec(msg, q.as_str()) {
            return false;
        }
    }
    true
}

/// Check if a message passes all active filters and the search query.
pub fn message_matches(state: &FilterState, query: &str, msg: &MessageInfo) -> (r: bool)
    ensures
        r == matches(*state, query@, *msg, false),
{
    message_matches_with_options(state, query, msg, false)
}

// ───────────────────────── order and uniqueness ─────────────────────────

/// Some message of `s` has this UID.
pub open spec fn has_uid(s: Seq<MessageInfo>, uid: u32) -> bool {
    exists|j: int| 0 <= j < s.len() && #[trigger] s[j].uid == uid
}

/// No UID occurs twice in `s`.
pub open spec fn uids_unique(s: Seq<MessageInfo>) -> bool {
    forall|i: int, j: int| 0 <= i < j < s.len() ==> #[trigger] s[i].uid != #[trigger] s[j].uid
}

/// `s` with every message dropped whose UID occurred earlier (the first one stays).
pub open spec fn dedup_by_uid(s: Seq<MessageInfo>) -> Seq<MessageInfo>
    decreases s.len(),
{
    if s.len() == 0 {
        s
    } else {
        let d = dedup_by_uid(s.drop_last());
        if has_uid(s.drop_last(), s.last().uid) {
            d
        } else {
            d.push(s.last())
        }
    }
}

/// `a` is listed before `b`: newer dates first, messages without a date
/// ahead of dated ones, and among those the higher UID first.
pub open spec fn listed_before(a: MessageInfo, b: MessageInfo) -> bool {
    match (a.date_epoch, b.date_epoch) {
        (Some(x), Some(y)) => x > y,
        (None, Some(_)) => true,
        (Some(_), None) => false,
        (None, None) => a.uid > b.uid,
    }
}

/// Inserts `x` in front of the first message that it is listed before.
pub open spec fn insert_listed(r: Seq<MessageInfo>, x: MessageInfo) -> Seq<MessageInfo>
    decreases r.len(),
{
    if r.len() == 0 {
        seq![x]
    } else if listed_before(x, r[0]) {
        seq![x] + r
    } else {
        seq![r[0]] + insert_listed(r.drop_first(), x)
    }
}

/// The stable sort of `s` by `listed_before`: messages that compare equal
/// keep the order they came in.
pub open spec fn sort_listed(s: Seq<MessageInfo>) -> Seq<MessageInfo>
    decreases s.len(),
{
    if s.len() == 0 {
        s
    } else {
        insert_listed(sort_listed(s.drop_last()), s.last())
    }
}

/// No message of `s` is listed before one that comes earlier.
pub open spec fn sorted_listed(s: Seq<MessageInfo>) -> bool {
    forall|i: int, j: int| 0 <= i < j < s.len() ==> !listed_before(#[trigger] s[j], #[trigger] s[i])
}

proof fn lemma_listed_before_order(a: MessageInfo, b: MessageInfo, c: MessageInfo)
    ensures
        !listed_before(a, a),
        listed_before(a, b) ==> !listed_before(b, a),
        listed_before(a, b) && listed_before(b, c) ==> listed_before(a, c),
        !listed_before(a, b) && !listed_before(b, c) ==> !listed_before(a, c),
{
}

proof fn lemma_insert_listed_at(r: Seq<MessageInfo>, x: MessageInfo, k: int)
    requires
        0 <= k <= r.len(),
        forall|j: int| 0 <= j < k ==> !listed_before(x, #[trigger] r[j]),
        k < r.len() ==> listed_before(x, r[k]),
    ensures
        insert_listed(r, x) == r.insert(k, x),
    decreases r.len(),
{
    if r.len() == 0 {
        assert(r.insert(k, x) =~= seq![x]);
    } else if k == 0 {
        assert(r.insert(0, x) =~= seq![x] + r);
    } else {
        let t = r.drop_first();
        assert forall|j: int| 0 <= j < k - 1 implies !listed_before(x, #[trigger] t[j]) by {
            assert(t[j] == r[j + 1]);
        }
        lemma_insert_listed_at(t, x, k - 1);
        assert(seq![r[0]] + t.insert(k - 1, x) =~= r.insert(k, x));
    }
}

proof fn lemma_insert_listed_facts(r: Seq<MessageInfo>, x: MessageInfo)
    ensures
        insert_listed(r, x).len() == r.len() + 1,
        forall|k: int| 0 <= k < r.len() + 1 ==> #[trigger] insert_listed(r, x)[k] == x
            || r.contains(insert_listed(r, x)[k]),
        sorted_listed(r) ==> sorted_listed(insert_listed(r, x)),
        insert_listed(r, x).to_multiset() == r.to_multiset().insert(x),
    decreases r.len(),
{
    broadcast use vstd::seq_lib::group_to_multiset_ensures;
    if r.len() == 0 {
        assert(seq![x] =~= Seq::<MessageInfo>::empty().push(x));
    } else if listed_before(x, r[0]) {
        let s = seq![x] + r;
        assert forall|k: int| 0 <= k < r.len() + 1 implies #[trigger] s[k] == x || r.contains(s[k]) by {
            if k > 0 {
                assert(s[k] == r[k - 1]);
            }
        }
        if sorted_listed(r) {
            assert forall|i: int, j: int| 0 <= i < j < s.len() implies !listed_before(#[trigger] s[j], #[trigger] s[i]) by {
                if i == 0 {
                    assert(s[j] == r[j - 1]);
                    if j > 1 {
                        assert(!listed_before(r[j - 1], r[0]));
                    }
                    lemma_listed_before_order(s[j], r[0], x);
                    lemma_listed_before_order(x, r[0], s[j]);
                } else {
                    assert(s[i] == r[i - 1] && s[j] == r[j - 1]);
                }
            }
        }
        vstd::seq_lib::lemma_multiset_commutative(seq![x], r);
        assert(seq![x] =~= Seq::<MessageInfo>::empty().push(x));
    } else {
        let t = r.drop_first();
        lemma_insert_listed_facts(t, x);
        let it = insert_listed(t, x);
        let s = seq![r[0]] + it;
        assert(s == insert_listed(r, x));
        assert forall|k: int| 0 <= k < r.len() + 1 implies #[trigger] s[k] == x || r.contains(s[k]) by {
            if k == 0 {
                assert(r[0] == s[0]);
            } else {
                assert(s[k] == it[k - 1]);
                if it[k - 1] != x {
                    assert(t.contains(it[k - 1]));
                    let m = choose|m: int| 0 <= m < t.len() && t[m] == it[k - 1];
                    assert(r[m + 1] == t[m]);
                }
            }
        }
        if sorted_listed(r) {
            assert(sorted_listed(t)) by {
                assert forall|i: int, j: int| 0 <= i < j < t.len() implies !listed_before(#[trigger] t[j], #[trigger] t[i]) by {
                    assert(t[i] == r[i + 1] && t[j] == r[j + 1]);
                }
            }
            assert forall|i: int, j: int| 0 <= i < j < s.len() implies !listed_before(#[trigger] s[j], #[trigger] s[i]) by {
                if i == 0 {
                    assert(s[j] == it[j - 1]);
                    if it[j - 1] != x {
                        assert(t.contains(it[j - 1]));
                        let m = choose|m: int| 0 <= m < t.len() && t[m] == it[j - 1];
                        assert(r[m + 1] == t[m]);
                        assert(!listed_before(r[m + 1], r[0]));
                    }
                } else {
                    assert(s[i] == it[i - 1] && s[j] == it[j - 1]);
                }
            }
        }
        vstd::seq_lib::lemma_multiset_commutative(seq![r[0]], it);
        vstd::seq_lib::lemma_multiset_commutative(seq![r[0]], t);
        assert(seq![r[0]] + t =~= r);
        assert(r.to_multiset().insert(x) =~= seq![r[0]].to_multiset().add(t.to_multiset().insert(x)));
    }
}

/// The sorted list is in order and holds exactly the messages it was given.
pub proof fn law_sort_listed(s: Seq<MessageInfo>)
    ensures
        sorted_listed(sort_listed(s)),
        sort_listed(s).to_multiset() == s.to_multiset(),
        sort_listed(s).len() == s.len(),
    decreases s.len(),
{
    broadcast use vstd::seq_lib::group_to_multiset_ensures;
    if s.len() > 0 {
        law_sort_listed(s.drop_last());
        lemma_insert_listed_facts(sort_listed(s.drop_last()), s.last());
        assert(s.drop_last().push(s.last()) =~= s);
    }
}

proof fn lemma_dedup_has_uid(s: Seq<MessageInfo>, u: u32)
    ensures
        has_uid(dedup_by_uid(s), u) <==> has_uid(s, u),
    decreases s.len(),
{
    if s.len() > 0 {
        let p = s.drop_last();
        let x = s.last();
        lemma_dedup_has_uid(p, u);
        let d = dedup_by_uid(p);
        assert(has_uid(s, u) <==> has_uid(p, u) || x.uid == u) by {
            if has_uid(s, u) {
                let j = choose|j: int| 0 <= j < s.len() && #[trigger] s[j].uid == u;
                if j < p.len() {
                    assert(p[j].uid == u);
                }
            }
            if has_uid(p, u) {
                let j = choose|j: int| 0 <= j < p.len() && #[trigger] p[j].uid == u;
                assert(s[j].uid == u);
            }
            if x.uid == u {
                assert(s[s.len() - 1].uid == u);
            }
        }
        if !has_uid(p, x.uid) {
            let e = d.push(x);
            assert(has_uid(e, u) <==> has_uid(d, u) || x.uid == u) by {
                if has_uid(e, u) {
                    let j = choose|j: int| 0 <= j < e.len() && #[trigger] e[j].uid == u;
                    if j < d.len() {
                        assert(d[j].uid == u);
                    }
                }
                if has_uid(d, u) {
                    let j = choose|j: int| 0 <= j < d.len() && #[trigger] d[j].uid == u;
                    assert(e[j].uid == u);
                }
                if x.uid == u {
                    assert(e[d.len() as int].uid == u);
                }
            }
        }
    }
}

/// After dropping repeated UIDs no UID occurs twice, and every UID of the
/// input is still there.
pub proof fn law_dedup_by_uid(s: Seq<MessageInfo>, u: u32)
    ensures
        uids_unique(dedup_by_uid(s)),
        has_uid(dedup_by_uid(s), u) <==> has_uid(s, u),
    decreases s.len(),
{
    lemma_dedup_has_uid(s, u);
    if s.len() > 0 {
        let p = s.drop_last();
        law_dedup_by_uid(p, u);
        let d = dedup_by_uid(p);
        if !has_uid(p, s.last().uid) {
            lemma_dedup_has_uid(p, s.last().uid);
            let e = d.push(s.last());
            assert forall|i: int, j: int| 0 <= i < j < e.len() implies #[trigger] e[i].uid != #[trigger] e[j].uid by {
                if j == d.len() {
                    assert(e[i] == d[i]);
                    if d[i].uid == s.last().uid {
                        assert(has_uid(d, s.last().uid));
                    }
                } else {
                    assert(e[i] == d[i] && e[j] == d[j]);
                }
            }
        }
    }
}

/// Whether some message of `v` has this UID.
fn has_uid_exec(v: &Vec<MessageInfo>, uid: u32) -> (r: bool)
    ensures
        r == has_uid(v@, uid),
{
    let mut i: usize = 0;
    while i < v.len()
        invariant
            i <= v@.len(),
            forall|j: int| 0 <= j < i ==> v@[j].uid != uid,
        decreases v@.len() - i,
    {
        if v[i].uid == uid {
            return true;
        }
        i += 1;
    }
    false
}

/// Deduplicate by UID, keeping the first occurrence.
pub fn dedup_messages(messages: Vec<MessageInfo>) -> (r: Vec<MessageInfo>)
    ensures
        r@ == dedup_by_uid(messages@),
{
    let ghost s = messages@;
    assert(s.len() == messages.len());
    let mut rest = messages;
    let mut out: Vec<MessageInfo> = Vec::new();
    let mut i: usize = 0;
    while rest.len() > 0
        invariant
            i <= s.len(),
            s.len() <= usize::MAX,
            i + rest@.len() == s.len(),
            rest@ == s.skip(i as int),
            out@ == dedup_by_uid(s.take(i as int)),
        decreases rest@.len(),
    {
        let m = rest.remove(0);
        proof {
            assert(m == s[i as int]);
            assert(s.take(i + 1).drop_last() =~= s.take(i as int));
            lemma_dedup_has_uid(s.take(i as int), m.uid);
            assert(rest@ =~= s.skip(i + 1));
        }
        if !has_uid_exec(&out, m.uid) {
            out.push(m);
        }
        i += 1;
    }
    proof {
        assert(s.take(i as int) =~= s);
    }
    out
}

/// `a` is listed before `b`.
fn listed_before_exec(a: &MessageInfo, b: &MessageInfo) -> (r: bool)
    ensures
        r == listed_before(*a, *b),
{
    match (a.date_epoch, b.date_epoch) {
        (Some(x), Some(y)) => x > y,
        (None, Some(_)) => true,
        (Some(_), None) => false,
        (None, None) => a.uid > b.uid,
    }
}

/// Sort messages newest first; messages that compare equal keep their order.
pub fn sort_messages(messages: Vec<MessageInfo>) -> (r: Vec<MessageInfo>)
    ensures
        r@ == sort_listed(messages@),
{
    let ghost s = messages@;
    assert(s.len() == messages.len());
    let mut rest = messages;
    let mut out: Vec<MessageInfo> = Vec::new();
    let mut i: usize = 0;
    while rest.len() > 0
        invariant
            i <= s.len(),
            s.len() <= usize::MAX,
            i + rest@.len() == s.len(),
            rest@ == s.skip(i as int),
            out@ == sort_listed(s.take(i as int)),
        decreases rest@.len(),
    {
        let m = rest.remove(0);
        proof {
            assert(m == s[i as int]);
            assert(s.take(i + 1).drop_last() =~= s.take(i as int));
            assert(rest@ =~= s.skip(i + 1));
        }
        let mut k: usize = 0;
        while k < out.len() && !listed_before_exec(&m, &out[k])
            invariant
                k <= out@.len(),
                forall|j: int| 0 <= j < k ==> !listed_before(m, #[trigger] out@[j]),
            decreases out@.len() - k,
        {
            k += 1;
        }
        proof {
            lemma_insert_listed_at(out@, m, k as int);
        }
        out.insert(k, m);
        i += 1;
    }
    proof {
        assert(s.take(i as int) =~= s);
    }
    out
}

/// Deduplicate by UID (first occurrence wins), then sort newest first: the
/// list a folder shows.
pub fn prepare_messages(messages: Vec<MessageInfo>) -> (r: Vec<MessageInfo>)
    ensures
        r@ == sort_listed(dedup_by_uid(messages@)),
{
    let d = dedup_messages(messages);
    sort_messages(d)
}

// ───────────────────────── the list's state ─────────────────────────

/// The indexes of the first `n` messages that pass the filters, in order.
pub open spec fn visible_upto(ms: Seq<MessageInfo>, st: FilterState, q: Seq<char>, skip: bool, n: int) -> Seq<usize>
    decreases n,
{
    if n <= 0 {
        Seq::empty()
    } else {
        let p = visible_upto(ms, st, q, skip, n - 1);
        if matches(st, q, ms[n - 1], skip) {
            p.push((n - 1) as usize)
        } else {
            p
        }
    }
}

/// The indexes of the messages that pass the filters, in list order.
pub open spec fn visible(ms: Seq<MessageInfo>, st: FilterState, q: Seq<char>, skip: bool) -> Seq<usize> {
    visible_upto(ms, st, q, skip, ms.len() as int)
}

/// The UIDs of the visible messages, row by row.
pub open spec fn visible_uids(ms: Seq<MessageInfo>, vis: Seq<usize>) -> Seq<u32> {
    vis.map_values(|k: usize| ms[k as int].uid)
}

/// `s` without the messages whose UID is listed in `uids`.
pub open spec fn without_uids(s: Seq<MessageInfo>, uids: Seq<u32>) -> Seq<MessageInfo>
    decreases s.len(),
{
    if s.len() == 0 {
        s
    } else {
        let p = without_uids(s.drop_last(), uids);
        if uids.contains(s.last().uid) {
            p
        } else {
            p.push(s.last())
        }
    }
}

/// The messages of `new` whose UID `stored` does not hold yet.
pub open spec fn fresh(stored: Seq<MessageInfo>, new: Seq<MessageInfo>) -> Seq<MessageInfo>
    decreases new.len(),
{
    if new.len() == 0 {
        new
    } else {
        let p = fresh(stored, new.drop_last());
        if has_uid(stored, new.last().uid) {
            p
        } else {
            p.push(new.last())
        }
    }
}

/// The position of the first message with this UID.
pub open spec fn first_with_uid(s: Seq<MessageInfo>, uid: u32) -> Option<int>
    decreases s.len(),
{
    if s.len() == 0 {
        None
    } else if s[0].uid == uid {
        Some(0)
    } else {
        match first_with_uid(s.drop_first(), uid) {
            Some(i) => Some(i + 1),
            None => None,
        }
    }
}

/// `s` with the read flag of the first message with this UID set to `b`.
pub open spec fn with_read(s: Seq<MessageInfo>, uid: u32, b: bool) -> Seq<MessageInfo> {
    match first_with_uid(s, uid) {
        Some(i) => s.update(i, MessageInfo { is_read: b, ..s[i] }),
        None => s,
    }
}

/// `s` with the starred flag of the first message with this UID set to `b`.
pub open spec fn with_starred(s: Seq<MessageInfo>, uid: u32, b: bool) -> Seq<MessageInfo> {
    match first_with_uid(s, uid) {
        Some(i) => s.update(i, MessageInfo { is_starred: b, ..s[i] }),
        None => s,
    }
}

/// The UIDs of `sel` not listed in `uids`, in order.
pub open spec fn drop_uids(sel: Seq<u32>, uids: Seq<u32>) -> Seq<u32>
    decreases sel.len(),
{
    if sel.len() == 0 {
        sel
    } else {
        let p = drop_uids(sel.drop_last(), uids);
        if uids.contains(sel.last()) {
            p
        } else {
            p.push(sel.last())
        }
    }
}

/// The selected messages of `ms`, in list order.
pub open spec fn selected_of(ms: Seq<MessageInfo>, sel: Seq<u32>) -> Seq<MessageInfo>
    decreases ms.len(),
{
    if ms.len() == 0 {
        ms
    } else {
        let p = selected_of(ms.drop_last(), sel);
        if sel.contains(ms.last().uid) {
            p.push(ms.last())
        } else {
            p
        }
    }
}

/// One entry of the data handed to bulk actions: `uid:msg_id:folder_id`.
pub open spec fn bulk_entry(m: MessageInfo) -> Seq<char> {
    decimal(m.uid as nat) + seq![':'] + signed_decimal(m.id as int) + seq![':'] + signed_decimal(m.folder_id as int)
}

/// The selected messages encoded for a bulk action, joined with `|`.
pub open spec fn bulk_data(ms: Seq<MessageInfo>, sel: Seq<u32>) -> Seq<char> {
    join_with(selected_of(ms, sel).map_values(|m: MessageInfo| bulk_entry(m)), '|')
}

/// No UID is listed twice.
pub open spec fn no_dup(s: Seq<u32>) -> bool {
    forall|i: int, j: int| 0 <= i < j < s.len() ==> s[i] != s[j]
}

/// `s` with `u` appended unless it is there already.
pub open spec fn add_uid(s: Seq<u32>, u: u32) -> Seq<u32> {
    if s.contains(u) {
        s
    } else {
        s.push(u)
    }
}

/// The selection after adding the rows `lo..hi` of the list one by one.
pub open spec fn add_rows(sel: Seq<u32>, rows: Seq<u32>, lo: int, hi: int) -> Seq<u32>
    decreases hi - lo,
{
    if lo >= hi || lo < 0 || lo >= rows.len() {
        sel
    } else {
        add_rows(add_uid(sel, rows[lo]), rows, lo + 1, hi)
    }
}

/// Why the list shows no rows.
#[derive(Clone, Copy, PartialEq, Eq, Debug, Structural)]
pub enum EmptyList {
    /// A search is active and found nothing among the messages.
    NoResults,
    /// The filters hide every message.
    NoMatchingMessages,
    /// The folder holds no message.
    EmptyFolder,
}

impl EmptyList {
    /// The placeholder's title.
    pub fn title(&self) -> (r: &'static str)
        ensures
            *self == EmptyList::NoResults ==> r@ == "No Results"@,
            *self == EmptyList::NoMatchingMessages ==> r@ == "No Matching Messages"@,
            *self == EmptyList::EmptyFolder ==> r@ == "Empty Folder"@,
    {
        match self {
            EmptyList::NoResults => "No Results",
            EmptyList::NoMatchingMessages => "No Matching Messages",
            EmptyList::EmptyFolder => "Empty Folder",
        }
    }

    /// The placeholder's description.
    pub fn description(&self) -> (r: &'static str)
        ensures
            *self == EmptyList::NoResults ==> r@ == "No messages match your search"@,
            *self == EmptyList::NoMatchingMessages ==> r@ == "Try adjusting your filters"@,
            *self == EmptyList::EmptyFolder ==> r@ == "There are no messages in this folder"@,
    {
        match self {
            EmptyList::NoResults => "No messages match your search",
            EmptyList::NoMatchingMessages => "Try adjusting your filters",
            EmptyList::EmptyFolder => "There are no messages in this folder",
        }
    }
}

/// Which placeholder an empty list shows.
pub open spec fn empty_kind(query: Seq<char>, st: FilterState, n_messages: nat) -> EmptyList {
    if query.len() > 0 && n_messages > 0 {
        EmptyList::NoResults
    } else if st.active() && n_messages > 0 {
        EmptyList::NoMatchingMessages
    } else {
        EmptyList::EmptyFolder
    }
}

/// What the list shows: rows for the given message indexes, or a placeholder.
pub enum ListDisplay {
    Rows(Vec<usize>),
    Placeholder(EmptyList),
}

/// The message list's state: the loaded messages (newest first, one per
/// UID), the filter panel, the search query, the selection and the folder
/// the list belongs to.
pub struct MessageListState {
    pub messages: Vec<MessageInfo>,
    pub filter_state: FilterState,
    pub search_query: String,
    pub selected_uids: Vec<u32>,
    pub anchor_index: Option<usize>,
    pub current_account_id: String,
    pub current_folder_path: String,
    pub total_count: u32,
    pub can_load_more: bool,
    pub is_loading_more: bool,
    pub is_loading: bool,
}

fn visible_indices(ms: &Vec<MessageInfo>, st: &FilterState, q: &str, skip: bool) -> (r: Vec<usize>)
    ensures
        r@ == visible(ms@, *st, q@, skip),
        forall|k: int| 0 <= k < r@.len() ==> #[trigger] r@[k] < ms@.len(),
{
    let mut r: Vec<usize> = Vec::new();
    let mut i: usize = 0;
    while i < ms.len()
        invariant
            i <= ms@.len(),
            r@ == visible_upto(ms@, *st, q@, skip, i as int),
            forall|k: int| 0 <= k < r@.len() ==> #[trigger] r@[k] < i,
        decreases ms@.len() - i,
    {
        if message_matches_with_options(st, q, &ms[i], skip) {
            r.push(i);
        }
        i += 1;
    }
    r
}

fn contains_uid(v: &Vec<u32>, x: u32) -> (r: bool)
    ensures
        r == v@.contains(x),
{
    let mut i: usize = 0;
    while i < v.len()
        invariant
            i <= v@.len(),
            forall|j: int| 0 <= j < i ==> v@[j] != x,
        decreases v@.len() - i,
    {
        if v[i] == x {
            assert(v@[i as int] == x);
            return true;
        }
        i += 1;
    }
    false
}

pub(crate) fn first_with_uid_exec(v: &Vec<MessageInfo>, uid: u32) -> (r: Option<usize>)
    ensures
        match r {
            Some(i) => first_with_uid(v@, uid) == Some(i as int) && i < v@.len(),
            None => first_with_uid(v@, uid) is None,
        },
{
    let mut i: usize = 0;
    while i < v.len()
        invariant
            i <= v@.len(),
            forall|j: int| 0 <= j < i ==> v@[j].uid != uid,
        decreases v@.len() - i,
    {
        if v[i].uid == uid {
            proof {
                lemma_first_with_uid(v@, uid, i as int);
            }
            return Some(i);
        }
        i += 1;
    }
    proof {
        lemma_first_with_uid(v@, uid, v@.len() as int);
    }
    None
}

proof fn lemma_first_with_uid(s: Seq<MessageInfo>, uid: u32, i: int)
    requires
        0 <= i <= s.len(),
        forall|j: int| 0 <= j < i ==> s[j].uid != uid,
        i < s.len() ==> s[i].uid == uid,
    ensures
        first_with_uid(s, uid) == if i < s.len() { Some(i) } else { None::<int> },
    decreases s.len(),
{
    if s.len() > 0 && i > 0 {
        let t = s.drop_first();
        assert forall|j: int| 0 <= j < i - 1 implies t[j].uid != uid by {
            assert(t[j] == s[j + 1]);
        }
        lemma_first_with_uid(t, uid, i - 1);
    }
}

/// Moves out the messages of `v` that `keep` admits, in order.
fn retain_without(v: Vec<MessageInfo>, uids: &Vec<u32>) -> (r: Vec<MessageInfo>)
    ensures
        r@ == without_uids(v@, uids@),
{
    let ghost s = v@;
    assert(s.len() == v.len());
    let mut rest = v;
    let mut out: Vec<MessageInfo> = Vec::new();
    let mut i: usize = 0;
    while rest.len() > 0
        invariant
            s.len() <= usize::MAX,
            i + rest@.len() == s.len(),
            rest@ == s.skip(i as int),
            out@ == without_uids(s.take(i as int), uids@),
        decreases rest@.len(),
    {
        let m = rest.remove(0);
        proof {
            assert(m == s[i as int]);
            assert(s.take(i + 1).drop_last() =~= s.take(i as int));
            assert(rest@ =~= s.skip(i + 1));
        }
        if !contains_uid(uids, m.uid) {
            out.push(m);
        }
        i += 1;
    }
    proof {
        assert(s.take(i as int) =~= s);
    }
    out
}

impl MessageInfo {
    /// An identical copy of the message.
    pub fn copy(&self) -> (r: MessageInfo)
        ensures
            r == *self,
    {
        MessageInfo {
            id: self.id,
            uid: self.uid,
            folder_id: self.folder_id,
            message_id: match &self.message_id {
                Some(s) => Some(s.clone()),
                None => None,
            },
            subject: self.subject.clone(),
            from: self.from.clone(),
            from_address: self.from_address.clone(),
            to: self.to.clone(),
            cc: self.cc.clone(),
            date: self.date.clone(),
            date_epoch: self.date_epoch,
            snippet: match &self.snippet {
                Some(s) => Some(s.clone()),
                None => None,
            },
            is_read: self.is_read,
            is_starred: self.is_starred,
            has_attachments: self.has_attachments,
        }
    }
}

/// The selection after a click on row `index`, and the message to show.
pub open spec fn click_outcome(
    sel: Seq<u32>,
    anchor: Option<usize>,
    rows: Seq<u32>,
    index: usize,
    row_count: usize,
    ctrl: bool,
    shift: bool,
    row_was_selected: bool,
) -> (Seq<u32>, Option<usize>, Option<u32>) {
    if shift {
        let a = match anchor {
            Some(x) => x as int,
            None => 0,
        };
        let lo = if a < index { a } else { index as int };
        let hi = if a < index { index as int } else { a };
        let stop = if hi + 1 < row_count { hi + 1 } else { row_count as int };
        let base = if ctrl { sel } else { Seq::<u32>::empty() };
        (add_rows(base, rows, lo, stop), anchor, None)
    } else if ctrl {
        let s2 = if index < rows.len() {
            if row_was_selected {
                drop_uids(sel, seq![rows[index as int]])
            } else {
                add_uid(sel, rows[index as int])
            }
        } else {
            sel
        };
        (s2, Some(index), None)
    } else if index < rows.len() {
        (seq![rows[index as int]], Some(index), Some(rows[index as int]))
    } else {
        (sel, Some(index), None)
    }
}

proof fn lemma_add_uid_no_dup(s: Seq<u32>, u: u32)
    requires
        no_dup(s),
    ensures
        no_dup(add_uid(s, u)),
{
    if !s.contains(u) {
        let t = s.push(u);
        assert forall|i: int, j: int| 0 <= i < j < t.len() implies t[i] != t[j] by {
            if j == s.len() {
                assert(t[i] == s[i]);
            }
        }
    }
}

proof fn lemma_add_rows_no_dup(sel: Seq<u32>, rows: Seq<u32>, lo: int, hi: int)
    requires
        no_dup(sel),
    ensures
        no_dup(add_rows(sel, rows, lo, hi)),
    decreases hi - lo,
{
    if !(lo >= hi || lo < 0 || lo >= rows.len()) {
        lemma_add_uid_no_dup(sel, rows[lo]);
        lemma_add_rows_no_dup(add_uid(sel, rows[lo]), rows, lo + 1, hi);
    }
}

proof fn lemma_drop_uids_no_dup(sel: Seq<u32>, uids: Seq<u32>)
    requires
        no_dup(sel),
    ensures
        no_dup(drop_uids(sel, uids)),
        forall|u: u32| drop_uids(sel, uids).contains(u) ==> sel.contains(u),
    decreases sel.len(),
{
    if sel.len() > 0 {
        let p = sel.drop_last();
        assert(no_dup(p)) by {
            assert forall|i: int, j: int| 0 <= i < j < p.len() implies p[i] != p[j] by {
                assert(p[i] == sel[i] && p[j] == sel[j]);
            }
        }
        lemma_drop_uids_no_dup(p, uids);
        let d = drop_uids(p, uids);
        assert forall|u: u32| d.contains(u) implies sel.contains(u) by {
            assert(p.contains(u));
            let w = choose|w: int| 0 <= w < p.len() && p[w] == u;
            assert(sel[w] == u);
        }
        if !uids.contains(sel.last()) {
            let t = d.push(sel.last());
            assert forall|i: int, j: int| 0 <= i < j < t.len() implies t[i] != t[j] by {
                if j == d.len() {
                    assert(t[i] == d[i]);
                    assert(d.contains(d[i]));
                    assert(p.contains(d[i]));
                    let w = choose|w: int| 0 <= w < p.len() && p[w] == d[i];
                    assert(sel[w] == p[w]);
                }
            }
            assert forall|u: u32| t.contains(u) implies sel.contains(u) by {
                let w = choose|w: int| 0 <= w < t.len() && t[w] == u;
                if w == d.len() {
                    assert(sel[sel.len() - 1] == u);
                } else {
                    assert(d.contains(u));
                }
            }
        }
    }
}

/// A click never lists a UID twice in the selection: every kind of click
/// keeps a selection without repeats free of them, and a shift-click without
/// Ctrl or a plain click on a row leaves none whatever came before.
pub proof fn law_click_keeps_selection_unique(
    sel: Seq<u32>,
    anchor: Option<usize>,
    rows: Seq<u32>,
    index: usize,
    row_count: usize,
    ctrl: bool,
    shift: bool,
    row_was_selected: bool,
)
    ensures
        no_dup(sel) ==> no_dup(click_outcome(sel, anchor, rows, index, row_count, ctrl, shift, row_was_selected).0),
        !ctrl && (shift || index < rows.len()) ==> no_dup(
            click_outcome(sel, anchor, rows, index, row_count, ctrl, shift, row_was_selected).0),
{
    let out = click_outcome(sel, anchor, rows, index, row_count, ctrl, shift, row_was_selected).0;
    let e = Seq::<u32>::empty();
    assert(no_dup(e));
    if shift {
        let a = match anchor {
            Some(x) => x as int,
            None => 0,
        };
        let lo = if a < index { a } else { index as int };
        let hi = if a < index { index as int } else { a };
        let stop = if hi + 1 < row_count { hi + 1 } else { row_count as int };
        if ctrl {
            if no_dup(sel) {
                lemma_add_rows_no_dup(sel, rows, lo, stop);
            }
        } else {
            lemma_add_rows_no_dup(e, rows, lo, stop);
        }
    } else if ctrl {
        if no_dup(sel) && index < rows.len() {
            lemma_drop_uids_no_dup(sel, seq![rows[index as int]]);
            lemma_add_uid_no_dup(sel, rows[index as int]);
        }
    } else if index < rows.len() {
        assert(no_dup(seq![rows[index as int]]));
    }
}

// ───────────────────────── rows ─────────────────────────

/// Text made safe for Pango markup: `&`, `<` and `>` become entities.
pub open spec fn escaped(s: Seq<char>) -> Seq<char> {
    replace_char(replace_char(replace_char(s, '&', "&amp;"@), '<', "&lt;"@), '>', "&gt;"@)
}

/// Escape XML/Pango markup special characters
pub fn escape_markup(text: &str) -> (r: String)
    ensures
        r@ == escaped(text@),
{
    let c = chars_of(text);
    let a = replace_char_exec(&c, '&', "&amp;");
    let b = replace_char_exec(&a, '<', "&lt;");
    let d = replace_char_exec(&b, '>', "&gt;");
    string_of(&d)
}

/// The subject shown for a message: `(No Subject)` when it has none.
pub open spec fn shown_subject(s: Seq<char>) -> Seq<char> {
    if s.len() == 0 { "(No Subject)"@ } else { s }
}

/// A text cut to `keep` characters and `...` when it has more than `max`.
pub open spec fn shortened(s: Seq<char>, max: nat, keep: nat) -> Seq<char> {
    if s.len() > max { s.take(keep as int) + "..."@ } else { s }
}

fn shortened_exec(s: &str, max: usize, keep: usize) -> (r: String)
    requires
        keep <= max,
    ensures
        r@ == shortened(s@, max as nat, keep as nat),
{
    let c = chars_of(s);
    if c.len() > max {
        let mut v = slice_of(&c, 0, keep);
        extend_str(&mut v, "...");
        proof {
            assert(c@.subrange(0, keep as int) =~= c@.take(keep as int));
        }
        string_of(&v)
    } else {
        s.to_string()
    }
}

/// What a row of the message list shows.
pub struct RowLabels {
    /// The sender, escaped; in bold while unread.
    pub sender: String,
    pub bold_sender: bool,
    /// The date as the list shows it.
    pub date: String,
    /// The subject (or `(No Subject)`), escaped; dimmed once read.
    pub subject: String,
    pub dim_subject: bool,
    /// The blue dot of an unread message.
    pub unread_dot: bool,
    /// The paper clip of a message with attachments.
    pub attachment_icon: bool,
    /// The star button's state.
    pub starred: bool,
    /// The preview line, escaped, when the message has a non-empty snippet.
    pub preview: Option<String>,
    /// The subject and sender shown while the row is dragged.
    pub drag_subject: String,
    pub drag_from: String,
}

/// The row can be drawn: its date either reads as a date header or can be
/// cut between characters.
pub open spec fn row_drawable(m: MessageInfo, today: Option<Today>) -> bool {
    email_date_label(m.date@, today) is None ==> fallback_cut_ok(m.date@)
}

/// What the row of a message shows.
pub fn row_labels(msg: &MessageInfo, today: Option<Today>) -> (r: RowLabels)
    requires
        today matches Some(t) ==> t.day > i32::MIN,
        row_drawable(*msg, today),
    ensures
        r.sender@ == escaped(msg.from@),
        r.bold_sender == !msg.is_read,
        r.date@ == date_label(msg.date@, today),
        r.subject@ == escaped(shown_subject(msg.subject@)),
        r.dim_subject == msg.is_read,
        r.unread_dot == !msg.is_read,
        r.attachment_icon == msg.has_attachments,
        r.starred == msg.is_starred,
        match msg.snippet {
            Some(s) => if s@.len() > 0 {
                r.preview matches Some(p) && p@ == escaped(s@)
            } else {
                r.preview is None
            },
            None => r.preview is None,
        },
        r.drag_subject@ == if msg.subject@.len() == 0 { "(No Subject)"@ } else { shortened(msg.subject@, 40, 37) },
        r.drag_from@ == shortened(msg.from@, 25, 22),
{
    let subject_text = if msg.subject.as_str().is_empty() {
        "(No Subject)".to_string()
    } else {
        msg.subject.clone()
    };
    let preview = match &msg.snippet {
        Some(s) => if !s.as_str().is_empty() { Some(escape_markup(s.as_str())) } else { None },
        None => None,
    };
    let drag_subject = if msg.subject.as_str().is_empty() {
        "(No Subject)".to_string()
    } else {
        shortened_exec(msg.subject.as_str(), 40, 37)
    };
    RowLabels {
        sender: escape_markup(msg.from.as_str()),
        bold_sender: !msg.is_read,
        date: format_date(msg.date.as_str(), today),
        subject: escape_markup(subject_text.as_str()),
        dim_subject: msg.is_read,
        unread_dot: !msg.is_read,
        attachment_icon: msg.has_attachments,
        starred: msg.is_starred,
        preview,
        drag_subject,
        drag_from: shortened_exec(msg.from.as_str(), 25, 22),
    }
}

impl MessageListState {
    /// An empty list with no filter, search or selection.
    pub fn new() -> (r: MessageListState)
        ensures
            r.messages@.len() == 0,
            !r.filter_state.active(),
            r.search_query@.len() == 0,
            r.selected_uids@.len() == 0,
            r.anchor_index is None,
            r.current_account_id@.len() == 0,
            r.current_folder_path@.len() == 0,
            r.total_count == 0,
            !r.can_load_more && !r.is_loading_more && !r.is_loading,
    {
        MessageListState {
            messages: Vec::new(),
            filter_state: FilterState::default(),
            search_query: String::new(),
            selected_uids: Vec::new(),
            anchor_index: None,
            current_account_id: String::new(),
            current_folder_path: String::new(),
            total_count: 0,
            can_load_more: false,
            is_loading_more: false,
            is_loading: false,
        }
    }

    /// Whether any filter or search query is active.
    pub fn has_active_filter(&self) -> (r: bool)
        ensures
            r == (self.filter_state.active() || self.search_query@.len() > 0),
    {
        self.filter_state.is_active() || !self.search_query.as_str().is_empty()
    }

    /// Stores a fresh list (one message per UID, newest first) and says
    /// what to show: the rows that pass the filters, or why there are none.
    /// For search results the search query is not applied again.
    pub fn set_messages_inner(&mut self, messages: Vec<MessageInfo>, is_search_results: bool) -> (r: ListDisplay)
        ensures
            final(self).messages@ == sort_listed(dedup_by_uid(messages@)),
            *final(self) == (MessageListState { messages: final(self).messages, is_loading: false, ..*old(self) }),
            ({
                let vis = visible(final(self).messages@, old(self).filter_state, old(self).search_query@, is_search_results);
                match r {
                    ListDisplay::Rows(rows) => vis.len() > 0 && rows@ == vis,
                    ListDisplay::Placeholder(k) => vis.len() == 0 && k == empty_kind(
                        old(self).search_query@, old(self).filter_state, final(self).messages@.len()),
                }
            }),
    {
        self.is_loading = false;
        let prepared = prepare_messages(messages);
        self.messages = prepared;
        let rows = visible_indices(&self.messages, &self.filter_state, self.search_query.as_str(), is_search_results);
        if rows.len() == 0 {
            let has_messages = self.messages.len() > 0;
            if !self.search_query.as_str().is_empty() && has_messages {
                ListDisplay::Placeholder(EmptyList::NoResults)
            } else if self.filter_state.is_active() && has_messages {
                ListDisplay::Placeholder(EmptyList::NoMatchingMessages)
            } else {
                ListDisplay::Placeholder(EmptyList::EmptyFolder)
            }
        } else {
            ListDisplay::Rows(rows)
        }
    }

    /// Replace the list with the messages of a folder.
    pub fn set_messages(&mut self, messages: Vec<MessageInfo>) -> (r: ListDisplay)
        ensures
            final(self).messages@ == sort_listed(dedup_by_uid(messages@)),
            *final(self) == (MessageListState { messages: final(self).messages, is_loading: false, ..*old(self) }),
            ({
                let vis = visible(final(self).messages@, old(self).filter_state, old(self).search_query@, false);
                match r {
                    ListDisplay::Rows(rows) => vis.len() > 0 && rows@ == vis,
                    ListDisplay::Placeholder(k) => vis.len() == 0 && k == empty_kind(
                        old(self).search_query@, old(self).filter_state, final(self).messages@.len()),
                }
            }),
    {
        self.set_messages_inner(messages, false)
    }

    /// Replace the list with full-text search results (the query is not
    /// applied again).
    pub fn set_search_results(&mut self, messages: Vec<MessageInfo>) -> (r: ListDisplay)
        ensures
            final(self).messages@ == sort_listed(dedup_by_uid(messages@)),
            *final(self) == (MessageListState { messages: final(self).messages, is_loading: false, ..*old(self) }),
            ({
                let vis = visible(final(self).messages@, old(self).filter_state, old(self).search_query@, true);
                match r {
                    ListDisplay::Rows(rows) => vis.len() > 0 && rows@ == vis,
                    ListDisplay::Placeholder(k) => vis.len() == 0 && k == empty_kind(
                        old(self).search_query@, old(self).filter_state, final(self).messages@.len()),
                }
            }),
    {
        self.set_messages_inner(messages, true)
    }

    /// The rows to show after a change of the stored messages, and which of
    /// them are to be selected again.
    pub fn rebuild_visible_rows(&self) -> (r: (Vec<usize>, Vec<usize>))
        ensures
            r.0@ == visible(self.messages@, self.filter_state, self.search_query@, false),
            forall|k: int| 0 <= k < r.1@.len() ==> #[trigger] r.1@[k] < r.0@.len()
                && self.selected_uids@.contains(self.messages@[r.0@[r.1@[k] as int] as int].uid),
            forall|p: int| 0 <= p < r.0@.len() && self.selected_uids@.contains(self.messages@[r.0@[p] as int].uid)
                ==> r.1@.contains(p as usize),
    {
        let rows = visible_indices(&self.messages, &self.filter_state, self.search_query.as_str(), false);
        let mut restore: Vec<usize> = Vec::new();
        let mut p: usize = 0;
        while p < rows.len()
            invariant
                p <= rows@.len(),
                forall|k: int| 0 <= k < rows@.len() ==> #[trigger] rows@[k] < self.messages@.len(),
                forall|k: int| 0 <= k < restore@.len() ==> #[trigger] restore@[k] < p
                    && self.selected_uids@.contains(self.messages@[rows@[restore@[k] as int] as int].uid),
                forall|q: int| 0 <= q < p && self.selected_uids@.contains(self.messages@[rows@[q] as int].uid)
                    ==> restore@.contains(q as usize),
            decreases rows@.len() - p,
        {
            let ghost before = restore@;
            if contains_uid(&self.selected_uids, self.messages[rows[p]].uid) {
                restore.push(p);
                proof {
                    assert(restore@[restore@.len() - 1] == p);
                }
            }
            proof {
                assert forall|q: int| 0 <= q < p + 1 && self.selected_uids@.contains(self.messages@[rows@[q] as int].uid)
                    implies restore@.contains(q as usize) by {
                    if q == p {
                        assert(restore@[restore@.len() - 1] == p);
                    } else {
                        assert(before.contains(q as usize));
                        let w = choose|w: int| 0 <= w < before.len() && before[w] == q as usize;
                        assert(restore@[w] == q as usize);
                    }
                }
            }
            p += 1;
        }
        (rows, restore)
    }

    /// Append more messages and keep the list sorted newest first.
    pub fn append_messages(&mut self, messages: Vec<MessageInfo>)
        ensures
            final(self).messages@ == sort_listed(old(self).messages@ + messages@),
            *final(self) == (MessageListState { messages: final(self).messages, is_loading_more: false, ..*old(self) }),
    {
        let mut all: Vec<MessageInfo> = Vec::new();
        std::mem::swap(&mut all, &mut self.messages);
        let mut more = messages;
        all.append(&mut more);
        self.messages = sort_messages(all);
        self.is_loading_more = false;
    }

    /// Append the messages whose UID the list does not hold yet; nothing
    /// changes when there is none.
    pub fn append_new_messages(&mut self, messages: Vec<MessageInfo>)
        ensures
            fresh(old(self).messages@, messages@).len() == 0 ==> final(self).messages@ == old(self).messages@,
            fresh(old(self).messages@, messages@).len() > 0 ==> final(self).messages@ == sort_listed(
                old(self).messages@ + fresh(old(self).messages@, messages@)),
            *final(self) == (MessageListState {
                messages: final(self).messages,
                is_loading_more: if fresh(old(self).messages@, messages@).len() > 0 {
                    false
                } else {
                    old(self).is_loading_more
                },
                ..*old(self)
            }),
    {
        let ghost s = messages@;
        assert(s.len() == messages.len());
        let mut rest = messages;
        let mut new_msgs: Vec<MessageInfo> = Vec::new();
        let mut i: usize = 0;
        while rest.len() > 0
            invariant
                s.len() <= usize::MAX,
                i + rest@.len() == s.len(),
                rest@ == s.skip(i as int),
                new_msgs@ == fresh(self.messages@, s.take(i as int)),
            decreases rest@.len(),
        {
            let m = rest.remove(0);
            proof {
                assert(m == s[i as int]);
                assert(s.take(i + 1).drop_last() =~= s.take(i as int));
                assert(rest@ =~= s.skip(i + 1));
            }
            if !has_uid_exec(&self.messages, m.uid) {
                new_msgs.push(m);
            }
            i += 1;
        }
        proof {
            assert(s.take(i as int) =~= s);
        }
        if new_msgs.len() > 0 {
            self.append_messages(new_msgs);
        }
    }

    /// Set the read flag of the message with this UID.
    pub fn update_message_read(&mut self, uid: u32, is_read: bool)
        ensures
            final(self).messages@ == with_read(old(self).messages@, uid, is_read),
            *final(self) == (MessageListState { messages: final(self).messages, ..*old(self) }),
    {
        match first_with_uid_exec(&self.messages, uid) {
            Some(i) => {
                let mut m = self.messages.remove(i);
                m.is_read = is_read;
                self.messages.insert(i, m);
                proof {
                    assert(self.messages@ =~= with_read(old(self).messages@, uid, is_read));
                }
            },
            None => {},
        }
    }

    /// Set the starred flag of the message with this UID.
    pub fn update_message_starred(&mut self, uid: u32, is_starred: bool)
        ensures
            final(self).messages@ == with_starred(old(self).messages@, uid, is_starred),
            *final(self) == (MessageListState { messages: final(self).messages, ..*old(self) }),
    {
        match first_with_uid_exec(&self.messages, uid) {
            Some(i) => {
                let mut m = self.messages.remove(i);
                m.is_starred = is_starred;
                self.messages.insert(i, m);
                proof {
                    assert(self.messages@ =~= with_starred(old(self).messages@, uid, is_starred));
                }
            },
            None => {},
        }
    }

    /// Remove the messages with this UID.
    pub fn remove_message(&mut self, uid: u32)
        ensures
            final(self).messages@ == without_uids(old(self).messages@, seq![uid]),
            *final(self) == (MessageListState { messages: final(self).messages, ..*old(self) }),
    {
        let mut one: Vec<u32> = Vec::new();
        one.push(uid);
        let mut all: Vec<MessageInfo> = Vec::new();
        std::mem::swap(&mut all, &mut self.messages);
        self.messages = retain_without(all, &one);
        proof {
            assert(one@ =~= seq![uid]);
        }
    }

    /// Remove the messages with the given UIDs, and drop them from the selection.
    pub fn remove_messages(&mut self, uids: &Vec<u32>)
        ensures
            final(self).messages@ == without_uids(old(self).messages@, uids@),
            final(self).selected_uids@ == drop_uids(old(self).selected_uids@, uids@),
            *final(self) == (MessageListState { messages: final(self).messages, selected_uids: final(self).selected_uids, ..*old(self) }),
    {
        let mut all: Vec<MessageInfo> = Vec::new();
        std::mem::swap(&mut all, &mut self.messages);
        self.messages = retain_without(all, uids);
        let mut kept: Vec<u32> = Vec::new();
        let mut i: usize = 0;
        let ghost sel = self.selected_uids@;
        while i < self.selected_uids.len()
            invariant
                sel == self.selected_uids@,
                i <= sel.len(),
                kept@ == drop_uids(sel.take(i as int), uids@),
            decreases sel.len() - i,
        {
            let u = self.selected_uids[i];
            proof {
                assert(sel.take(i + 1).drop_last() =~= sel.take(i as int));
            }
            if !contains_uid(uids, u) {
                kept.push(u);
            }
            i += 1;
        }
        proof {
            assert(sel.take(i as int) =~= sel);
        }
        self.selected_uids = kept;
    }

    /// The UIDs of the visible rows, in order (a click names a row by its position).
    fn row_uids(&self) -> (r: Vec<u32>)
        ensures
            r@ == visible_uids(self.messages@, visible(self.messages@, self.filter_state, self.search_query@, false)),
    {
        let rows = visible_indices(&self.messages, &self.filter_state, self.search_query.as_str(), false);
        let mut r: Vec<u32> = Vec::new();
        let mut k: usize = 0;
        while k < rows.len()
            invariant
                k <= rows@.len(),
                forall|j: int| 0 <= j < rows@.len() ==> #[trigger] rows@[j] < self.messages@.len(),
                r@ == visible_uids(self.messages@, rows@.take(k as int)),
            decreases rows@.len() - k,
        {
            r.push(self.messages[rows[k]].uid);
            proof {
                assert(visible_uids(self.messages@, rows@.take(k + 1)) =~= visible_uids(self.messages@, rows@.take(k as int)).push(
                    self.messages@[rows@[k as int] as int].uid));
            }
            k += 1;
        }
        proof {
            assert(rows@.take(rows@.len() as int) =~= rows@);
        }
        r
    }

    /// Handle a left click on row `index` of a list that has `row_count`
    /// rows: Shift selects the range from the anchor (added to the selection
    /// with Ctrl), Ctrl toggles the row, a plain click selects the row alone
    /// and returns the message to show.
    pub fn apply_click(&mut self, index: usize, row_count: usize, ctrl: bool, shift: bool, row_was_selected: bool) -> (r: Option<u32>)
        ensures
            ({
                let rows = visible_uids(old(self).messages@, visible(old(self).messages@, old(self).filter_state, old(self).search_query@, false));
                let out = click_outcome(old(self).selected_uids@, old(self).anchor_index, rows, index, row_count, ctrl, shift, row_was_selected);
                &&& final(self).selected_uids@ == out.0
                &&& final(self).anchor_index == out.1
                &&& r == out.2
            }),
            *final(self) == (MessageListState {
                selected_uids: final(self).selected_uids,
                anchor_index: final(self).anchor_index,
                ..*old(self)
            }),
    {
        let rows = self.row_uids();
        if shift {
            let a: usize = match self.anchor_index {
                Some(x) => x,
                None => 0,
            };
            let lo = if a < index { a } else { index };
            let hi = if a < index { index } else { a };
            let stop: usize = if row_count > 0 && hi < row_count - 1 { hi + 1 } else { row_count };
            if !ctrl {
                self.selected_uids = Vec::new();
            }
            let ghost base = self.selected_uids@;
            let mut i = lo;
            while i < stop && i < rows.len()
                invariant
                    *self == (MessageListState { selected_uids: self.selected_uids, ..*old(self) }),
                    lo <= i,
                    stop <= row_count,
                    add_rows(self.selected_uids@, rows@, i as int, stop as int) == add_rows(base, rows@, lo as int, stop as int),
                decreases stop - i,
            {
                let u = rows[i];
                if !contains_uid(&self.selected_uids, u) {
                    self.selected_uids.push(u);
                }
                i += 1;
            }
            None
        } else if ctrl {
            if index < rows.len() {
                let u = rows[index];
                if row_was_selected {
                    let mut one: Vec<u32> = Vec::new();
                    one.push(u);
                    let mut kept: Vec<u32> = Vec::new();
                    let mut i: usize = 0;
                    let ghost sel = self.selected_uids@;
                    while i < self.selected_uids.len()
                        invariant
                            *self == (MessageListState { selected_uids: self.selected_uids, ..*old(self) }),
                            sel == self.selected_uids@,
                            one@ == seq![u],
                            i <= sel.len(),
                            kept@ == drop_uids(sel.take(i as int), one@),
                        decreases sel.len() - i,
                    {
                        let v = self.selected_uids[i];
                        proof {
                            assert(sel.take(i + 1).drop_last() =~= sel.take(i as int));
                        }
                        if !contains_uid(&one, v) {
                            kept.push(v);
                        }
                        i += 1;
                    }
                    proof {
                        assert(sel.take(i as int) =~= sel);
                    }
                    self.selected_uids = kept;
                } else if !contains_uid(&self.selected_uids, u) {
                    self.selected_uids.push(u);
                }
            }
            self.anchor_index = Some(index);
            None
        } else {
            self.anchor_index = Some(index);
            if index < rows.len() {
                let u = rows[index];
                let mut one: Vec<u32> = Vec::new();
                one.push(u);
                self.selected_uids = one;
                Some(u)
            } else {
                None
            }
        }
    }

    /// The selected messages, in list order.
    pub fn selected_messages(&self) -> (r: Vec<MessageInfo>)
        ensures
            r@ == selected_of(self.messages@, self.selected_uids@),
    {
        let mut r: Vec<MessageInfo> = Vec::new();
        let mut i: usize = 0;
        while i < self.messages.len()
            invariant
                i <= self.messages@.len(),
                r@ == selected_of(self.messages@.take(i as int), self.selected_uids@),
            decreases self.messages@.len() - i,
        {
            proof {
                assert(self.messages@.take(i + 1).drop_last() =~= self.messages@.take(i as int));
            }
            if contains_uid(&self.selected_uids, self.messages[i].uid) {
                r.push(self.messages[i].copy());
            }
            i += 1;
        }
        proof {
            assert(self.messages@.take(i as int) =~= self.messages@);
        }
        r
    }

    /// The selected messages encoded as `uid:msg_id:folder_id` joined with `|`.
    pub fn encode_bulk_data(&self) -> (r: String)
        ensures
            r@ == bulk_data(self.messages@, self.selected_uids@),
    {
        let msgs = self.selected_messages();
        let mut entries: Vec<Vec<char>> = Vec::new();
        let mut i: usize = 0;
        while i < msgs.len()
            invariant
                i <= msgs@.len(),
                views(entries@) == msgs@.take(i as int).map_values(|m: MessageInfo| bulk_entry(m)),
            decreases msgs@.len() - i,
        {
            let mut e = decimal_exec(msgs[i].uid as u64);
            e.push(':');
            let d = signed_decimal_exec(msgs[i].id);
            extend_chars(&mut e, &d);
            e.push(':');
            let f = signed_decimal_exec(msgs[i].folder_id);
            extend_chars(&mut e, &f);
            let ghost before = entries@;
            entries.push(e);
            proof {
                assert(e@ =~= bulk_entry(msgs@[i as int]));
                assert(views(entries@) =~= views(before).push(e@));
                assert(msgs@.take(i + 1).map_values(|m: MessageInfo| bulk_entry(m)) =~= msgs@.take(i as int).map_values(
                    |m: MessageInfo| bulk_entry(m)).push(bulk_entry(msgs@[i as int])));
            }
            i += 1;
        }
        proof {
            assert(msgs@.take(i as int) =~= msgs@);
        }
        let joined = join_exec(&entries, '|');
        string_of(&joined)
    }

    /// The current filter as the message store's query takes it (the
    /// To/Cc text is applied in the list only).
    pub fn get_message_filter(&self) -> (r: MessageFilter)
        ensures
            r.unread_only == self.filter_state.unread_only,
            r.starred_only == self.filter_state.starred_only,
            r.has_attachments == self.filter_state.has_attachments,
            r.from_contains@ == self.filter_state.from_contains@,
            r.date_after == self.filter_state.date_after,
            r.date_before == self.filter_state.date_before,
    {
        MessageFilter {
            unread_only: self.filter_state.unread_only,
            starred_only: self.filter_state.starred_only,
            has_attachments: self.filter_state.has_attachments,
            from_contains: self.filter_state.from_contains.clone(),
            date_after: self.filter_state.date_after,
            date_before: self.filter_state.date_before,
        }
    }

    /// The number of selected messages.
    pub fn selection_count(&self) -> (r: usize)
        ensures
            r == self.selected_uids@.len(),
    {
        self.selected_uids.len()
    }

    /// Set the folder the list shows (used by drag and drop).
    pub fn set_folder_context(&mut self, account_id: &str, folder_path: &str)
        ensures
            final(self).current_account_id@ == account_id@,
            final(self).current_folder_path@ == folder_path@,
            *final(self) == (MessageListState {
                current_account_id: final(self).current_account_id,
                current_folder_path: final(self).current_folder_path,
                ..*old(self)
            }),
    {
        self.current_account_id = account_id.to_string();
        self.current_folder_path = folder_path.to_string();
    }

    /// The list was scrolled (`near_bottom`: the view is within the load
    /// threshold of its end). Starts loading the next page, and says so, when
    /// more can be loaded and no page is loading yet.
    pub fn scrolled(&mut self, near_bottom: bool) -> (r: bool)
        ensures
            r == (old(self).can_load_more && !old(self).is_loading_more && near_bottom),
            *final(self) == (MessageListState { is_loading_more: old(self).is_loading_more || r, ..*old(self) }),
    {
        if !self.can_load_more || self.is_loading_more {
            return false;
        }
        if near_bottom {
            self.is_loading_more = true;
            true
        } else {
            false
        }
    }

    /// The folder the list shows: (account id, folder path).
    pub fn folder_context(&self) -> (r: (String, String))
        ensures
            r.0@ == self.current_account_id@,
            r.1@ == self.current_folder_path@,
    {
        (self.current_account_id.clone(), self.current_folder_path.clone())
    }

    /// Enter the loading state, in which the view shows placeholder rows
    /// until the next `set_messages`.
    pub fn show_loading(&mut self)
        ensures
            *final(self) == (MessageListState { is_loading: true, ..*old(self) }),
    {
        self.is_loading = true;
    }

    /// Clear the search query.
    pub fn clear_search(&mut self)
        ensures
            final(self).search_query@.len() == 0,
            *final(self) == (MessageListState { search_query: final(self).search_query, ..*old(self) }),
    {
        self.search_query = String::new();
    }

    /// Allow or stop loading more messages on scroll.
    pub fn set_can_load_more(&mut self, can_load: bool)
        ensures
            *final(self) == (MessageListState { can_load_more: can_load, ..*old(self) }),
    {
        self.can_load_more = can_load;
    }

    /// A batch of older messages has arrived.
    pub fn finish_loading_more(&mut self)
        ensures
            *final(self) == (MessageListState { is_loading_more: false, ..*old(self) }),
    {
        self.is_loading_more = false;
    }

    /// Set the folder's total message count.
    pub fn set_total_count(&mut self, count: u32)
        ensures
            *final(self) == (MessageListState { total_count: count, ..*old(self) }),
    {
        self.total_count = count;
    }
}

} // verus!
