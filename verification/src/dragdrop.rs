//! Dragging messages from the list onto a folder of the sidebar.
//!
//! The drag source writes `uid:msg_id:account_id:folder_path` for one message,
//! or `multi|` followed by such entries joined with `|` when several selected
//! messages are dragged together; the drop target reads the same text back.
use vstd::prelude::*;
use crate::listing::{MessageInfo, selected_of};
use crate::text::{
    chars_of, decimal, decimal_exec, extend_chars, extend_str, free_of, has_prefix, join_exec,
    join_with, lemma_join_split, lemma_parse_i64_decimal, lemma_parse_u32_decimal,
    lemma_split_join, lemma_split_on_concat, lemma_digits_free_of, parse_i64, parse_i64_exec,
    parse_u32, parse_u32_exec, signed_decimal, signed_decimal_exec, split_on, split_on_exec,
    starts_with_str, string_of, views,
};

verus! {

/// A message dropped onto a folder, as read from the drag data.
pub struct DroppedMessage {
    pub uid: u32,
    pub message_id: i64,
    pub source_account_id: String,
    pub source_folder_path: String,
}

impl View for DroppedMessage {
    type V = (u32, i64, Seq<char>, Seq<char>);

    open spec fn view(&self) -> (u32, i64, Seq<char>, Seq<char>) {
        (self.uid, self.message_id, self.source_account_id@, self.source_folder_path@)
    }
}

/// The views of a list of dropped messages.
pub open spec fn dropped_views(v: Seq<DroppedMessage>) -> Seq<(u32, i64, Seq<char>, Seq<char>)> {
    v.map_values(|d: DroppedMessage| d@)
}

/// The marker in front of a drag of several messages.
pub open spec fn multi_marker() -> Seq<char> {
    seq!['m', 'u', 'l', 't', 'i', '|']
}

/// One drag entry: `uid:msg_id:account_id:folder_path`.
pub open spec fn drag_entry(uid: u32, id: i64, account: Seq<char>, folder: Seq<char>) -> Seq<char> {
    decimal(uid as nat) + seq![':'] + signed_decimal(id as int) + seq![':'] + account + seq![':'] + folder
}

/// The drag entries of the given messages, all from one folder.
pub open spec fn drag_entries(ms: Seq<MessageInfo>, account: Seq<char>, folder: Seq<char>) -> Seq<Seq<char>> {
    ms.map_values(|m: MessageInfo| drag_entry(m.uid, m.id, account, folder))
}

/// Several messages are dragged when more than one is selected and the
/// dragged row is among them.
pub open spec fn is_multi_drag(uid: u32, sel: Seq<u32>) -> bool {
    sel.len() > 1 && sel.contains(uid)
}

/// What the drag source writes for the row of message `uid`/`id`.
pub open spec fn drag_data(
    uid: u32,
    id: i64,
    sel: Seq<u32>,
    ms: Seq<MessageInfo>,
    account: Seq<char>,
    folder: Seq<char>,
) -> Seq<char> {
    if is_multi_drag(uid, sel) {
        multi_marker() + join_with(drag_entries(selected_of(ms, sel), account, folder), '|')
    } else {
        drag_entry(uid, id, account, folder)
    }
}

/// What one entry of drop data says, if it can be read: at least four
/// `:`-separated fields, the first two numbers; the folder is the rest.
pub open spec fn parse_entry(e: Seq<char>) -> Option<(u32, i64, Seq<char>, Seq<char>)> {
    let ps = split_on(e, ':');
    if ps.len() >= 4 && parse_u32(ps[0]) is Some && parse_i64(ps[1]) is Some {
        Some((parse_u32(ps[0]).unwrap(), parse_i64(ps[1]).unwrap(), ps[2], join_with(ps.skip(3), ':')))
    } else {
        None
    }
}

/// The readable entries among `es`, in order.
pub open spec fn parse_entries(es: Seq<Seq<char>>) -> Seq<(u32, i64, Seq<char>, Seq<char>)>
    decreases es.len(),
{
    if es.len() == 0 {
        Seq::empty()
    } else {
        let p = parse_entries(es.drop_last());
        match parse_entry(es.last()) {
            Some(d) => p.push(d),
            None => p,
        }
    }
}

/// The messages that drop data names.
pub open spec fn parse_drop(data: Seq<char>) -> Seq<(u32, i64, Seq<char>, Seq<char>)> {
    if has_prefix(data, multi_marker()) {
        parse_entries(split_on(data, '|').drop_first())
    } else {
        match parse_entry(data) {
            Some(d) => seq![d],
            None => Seq::empty(),
        }
    }
}

// ───────────────────────── executable ─────────────────────────

fn drag_entry_exec(uid: u32, id: i64, account: &str, folder: &str) -> (r: Vec<char>)
    ensures
        r@ == drag_entry(uid, id, account@, folder@),
{
    let mut r = decimal_exec(uid as u64);
    r.push(':');
    let d = signed_decimal_exec(id);
    extend_chars(&mut r, &d);
    r.push(':');
    extend_str(&mut r, account);
    r.push(':');
    extend_str(&mut r, folder);
    r
}

fn contains_u32(v: &[u32], x: u32) -> (r: bool)
    ensures
        r == v@.contains(x),
{
    let mut i: usize = 0;
    while i < v.len()
        invariant
            i <= v@.len(),
            forall|j: int| 0 <= j < i ==> v@[j] != x,
        decreases v@.len() - i,
    {
        if v[i] == x {
            assert(v@[i as int] == x);
            return true;
        }
        i += 1;
    }
    false
}

/// Encode the drag data for the row of message `uid`/`msg_id`: all selected
/// messages when the row is part of a multiple selection, else the row alone.
pub fn encode_drag_data(
    uid: u32,
    msg_id: i64,
    selected_uids: &[u32],
    messages: &[MessageInfo],
    account_id: &str,
    folder_path: &str,
) -> (r: String)
    ensures
        r@ == drag_data(uid, msg_id, selected_uids@, messages@, account_id@, folder_path@),
{
    if selected_uids.len() > 1 && contains_u32(selected_uids, uid) {
        let mut entries: Vec<Vec<char>> = Vec::new();
        let mut i: usize = 0;
        while i < messages.len()
            invariant
                i <= messages@.len(),
                views(entries@) == drag_entries(selected_of(messages@.take(i as int), selected_uids@), account_id@, folder_path@),
            decreases messages@.len() - i,
        {
            proof {
                assert(messages@.take(i + 1).drop_last() =~= messages@.take(i as int));
            }
            if contains_u32(selected_uids, messages[i].uid) {
                let e = drag_entry_exec(messages[i].uid, messages[i].id, account_id, folder_path);
                let ghost old_entries = entries@;
                entries.push(e);
                proof {
                    let a = selected_of(messages@.take(i as int), selected_uids@);
                    assert(views(entries@) =~= views(old_entries).push(e@));
                    assert(drag_entries(a.push(messages@[i as int]), account_id@, folder_path@) =~= drag_entries(a, account_id@, folder_path@).push(e@));
                }
            }
            i += 1;
        }
        proof {
            assert(messages@.take(messages@.len() as int) =~= messages@);
        }
        let joined = join_exec(&entries, '|');
        let mut r: Vec<char> = Vec::new();
        extend_str(&mut r, "multi|");
        proof {
            reveal_strlit("multi|");
            assert("multi|"@ =~= multi_marker());
        }
        extend_chars(&mut r, &joined);
        string_of(&r)
    } else {
        let e = drag_entry_exec(uid, msg_id, account_id, folder_path);
        string_of(&e)
    }
}

fn parse_entry_exec(e: &[char]) -> (r: Option<DroppedMessage>)
    ensures
        match r {
            Some(d) => parse_entry(e@) == Some(d@),
            None => parse_entry(e@) is None,
        },
{
    let ps = split_on_exec(e, ':');
    if ps.len() < 4 {
        return None;
    }
    proof {
        assert(views(ps@)[0] == ps@[0]@ && views(ps@)[1] == ps@[1]@ && views(ps@)[2] == ps@[2]@);
    }
    let uid = match parse_u32_exec(&ps[0]) {
        Some(u) => u,
        None => return None,
    };
    let id = match parse_i64_exec(&ps[1]) {
        Some(i) => i,
        None => return None,
    };
    let mut rest: Vec<Vec<char>> = Vec::new();
    let mut k: usize = 3;
    while k < ps.len()
        invariant
            3 <= k <= ps@.len(),
            views(rest@) == views(ps@).subrange(3, k as int),
        decreases ps@.len() - k,
    {
        let mut piece: Vec<char> = Vec::new();
        extend_chars(&mut piece, &ps[k]);
        let ghost old_rest = rest@;
        rest.push(piece);
        proof {
            assert(piece@ =~= ps@[k as int]@);
            assert(views(rest@) =~= views(old_rest).push(piece@));
            assert(views(rest@) =~= views(ps@).subrange(3, k + 1));
        }
        k += 1;
    }
    let folder = join_exec(&rest, ':');
    proof {
        assert(views(ps@).subrange(3, ps@.len() as int) =~= views(ps@).skip(3));
    }
    Some(DroppedMessage {
        uid,
        message_id: id,
        source_account_id: string_of(&ps[2]),
        source_folder_path: string_of(&folder),
    })
}

/// Parse drop data (one message or several) into the messages it names.
/// The drop is handled when the result is not empty.
pub fn parse_drop_data(data: &str) -> (r: Vec<DroppedMessage>)
    ensures
        dropped_views(r@) == parse_drop(data@),
{
    let chars = chars_of(data);
    let is_multi = starts_with_str(&chars, "multi|");
    proof {
        reveal_strlit("multi|");
        assert("multi|"@ =~= multi_marker());
    }
    let mut out: Vec<DroppedMessage> = Vec::new();
    if is_multi {
        let pieces = split_on_exec(&chars, '|');
        let ghost es = split_on(data@, '|').drop_first();
        proof {
            lemma_join_split(data@, '|');
        }
        let mut i: usize = 1;
        while i < pieces.len()
            invariant
                1 <= i <= pieces@.len(),
                views(pieces@) == split_on(data@, '|'),
                es == views(pieces@).drop_first(),
                dropped_views(out@) == parse_entries(es.take(i - 1)),
            decreases pieces@.len() - i,
        {
            proof {
                assert(es.take(i as int).drop_last() =~= es.take(i - 1));
                assert(es[i - 1] == pieces@[i as int]@);
            }
            match parse_entry_exec(&pieces[i]) {
                Some(d) => {
                    out.push(d);
                    proof {
                        assert(dropped_views(out@) =~= dropped_views(out@.drop_last()).push(d@));
                    }
                },
                None => {},
            }
            i += 1;
        }
        proof {
            assert(es.len() == pieces@.len() - 1);
            assert(es.take(es.len() as int) =~= es);
            assert(has_prefix(data@, multi_marker()));
        }
    } else {
        proof {
            assert(!has_prefix(data@, multi_marker()));
        }
        match parse_entry_exec(&chars) {
            Some(d) => {
                out.push(d);
                proof {
                    assert(dropped_views(out@) =~= seq![d@]);
                }
            },
            None => {
                proof {
                    assert(dropped_views(out@) =~= Seq::<(u32, i64, Seq<char>, Seq<char>)>::empty());
                }
            },
        }
    }
    out
}

// ───────────────────────── round trip ─────────────────────────

/// The tuples that a drop of the given messages, all from one folder, reads back.
pub open spec fn dropped_from(ms: Seq<MessageInfo>, account: Seq<char>, folder: Seq<char>) -> Seq<(u32, i64, Seq<char>, Seq<char>)> {
    ms.map_values(|m: MessageInfo| (m.uid, m.id, account, folder))
}

proof fn lemma_concat_free(a: Seq<char>, b: Seq<char>, c: char)
    requires
        free_of(a, c),
        free_of(b, c),
    ensures
        free_of(a + b, c),
{
    assert forall|k: int| 0 <= k < (a + b).len() implies (a + b)[k] != c by {
        if k < a.len() {
            assert((a + b)[k] == a[k]);
        } else {
            assert((a + b)[k] == b[k - a.len()]);
        }
    }
}

proof fn lemma_parse_entry_of(uid: u32, id: i64, account: Seq<char>, folder: Seq<char>)
    requires
        free_of(account, ':'),
    ensures
        parse_entry(drag_entry(uid, id, account, folder)) == Some((uid, id, account, folder)),
{
    let d = decimal(uid as nat);
    let sd = signed_decimal(id as int);
    lemma_parse_u32_decimal(uid);
    lemma_parse_i64_decimal(id);
    lemma_digits_free_of(d, ':');
    let tail2 = account + seq![':'] + folder;
    let tail1 = sd + seq![':'] + tail2;
    assert(drag_entry(uid, id, account, folder) =~= d + seq![':'] + tail1);
    lemma_split_on_concat(d, tail1, ':');
    lemma_split_on_concat(sd, tail2, ':');
    lemma_split_on_concat(account, folder, ':');
    lemma_join_split(folder, ':');
    let ps = split_on(drag_entry(uid, id, account, folder), ':');
    assert(ps =~= seq![d] + (seq![sd] + (seq![account] + split_on(folder, ':'))));
    assert(ps.skip(3) =~= split_on(folder, ':'));
}

proof fn lemma_entry_free_of_bar(uid: u32, id: i64, account: Seq<char>, folder: Seq<char>)
    requires
        free_of(account, '|'),
        free_of(folder, '|'),
    ensures
        free_of(drag_entry(uid, id, account, folder), '|'),
{
    let d = decimal(uid as nat);
    lemma_parse_u32_decimal(uid);
    lemma_digits_free_of(d, '|');
    lemma_parse_i64_decimal(id);
    let colon = seq![':'];
    assert(free_of(colon, '|'));
    lemma_concat_free(d, colon, '|');
    lemma_concat_free(d + colon, signed_decimal(id as int), '|');
    lemma_concat_free(d + colon + signed_decimal(id as int), colon, '|');
    lemma_concat_free(d + colon + signed_decimal(id as int) + colon, account, '|');
    lemma_concat_free(d + colon + signed_decimal(id as int) + colon + account, colon, '|');
    lemma_concat_free(d + colon + signed_decimal(id as int) + colon + account + colon, folder, '|');
}

proof fn lemma_parse_entries_of(ms: Seq<MessageInfo>, account: Seq<char>, folder: Seq<char>)
    requires
        free_of(account, ':'),
    ensures
        parse_entries(drag_entries(ms, account, folder)) == dropped_from(ms, account, folder),
    decreases ms.len(),
{
    if ms.len() > 0 {
        let p = ms.drop_last();
        lemma_parse_entries_of(p, account, folder);
        assert(drag_entries(ms, account, folder).drop_last() =~= drag_entries(p, account, folder));
        lemma_parse_entry_of(ms.last().uid, ms.last().id, account, folder);
        assert(dropped_from(ms, account, folder) =~= dropped_from(p, account, folder).push(
            (ms.last().uid, ms.last().id, account, folder)));
    } else {
        assert(dropped_from(ms, account, folder) =~= Seq::<(u32, i64, Seq<char>, Seq<char>)>::empty());
    }
}

/// What the drop target reads is what the drag source wrote: the dragged
/// message, or every selected message in list order, each with the folder it
/// was dragged from. An account name must hold no `:`, and in a drag of
/// several messages neither the account nor the folder may hold a `|`.
pub proof fn law_drop_reads_drag(
    uid: u32,
    id: i64,
    sel: Seq<u32>,
    ms: Seq<MessageInfo>,
    account: Seq<char>,
    folder: Seq<char>,
)
    requires
        free_of(account, ':'),
        is_multi_drag(uid, sel) ==> free_of(account, '|') && free_of(folder, '|'),
    ensures
        parse_drop(drag_data(uid, id, sel, ms, account, folder)) == if is_multi_drag(uid, sel) {
            dropped_from(selected_of(ms, sel), account, folder)
        } else {
            seq![(uid, id, account, folder)]
        },
{
    if is_multi_drag(uid, sel) {
        let chosen = selected_of(ms, sel);
        let es = drag_entries(chosen, account, folder);
        let data = multi_marker() + join_with(es, '|');
        assert(data.take(6) =~= multi_marker());
        let word = seq!['m', 'u', 'l', 't', 'i'];
        assert(free_of(word, '|'));
        assert(data =~= word + seq!['|'] + join_with(es, '|'));
        lemma_split_on_concat(word, join_with(es, '|'), '|');
        lemma_parse_entries_of(chosen, account, folder);
        if es.len() == 0 {
            assert(join_with(es, '|') =~= Seq::<char>::empty());
            crate::text::lemma_split_on_free(Seq::<char>::empty(), '|');
            let e0 = Seq::<char>::empty();
            crate::text::lemma_split_on_free(e0, ':');
            assert(seq![e0].drop_last() =~= Seq::<Seq<char>>::empty());
            assert(split_on(data, '|').drop_first() =~= seq![e0]);
            assert(parse_entry(e0) is None);
            assert(parse_entries(seq![e0]) == parse_entries(Seq::<Seq<char>>::empty()));
            assert(dropped_from(chosen, account, folder) =~= Seq::<(u32, i64, Seq<char>, Seq<char>)>::empty());
            assert(has_prefix(data, multi_marker()));
            assert(parse_drop(data) == dropped_from(chosen, account, folder));
        } else {
            assert forall|k: int| 0 <= k < es.len() implies free_of(#[trigger] es[k], '|') by {
                lemma_entry_free_of_bar(chosen[k].uid, chosen[k].id, account, folder);
            }
            lemma_split_join(es, '|');
            assert(split_on(data, '|').drop_first() =~= es);
            assert(has_prefix(data, multi_marker()));
            assert(parse_drop(data) == dropped_from(chosen, account, folder));
        }
    } else {
        let e = drag_entry(uid, id, account, folder);
        lemma_parse_u32_decimal(uid);
        assert(crate::text::is_digit(decimal(uid as nat)[0]));
        assert(e[0] == decimal(uid as nat)[0]);
        assert(!has_prefix(e, multi_marker())) by {
            if has_prefix(e, multi_marker()) {
                assert(e.subrange(0, 6)[0] == 'm');
            }
        }
        lemma_parse_entry_of(uid, id, account, folder);
    }
}

} // verus!
