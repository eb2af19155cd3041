//! The folder sidebar: the rows it lists, their names, which of them are
//! expanded, and the numbers it shows.
//!
//! Each row carries a name `section:kind:account_id:folder_path`, read back
//! with at most four fields so that a folder path may hold `:`. Section 0 is
//! the unified inbox, section 1 the per-account inboxes, and section `2 + i`
//! the folders of the `i`-th account; the kinds are `unified`, `inbox`,
//! `header` and `folder`.
use vstd::prelude::*;
use crate::text::{
    chars_of, decimal, decimal_exec, eq_ignore_ascii_case, eq_ignore_ascii_case_str, eq_str,
    extend_chars, extend_str, free_of, join_exec, join_with, lemma_decimal_digits,
    lemma_digits_free_of, lemma_join_split, lemma_split_on_concat, parse_usize,
    parse_usize_exec, split_on, split_on_exec, string_of, views, all_digits, is_digit,
};

verus! {

// ───────────────────────── row names ─────────────────────────

/// The name of a row: `section:kind:account_id:folder_path`.
pub open spec fn row_name(section: usize, kind: Seq<char>, account: Seq<char>, folder: Seq<char>) -> Seq<char> {
    decimal(section as nat) + seq![':'] + kind + seq![':'] + account + seq![':'] + folder
}

/// What a row name says: the section (0 when unreadable), the kind, the
/// account and the folder path (the rest of the name, `:` included); a
/// missing field reads as empty.
pub open spec fn read_row_name(name: Seq<char>) -> (usize, Seq<char>, Seq<char>, Seq<char>) {
    let ps = split_on(name, ':');
    let section = match parse_usize(ps[0]) {
        Some(n) => n,
        None => 0,
    };
    let kind = if ps.len() >= 2 { ps[1] } else { Seq::empty() };
    let account = if ps.len() >= 3 { ps[2] } else { Seq::empty() };
    let folder = if ps.len() >= 4 { join_with(ps.skip(3), ':') } else { Seq::empty() };
    (section, kind, account, folder)
}

/// Encode the name of a sidebar row.
pub fn encode_row_name(section: usize, kind: &str, account_id: &str, folder_path: &str) -> (r: String)
    ensures
        r@ == row_name(section, kind@, account_id@, folder_path@),
{
    let mut v = decimal_exec(section as u64);
    v.push(':');
    extend_str(&mut v, kind);
    v.push(':');
    extend_str(&mut v, account_id);
    v.push(':');
    extend_str(&mut v, folder_path);
    string_of(&v)
}

/// Returns (section, kind, account_id, folder_path)
pub fn decode_row_name(name: &str) -> (r: (usize, String, String, String))
    ensures
        (r.0, r.1@, r.2@, r.3@) == read_row_name(name@),
{
    let chars = chars_of(name);
    let ps = split_on_exec(&chars, ':');
    proof {
        crate::text::lemma_join_split(name@, ':');
        assert(views(ps@)[0] == ps@[0]@);
    }
    let section: usize = match parse_usize_exec(&ps[0]) {
        Some(n) => n,
        None => 0,
    };
    let kind = if ps.len() >= 2 {
        proof {
            assert(views(ps@)[1] == ps@[1]@);
        }
        string_of(&ps[1])
    } else {
        String::new()
    };
    let account = if ps.len() >= 3 {
        proof {
            assert(views(ps@)[2] == ps@[2]@);
        }
        string_of(&ps[2])
    } else {
        String::new()
    };
    let folder = if ps.len() >= 4 {
        let mut rest: Vec<Vec<char>> = Vec::new();
        let mut k: usize = 3;
        while k < ps.len()
            invariant
                3 <= k <= ps@.len(),
                views(rest@) == views(ps@).subrange(3, k as int),
            decreases ps@.len() - k,
        {
            let mut piece: Vec<char> = Vec::new();
            extend_chars(&mut piece, &ps[k]);
            let ghost before = rest@;
            rest.push(piece);
            proof {
                assert(piece@ =~= ps@[k as int]@);
                assert(views(rest@) =~= views(before).push(piece@));
                assert(views(rest@) =~= views(ps@).subrange(3, k + 1));
            }
            k += 1;
        }
        proof {
            assert(views(ps@).subrange(3, ps@.len() as int) =~= views(ps@).skip(3));
        }
        let j = join_exec(&rest, ':');
        string_of(&j)
    } else {
        String::new()
    };
    (section, kind, account, folder)
}

/// Reading a row name gives back what it was made of, the folder path
/// included, as long as neither the kind nor the account holds a `:`.
pub proof fn law_row_name_round_trip(section: usize, kind: Seq<char>, account: Seq<char>, folder: Seq<char>)
    requires
        free_of(kind, ':'),
        free_of(account, ':'),
    ensures
        read_row_name(row_name(section, kind, account, folder)) == (section, kind, account, folder),
{
    let d = decimal(section as nat);
    lemma_decimal_digits(section as nat);
    lemma_digits_free_of(d, ':');
    let t3 = account + seq![':'] + folder;
    let t2 = kind + seq![':'] + t3;
    assert(row_name(section, kind, account, folder) =~= d + seq![':'] + t2);
    lemma_split_on_concat(d, t2, ':');
    lemma_split_on_concat(kind, t3, ':');
    lemma_split_on_concat(account, folder, ':');
    lemma_join_split(folder, ':');
    let ps = split_on(row_name(section, kind, account, folder), ':');
    assert(ps =~= seq![d] + (seq![kind] + (seq![account] + split_on(folder, ':'))));
    assert(ps.skip(3) =~= split_on(folder, ':'));
    assert(is_digit(d[0]));
    assert(parse_usize(d) == Some(section));
}

// ───────────────────────── counts ─────────────────────────

/// The digits of `d` up to position `k`, with a `,` in front of every digit
/// (but the first) that has a multiple of three digits after it.
pub open spec fn grouped_upto(d: Seq<char>, k: int) -> Seq<char>
    decreases k,
{
    if k <= 0 {
        Seq::empty()
    } else {
        let p = grouped_upto(d, k - 1);
        let with_sep = if k - 1 > 0 && (d.len() - (k - 1)) % 3 == 0 { p.push(',') } else { p };
        with_sep.push(d[k - 1])
    }
}

/// `n` with thousands separators (`1234` reads `1,234`).
pub open spec fn grouped_number(n: nat) -> Seq<char> {
    grouped_upto(decimal(n), decimal(n).len() as int)
}

/// `s` without any `,`.
pub open spec fn without_commas(s: Seq<char>) -> Seq<char>
    decreases s.len(),
{
    if s.len() == 0 {
        s
    } else {
        let p = without_commas(s.drop_last());
        if s.last() == ',' { p } else { p.push(s.last()) }
    }
}

/// Format a number with thousand separators (e.g., 1234 -> "1,234")
pub fn format_number(n: u32) -> (r: String)
    ensures
        r@ == grouped_number(n as nat),
{
    let d = decimal_exec(n as u64);
    let len = d.len();
    let mut out: Vec<char> = Vec::new();
    let mut k: usize = 0;
    while k < len
        invariant
            len == d@.len(),
            k <= len,
            out@ == grouped_upto(d@, k as int),
        decreases len - k,
    {
        if k > 0 && (len - k) % 3 == 0 {
            out.push(',');
        }
        out.push(d[k]);
        k += 1;
    }
    string_of(&out)
}

proof fn lemma_without_commas_push(s: Seq<char>, c: char)
    ensures
        without_commas(s.push(c)) == if c == ',' { without_commas(s) } else { without_commas(s).push(c) },
{
    assert(s.push(c).drop_last() =~= s);
}

proof fn lemma_grouped_digits(d: Seq<char>, k: int)
    requires
        all_digits(d),
        0 <= k <= d.len(),
    ensures
        without_commas(grouped_upto(d, k)) == d.take(k),
    decreases k,
{
    if k > 0 {
        lemma_grouped_digits(d, k - 1);
        let p = grouped_upto(d, k - 1);
        let with_sep = if k - 1 > 0 && (d.len() - (k - 1)) % 3 == 0 { p.push(',') } else { p };
        if k - 1 > 0 && (d.len() - (k - 1)) % 3 == 0 {
            lemma_without_commas_push(p, ',');
        }
        assert(is_digit(d[k - 1]));
        lemma_without_commas_push(with_sep, d[k - 1]);
        assert(d.take(k - 1).push(d[k - 1]) =~= d.take(k));
    }
}

/// Dropping the separators from a grouped number gives its plain digits,
/// and numbers below a thousand get none.
pub proof fn law_grouped_number_digits(n: nat)
    ensures
        without_commas(grouped_number(n)) == decimal(n),
        n < 1000 ==> grouped_number(n) == decimal(n),
{
    lemma_decimal_digits(n);
    lemma_grouped_digits(decimal(n), decimal(n).len() as int);
    assert(decimal(n).take(decimal(n).len() as int) =~= decimal(n));
    if n < 1000 {
        lemma_small_decimal_len(n);
        let d = decimal(n);
        lemma_grouped_small(d, d.len() as int);
        assert(d.take(d.len() as int) =~= d);
    }
}

proof fn lemma_small_decimal_len(n: nat)
    requires
        n < 1000,
    ensures
        decimal(n).len() <= 3,
{
    if n >= 10 {
        assert(decimal(n).len() == decimal(n / 10).len() + 1);
        if n / 10 >= 10 {
            assert(decimal(n / 10).len() == decimal(n / 10 / 10).len() + 1);
            assert(n / 10 / 10 < 10);
            assert(decimal(n / 10 / 10).len() == 1);
        } else {
            assert(decimal(n / 10).len() == 1);
        }
    } else {
        assert(decimal(n).len() == 1);
    }
}

proof fn lemma_grouped_small(d: Seq<char>, k: int)
    requires
        d.len() <= 3,
        0 <= k <= d.len(),
    ensures
        grouped_upto(d, k) == d.take(k),
    decreases k,
{
    if k > 0 {
        lemma_grouped_small(d, k - 1);
        assert(d.take(k - 1).push(d[k - 1]) =~= d.take(k));
    }
}

// ───────────────────────── layout ─────────────────────────

/// Information about a folder for display
#[derive(Clone)]
pub struct FolderInfo {
    pub name: String,
    pub full_path: String,
    pub icon_name: String,
    pub unread_count: Option<u32>,
    pub is_header: bool,
}

/// Account with its folders
#[derive(Clone)]
pub struct AccountFolders {
    pub id: String,
    pub email: String,
    pub inbox_unread: Option<u32>,
    pub folders: Vec<FolderInfo>,
}

/// A row of one of the sidebar's two lists: its name and whether it shows.
pub struct SidebarRow {
    pub name: String,
    pub visible: bool,
}

impl View for SidebarRow {
    type V = (Seq<char>, bool);

    open spec fn view(&self) -> (Seq<char>, bool) {
        (self.name@, self.visible)
    }
}

/// The views of a list of rows.
pub open spec fn row_views(rows: Seq<SidebarRow>) -> Seq<(Seq<char>, bool)> {
    rows.map_values(|r: SidebarRow| r@)
}

/// The views of a list of saved expansion states.
pub open spec fn state_views(st: Seq<(String, bool)>) -> Seq<(Seq<char>, bool)> {
    st.map_values(|e: (String, bool)| (e.0@, e.1))
}

/// Whether the account's folders are expanded: the first entry for the
/// account decides; an account without an entry is collapsed.
pub open spec fn expanded_of(st: Seq<(Seq<char>, bool)>, id: Seq<char>) -> bool
    decreases st.len(),
{
    if st.len() == 0 {
        false
    } else if st[0].0 == id {
        st[0].1
    } else {
        expanded_of(st.drop_first(), id)
    }
}

/// The rows of the inboxes list: the unified inbox, then each account's inbox.
pub open spec fn inbox_layout(accs: Seq<AccountFolders>) -> Seq<(Seq<char>, bool)> {
    seq![(row_name(0, "unified"@, Seq::empty(), Seq::empty()), true)]
        + accs.map_values(|a: AccountFolders| (row_name(1, "inbox"@, a.id@, Seq::empty()), true))
}

/// The header and folder rows of one account, its folders shown when expanded.
pub open spec fn account_rows(a: AccountFolders, section: usize, expanded: bool) -> Seq<(Seq<char>, bool)> {
    seq![(row_name(section, "header"@, a.id@, Seq::empty()), true)]
        + a.folders@.map_values(|f: FolderInfo| (row_name(section, "folder"@, a.id@, f.full_path@), expanded))
}

/// The rows of the folders list for the first `n` accounts.
pub open spec fn folder_layout_upto(accs: Seq<AccountFolders>, saved: Seq<(Seq<char>, bool)>, n: int) -> Seq<(Seq<char>, bool)>
    decreases n,
{
    if n <= 0 {
        Seq::empty()
    } else {
        folder_layout_upto(accs, saved, n - 1) + account_rows(
            accs[n - 1],
            (n + 1) as usize,
            expanded_of(saved, accs[n - 1].id@),
        )
    }
}

/// The rows of the folders list.
pub open spec fn folder_layout(accs: Seq<AccountFolders>, saved: Seq<(Seq<char>, bool)>) -> Seq<(Seq<char>, bool)> {
    folder_layout_upto(accs, saved, accs.len() as int)
}

/// The total of the accounts' unread inbox counts (accounts without a count add nothing).
pub open spec fn unread_sum(accs: Seq<AccountFolders>) -> nat
    decreases accs.len(),
{
    if accs.len() == 0 {
        0
    } else {
        unread_sum(accs.drop_last()) + match accs.last().inbox_unread {
            Some(n) => n as nat,
            None => 0,
        }
    }
}

/// The first row of `rows` with this name.
pub open spec fn first_named(rows: Seq<(Seq<char>, bool)>, name: Seq<char>) -> Option<int>
    decreases rows.len(),
{
    if rows.len() == 0 {
        None
    } else if rows[0].0 == name {
        Some(0)
    } else {
        match first_named(rows.drop_first(), name) {
            Some(i) => Some(i + 1),
            None => None,
        }
    }
}

/// Where a previously selected row is found again: in the inboxes list
/// (`true`) or the folders list (`false`), and at which position.
pub open spec fn reselect(inbox: Seq<(Seq<char>, bool)>, folders: Seq<(Seq<char>, bool)>, name: Seq<char>) -> Option<(bool, int)> {
    match first_named(inbox, name) {
        Some(i) => Some((true, i)),
        None => match first_named(folders, name) {
            Some(j) => Some((false, j)),
            None => None,
        },
    }
}

/// The sidebar's state: the accounts it lists, which of them are expanded,
/// and the rows of its two lists.
pub struct SidebarState {
    pub accounts: Vec<AccountFolders>,
    pub expanded_states: Vec<(String, bool)>,
    pub inbox_rows: Vec<SidebarRow>,
    pub folder_rows: Vec<SidebarRow>,
}

fn expanded_of_exec(st: &Vec<(String, bool)>, id: &str) -> (r: bool)
    ensures
        r == expanded_of(state_views(st@), id@),
{
    let mut i: usize = 0;
    let ghost sv = state_views(st@);
    assert(sv.skip(0) =~= sv);
    while i < st.len()
        invariant
            sv == state_views(st@),
            i <= st@.len(),
            expanded_of(sv, id@) == expanded_of(sv.skip(i as int), id@),
        decreases st@.len() - i,
    {
        proof {
            assert(sv.skip(i as int).drop_first() =~= sv.skip(i + 1));
        }
        let c = chars_of(st[i].0.as_str());
        if eq_str(&c, id) {
            return st[i].1;
        }
        i += 1;
    }
    false
}

fn first_named_exec(rows: &Vec<SidebarRow>, name: &str) -> (r: Option<usize>)
    ensures
        match r {
            Some(i) => first_named(row_views(rows@), name@) == Some(i as int),
            None => first_named(row_views(rows@), name@) is None,
        },
{
    let ghost rv = row_views(rows@);
    let mut i: usize = 0;
    assert(rv.skip(0) =~= rv);
    while i < rows.len()
        invariant
            rv == row_views(rows@),
            i <= rows@.len(),
            first_named(rv, name@) == match first_named(rv.skip(i as int), name@) {
                Some(j) => Some(j + i),
                None => None::<int>,
            },
        decreases rows@.len() - i,
    {
        proof {
            assert(rv.skip(i as int).drop_first() =~= rv.skip(i + 1));
        }
        let c = chars_of(rows[i].name.as_str());
        if eq_str(&c, name) {
            return Some(i);
        }
        i += 1;
    }
    None
}

impl SidebarState {
    /// A sidebar without accounts.
    pub fn new() -> (r: SidebarState)
        ensures
            r.accounts@.len() == 0,
            r.expanded_states@.len() == 0,
            r.inbox_rows@.len() == 0,
            r.folder_rows@.len() == 0,
    {
        SidebarState { accounts: Vec::new(), expanded_states: Vec::new(), inbox_rows: Vec::new(), folder_rows: Vec::new() }
    }

    /// Show these accounts: the unified inbox and each account's inbox in the
    /// first list, each account's header and folders in the second, folders
    /// shown where the saved state has the account expanded. Returns where
    /// the row that was selected before (by name) is found again.
    pub fn set_accounts(&mut self, accounts: Vec<AccountFolders>, saved: &Vec<(String, bool)>, selected_name: Option<&str>) -> (r: Option<(bool, usize)>)
        requires
            accounts@.len() + 2 <= usize::MAX,
        ensures
            final(self).accounts@ == accounts@,
            accounts@.len() == 0 ==> final(self).inbox_rows@.len() == 0 && final(self).folder_rows@.len() == 0
                && final(self).expanded_states == old(self).expanded_states && r is None,
            accounts@.len() > 0 ==> {
                &&& row_views(final(self).inbox_rows@) == inbox_layout(accounts@)
                &&& row_views(final(self).folder_rows@) == folder_layout(accounts@, state_views(saved@))
                &&& state_views(final(self).expanded_states@) == accounts@.map_values(
                    |a: AccountFolders| (a.id@, expanded_of(state_views(saved@), a.id@)))
                &&& match selected_name {
                    None => r is None,
                    Some(n) => match reselect(inbox_layout(accounts@), folder_layout(accounts@, state_views(saved@)), n@) {
                        Some((l, i)) => r == Some((l, i as usize)),
                        None => r is None,
                    },
                }
            },
    {
        self.inbox_rows = Vec::new();
        self.folder_rows = Vec::new();
        if accounts.len() == 0 {
            self.accounts = accounts;
            return None;
        }
        let mut inbox: Vec<SidebarRow> = Vec::new();
        inbox.push(SidebarRow { name: encode_row_name(0, "unified", "", ""), visible: true });
        proof {
            reveal_strlit("");
            assert(""@ =~= Seq::<char>::empty());
        }
        let mut folders: Vec<SidebarRow> = Vec::new();
        let mut states: Vec<(String, bool)> = Vec::new();
        let mut i: usize = 0;
        let ghost sv = state_views(saved@);
        while i < accounts.len()
            invariant
                accounts@.len() + 2 <= usize::MAX,
                sv == state_views(saved@),
                i <= accounts@.len(),
                ""@ == Seq::<char>::empty(),
                row_views(inbox@) == seq![(row_name(0, "unified"@, Seq::empty(), Seq::empty()), true)]
                    + accounts@.take(i as int).map_values(|a: AccountFolders| (row_name(1, "inbox"@, a.id@, Seq::empty()), true)),
                row_views(folders@) == folder_layout_upto(accounts@, sv, i as int),
                state_views(states@) == accounts@.take(i as int).map_values(|a: AccountFolders| (a.id@, expanded_of(sv, a.id@))),
            decreases accounts@.len() - i,
        {
            let a = &accounts[i];
            let section = i + 2;
            let expanded = expanded_of_exec(saved, a.id.as_str());
            let ghost inbox_before = inbox@;
            inbox.push(SidebarRow { name: encode_row_name(1, "inbox", a.id.as_str(), ""), visible: true });
            proof {
                assert(row_views(inbox@) =~= row_views(inbox_before).push((row_name(1, "inbox"@, a.id@, Seq::empty()), true)));
                assert(accounts@.take(i + 1).map_values(|a: AccountFolders| (row_name(1, "inbox"@, a.id@, Seq::empty()), true))
                    =~= accounts@.take(i as int).map_values(|a: AccountFolders| (row_name(1, "inbox"@, a.id@, Seq::empty()), true)).push(
                    (row_name(1, "inbox"@, a.id@, Seq::empty()), true)));
            }
            let ghost states_before = states@;
            states.push((a.id.clone(), expanded));
            proof {
                assert(state_views(states@) =~= state_views(states_before).push((a.id@, expanded)));
                assert(accounts@.take(i + 1).map_values(|a: AccountFolders| (a.id@, expanded_of(sv, a.id@)))
                    =~= accounts@.take(i as int).map_values(|a: AccountFolders| (a.id@, expanded_of(sv, a.id@))).push((a.id@, expanded)));
            }
            let ghost folders_start = folders@;
            folders.push(SidebarRow { name: encode_row_name(section, "header", a.id.as_str(), ""), visible: true });
            let mut k: usize = 0;
            while k < a.folders.len()
                invariant
                    k <= a.folders@.len(),
                    ""@ == Seq::<char>::empty(),
                    row_views(folders@) == row_views(folders_start) + (seq![(row_name(section, "header"@, a.id@, Seq::empty()), true)]
                        + a.folders@.take(k as int).map_values(|f: FolderInfo| (row_name(section, "folder"@, a.id@, f.full_path@), expanded))),
                decreases a.folders@.len() - k,
            {
                let ghost fb = folders@;
                folders.push(SidebarRow {
                    name: encode_row_name(section, "folder", a.id.as_str(), a.folders[k].full_path.as_str()),
                    visible: expanded,
                });
                proof {
                    assert(row_views(folders@) =~= row_views(fb).push((row_name(section, "folder"@, a.id@, a.folders@[k as int].full_path@), expanded)));
                    assert(a.folders@.take(k + 1).map_values(|f: FolderInfo| (row_name(section, "folder"@, a.id@, f.full_path@), expanded))
                        =~= a.folders@.take(k as int).map_values(|f: FolderInfo| (row_name(section, "folder"@, a.id@, f.full_path@), expanded)).push(
                        (row_name(section, "folder"@, a.id@, a.folders@[k as int].full_path@), expanded)));
                }
                k += 1;
            }
            proof {
                assert(a.folders@.take(k as int) =~= a.folders@);
                assert(row_views(folders@) =~= folder_layout_upto(accounts@, sv, i + 1));
            }
            i += 1;
        }
        proof {
            assert(accounts@.take(i as int) =~= accounts@);
        }
        let found = match selected_name {
            Some(n) => match first_named_exec(&inbox, n) {
                Some(j) => Some((true, j)),
                None => match first_named_exec(&folders, n) {
                    Some(j) => Some((false, j)),
                    None => None,
                },
            },
            None => None,
        };
        self.accounts = accounts;
        self.expanded_states = states;
        self.inbox_rows = inbox;
        self.folder_rows = folders;
        found
    }
}

/// The expansion states with the account's entry set to `b` (added at the
/// end when the account has none).
pub open spec fn state_insert(st: Seq<(Seq<char>, bool)>, id: Seq<char>, b: bool) -> Seq<(Seq<char>, bool)>
    decreases st.len(),
{
    if st.len() == 0 {
        seq![(id, b)]
    } else if st[0].0 == id {
        st.update(0, (id, b))
    } else {
        seq![st[0]] + state_insert(st.drop_first(), id, b)
    }
}

/// The row is a folder row of this account.
pub open spec fn is_folder_row_of(r: (Seq<char>, bool), id: Seq<char>) -> bool {
    read_row_name(r.0).1 == "folder"@ && read_row_name(r.0).2 == id
}

/// The rows with every folder row of the account shown or hidden.
pub open spec fn rows_with_account_shown(rows: Seq<(Seq<char>, bool)>, id: Seq<char>, shown: bool) -> Seq<(Seq<char>, bool)> {
    rows.map_values(|r: (Seq<char>, bool)| if is_folder_row_of(r, id) { (r.0, shown) } else { r })
}

/// Every folder row of the account shows exactly when the account is expanded.
pub open spec fn account_consistent(rows: Seq<(Seq<char>, bool)>, st: Seq<(Seq<char>, bool)>, id: Seq<char>) -> bool {
    forall|k: int| 0 <= k < rows.len() && is_folder_row_of(#[trigger] rows[k], id) ==> rows[k].1 == expanded_of(st, id)
}

/// The row is of this kind, for this account and, when given, this folder path.
pub open spec fn row_is(r: (Seq<char>, bool), kind: Seq<char>, id: Seq<char>, path: Option<Seq<char>>) -> bool {
    &&& read_row_name(r.0).1 == kind
    &&& read_row_name(r.0).2 == id
    &&& match path {
        Some(p) => read_row_name(r.0).3 == p,
        None => true,
    }
}

/// The first row of a kind for an account (and, when given, a folder path).
pub open spec fn first_row_of(rows: Seq<(Seq<char>, bool)>, kind: Seq<char>, id: Seq<char>, path: Option<Seq<char>>) -> Option<int>
    decreases rows.len(),
{
    if rows.len() == 0 {
        None
    } else if row_is(rows[0], kind, id, path) {
        Some(0)
    } else {
        match first_row_of(rows.drop_first(), kind, id, path) {
            Some(i) => Some(i + 1),
            None => None,
        }
    }
}

proof fn lemma_expanded_after_insert(st: Seq<(Seq<char>, bool)>, id: Seq<char>, b: bool, other: Seq<char>)
    ensures
        expanded_of(state_insert(st, id, b), id) == b,
        other != id ==> expanded_of(state_insert(st, id, b), other) == expanded_of(st, other),
    decreases st.len(),
{
    if st.len() == 0 {
        assert(seq![(id, b)].drop_first() =~= Seq::<(Seq<char>, bool)>::empty());
        assert(expanded_of(Seq::<(Seq<char>, bool)>::empty(), other) == false);
        assert(seq![(id, b)][0].0 == id);
    } else {
        if st[0].0 == id {
            assert(st.update(0, (id, b)).drop_first() =~= st.drop_first());
            assert(st.update(0, (id, b))[0].0 == id);
        } else {
            lemma_expanded_after_insert(st.drop_first(), id, b, other);
            assert((seq![st[0]] + state_insert(st.drop_first(), id, b)).drop_first() =~= state_insert(st.drop_first(), id, b));
        }
    }
}

/// Expanding or collapsing an account changes its own state only; done
/// twice, it leaves every account's state and, where the rows agreed with
/// the state, every row as it was.
pub proof fn law_toggle_twice(rows: Seq<(Seq<char>, bool)>, st: Seq<(Seq<char>, bool)>, id: Seq<char>, other: Seq<char>)
    requires
        account_consistent(rows, st, id),
    ensures
        expanded_of(state_insert(st, id, !expanded_of(st, id)), id) == !expanded_of(st, id),
        other != id ==> expanded_of(state_insert(st, id, !expanded_of(st, id)), other) == expanded_of(st, other),
        account_consistent(
            rows_with_account_shown(rows, id, !expanded_of(st, id)),
            state_insert(st, id, !expanded_of(st, id)),
            id,
        ),
        ({
            let st1 = state_insert(st, id, !expanded_of(st, id));
            let rows1 = rows_with_account_shown(rows, id, !expanded_of(st, id));
            let st2 = state_insert(st1, id, !expanded_of(st1, id));
            &&& rows_with_account_shown(rows1, id, !expanded_of(st1, id)) == rows
            &&& expanded_of(st2, other) == expanded_of(st, other)
        }),
{
    let e = expanded_of(st, id);
    lemma_expanded_after_insert(st, id, !e, other);
    lemma_expanded_after_insert(st, id, !e, id);
    let st1 = state_insert(st, id, !e);
    lemma_expanded_after_insert(st1, id, e, other);
    lemma_expanded_after_insert(st1, id, e, id);
    let rows1 = rows_with_account_shown(rows, id, !e);
    let rows2 = rows_with_account_shown(rows1, id, e);
    assert forall|k: int| 0 <= k < rows.len() implies #[trigger] rows2[k] == rows[k] by {
        if is_folder_row_of(rows[k], id) {
            assert(rows[k].1 == e);
        }
    }
    assert(rows2 =~= rows);
}

impl SidebarState {
    /// Expand or collapse an account's folders; returns the new state (to be saved).
    pub fn toggle_account_expansion(&mut self, account_id: &str) -> (r: bool)
        ensures
            r == !expanded_of(state_views(old(self).expanded_states@), account_id@),
            state_views(final(self).expanded_states@) == state_insert(state_views(old(self).expanded_states@), account_id@, r),
            row_views(final(self).folder_rows@) == rows_with_account_shown(row_views(old(self).folder_rows@), account_id@, r),
            final(self).inbox_rows == old(self).inbox_rows,
            final(self).accounts == old(self).accounts,
    {
        let new_state = !expanded_of_exec(&self.expanded_states, account_id);
        // the expansion state
        let ghost sv = state_views(self.expanded_states@);
        let mut st: Vec<(String, bool)> = Vec::new();
        std::mem::swap(&mut st, &mut self.expanded_states);
        let mut out: Vec<(String, bool)> = Vec::new();
        let mut found = false;
        let ghost n = st@.len();
        let mut i: usize = 0;
        proof {
            assert(sv.skip(0) =~= sv);
            assert(n == st.len());
        }
        while st.len() > 0
            invariant
                n <= usize::MAX,
                sv.len() == n,
                i + st@.len() == n,
                state_views(st@) == sv.skip(i as int),
                !found ==> state_views(out@) == sv.take(i as int) && forall|j: int| 0 <= j < i ==> sv[j].0 != account_id@,
                found ==> state_views(out@) + sv.skip(i as int) == state_insert(sv, account_id@, new_state),
            decreases st@.len(),
        {
            let ghost st_before = st@;
            let e = st.remove(0);
            proof {
                assert(state_views(st_before)[0] == (e.0@, e.1));
                assert(sv.skip(i as int)[0] == (e.0@, e.1));
                assert(state_views(st@) =~= state_views(st_before).drop_first());
                assert(sv.skip(i as int).drop_first() =~= sv.skip(i + 1));
            }
            let c = chars_of(e.0.as_str());
            let ghost before = out@;
            if !found && eq_str(&c, account_id) {
                out.push((e.0, new_state));
                found = true;
                proof {
                    lemma_state_insert_at(sv, account_id@, new_state, i as int);
                    assert(state_views(out@) =~= sv.take(i as int).push((account_id@, new_state)));
                    assert(state_views(out@) + sv.skip(i + 1) =~= sv.take(i as int) + seq![(account_id@, new_state)] + sv.skip(i + 1));
                }
            } else {
                out.push(e);
                proof {
                    assert(state_views(out@) =~= state_views(before).push(sv[i as int]));
                    if !found {
                        assert(sv.take(i + 1) =~= sv.take(i as int).push(sv[i as int]));
                    } else {
                        assert(state_views(before) + sv.skip(i as int) =~= state_views(out@) + sv.skip(i + 1));
                    }
                }
            }
            i += 1;
        }
        if !found {
            let ghost before = out@;
            out.push((account_id.to_string(), new_state));
            proof {
                assert(sv.take(n as int) =~= sv);
                lemma_state_insert_at(sv, account_id@, new_state, n as int);
                assert(state_views(out@) =~= state_views(before).push((account_id@, new_state)));
            }
        } else {
            proof {
                assert(sv.skip(n as int) =~= Seq::<(Seq<char>, bool)>::empty());
                assert(state_views(out@) =~= state_views(out@) + sv.skip(n as int));
            }
        }
        self.expanded_states = out;
        // the rows of this account's folders
        let ghost rv = row_views(self.folder_rows@);
        let mut rows: Vec<SidebarRow> = Vec::new();
        std::mem::swap(&mut rows, &mut self.folder_rows);
        let mut done: Vec<SidebarRow> = Vec::new();
        let ghost m = rows@.len();
        let mut k: usize = 0;
        proof {
            assert(m == rows.len());
            assert(rv.skip(0) =~= rv);
        }
        while rows.len() > 0
            invariant
                m <= usize::MAX,
                rv.len() == m,
                k + rows@.len() == m,
                row_views(rows@) == rv.skip(k as int),
                row_views(done@) == rows_with_account_shown(rv.take(k as int), account_id@, new_state),
            decreases rows@.len(),
        {
            let ghost rows_before = rows@;
            let row = rows.remove(0);
            proof {
                assert(row_views(rows_before)[0] == row@);
                assert(rv.skip(k as int)[0] == row@);
                assert(row_views(rows@) =~= row_views(rows_before).drop_first());
                assert(rv.skip(k as int).drop_first() =~= rv.skip(k + 1));
            }
            let (_section, kind, aid, _path) = decode_row_name(row.name.as_str());
            let kc = chars_of(kind.as_str());
            let ac = chars_of(aid.as_str());
            let is_folder = eq_str(&kc, "folder");
            let same_account = eq_str(&ac, account_id);
            let ghost before = done@;
            if is_folder && same_account {
                done.push(SidebarRow { name: row.name, visible: new_state });
            } else {
                done.push(row);
            }
            proof {
                assert(rv.take(k + 1) =~= rv.take(k as int).push(rv[k as int]));
                assert(row_views(done@) =~= row_views(before).push(
                    if is_folder_row_of(rv[k as int], account_id@) { (rv[k as int].0, new_state) } else { rv[k as int] }));
                assert(rows_with_account_shown(rv.take(k + 1), account_id@, new_state) =~= rows_with_account_shown(
                    rv.take(k as int), account_id@, new_state).push(
                    if is_folder_row_of(rv[k as int], account_id@) { (rv[k as int].0, new_state) } else { rv[k as int] }));
            }
            k += 1;
        }
        proof {
            assert(rv.take(m as int) =~= rv);
        }
        self.folder_rows = done;
        new_state
    }

    /// Which row holds the unified inbox.
    pub fn select_unified_inbox(&self) -> (r: Option<usize>)
        ensures
            match r {
                Some(i) => first_row_of(row_views(self.inbox_rows@), "unified"@, Seq::empty(), None) == Some(i as int),
                None => first_row_of(row_views(self.inbox_rows@), "unified"@, Seq::empty(), None) is None,
            },
    {
        proof {
            reveal_strlit("");
            assert(""@ =~= Seq::<char>::empty());
        }
        first_row_exec(&self.inbox_rows, "unified", "", None)
    }

    /// Select a folder: an inbox in the inboxes list, any other folder in the
    /// folders list, expanding its account when its row is hidden. Returns
    /// the list (`true` for the inboxes list) and the row.
    pub fn select_folder(&mut self, account_id: &str, folder_path: &str) -> (r: Option<(bool, usize)>)
        ensures
            ({
                let inbox_hit = if eq_ignore_ascii_case(folder_path@, "INBOX"@) {
                    first_row_of(row_views(old(self).inbox_rows@), "inbox"@, account_id@, None)
                } else {
                    None
                };
                let folder_hit = first_row_of(row_views(old(self).folder_rows@), "folder"@, account_id@, Some(folder_path@));
                match inbox_hit {
                    Some(i) => r == Some((true, i as usize)) && final(self).folder_rows == old(self).folder_rows
                        && final(self).expanded_states == old(self).expanded_states,
                    None => match folder_hit {
                        Some(j) => {
                            &&& r == Some((false, j as usize))
                            &&& if row_views(old(self).folder_rows@)[j].1 {
                                final(self).folder_rows == old(self).folder_rows
                                    && final(self).expanded_states == old(self).expanded_states
                            } else {
                                let b = !expanded_of(state_views(old(self).expanded_states@), account_id@);
                                &&& row_views(final(self).folder_rows@) == rows_with_account_shown(row_views(old(self).folder_rows@), account_id@, b)
                                &&& state_views(final(self).expanded_states@) == state_insert(state_views(old(self).expanded_states@), account_id@, b)
                            }
                        },
                        None => r is None && final(self).folder_rows == old(self).folder_rows
                            && final(self).expanded_states == old(self).expanded_states,
                    },
                }
            }),
            final(self).inbox_rows == old(self).inbox_rows,
    {
        let pc = chars_of(folder_path);
        if eq_ignore_ascii_case_str(&pc, "INBOX") {
            match first_row_exec(&self.inbox_rows, "inbox", account_id, None) {
                Some(i) => {
                    return Some((true, i));
                },
                None => {},
            }
        }
        match first_row_exec(&self.folder_rows, "folder", account_id, Some(folder_path)) {
            Some(j) => {
                if !self.folder_rows[j].visible {
                    self.toggle_account_expansion(account_id);
                }
                Some((false, j))
            },
            None => None,
        }
    }
}

proof fn lemma_state_insert_at(st: Seq<(Seq<char>, bool)>, id: Seq<char>, b: bool, i: int)
    requires
        0 <= i <= st.len(),
        forall|j: int| 0 <= j < i ==> st[j].0 != id,
        i < st.len() ==> st[i].0 == id,
    ensures
        state_insert(st, id, b) == if i < st.len() {
            st.take(i) + seq![(id, b)] + st.skip(i + 1)
        } else {
            st.push((id, b))
        },
    decreases st.len(),
{
    if st.len() == 0 {
        assert(st.push((id, b)) =~= seq![(id, b)]);
    } else if i == 0 {
        assert(st.update(0, (id, b)) =~= st.take(0) + seq![(id, b)] + st.skip(1));
    } else {
        let t = st.drop_first();
        assert forall|j: int| 0 <= j < i - 1 implies t[j].0 != id by {
            assert(t[j] == st[j + 1]);
        }
        lemma_state_insert_at(t, id, b, i - 1);
        if i < st.len() {
            assert(seq![st[0]] + (t.take(i - 1) + seq![(id, b)] + t.skip(i)) =~= st.take(i) + seq![(id, b)] + st.skip(i + 1));
        } else {
            assert(seq![st[0]] + t.push((id, b)) =~= st.push((id, b)));
        }
    }
}

fn first_row_exec(rows: &Vec<SidebarRow>, kind: &str, id: &str, path: Option<&str>) -> (r: Option<usize>)
    ensures
        r matches Some(i) ==> i < rows@.len(),
        match r {
            Some(i) => first_row_of(row_views(rows@), kind@, id@, match path { Some(p) => Some(p@), None => None }) == Some(i as int),
            None => first_row_of(row_views(rows@), kind@, id@, match path { Some(p) => Some(p@), None => None }) is None,
        },
{
    let ghost pv: Option<Seq<char>> = match path { Some(p) => Some(p@), None => None };
    let ghost rv = row_views(rows@);
    let mut i: usize = 0;
    assert(rv.skip(0) =~= rv);
    while i < rows.len()
        invariant
            rv == row_views(rows@),
            pv == match path { Some(p) => Some(p@), None => None::<Seq<char>> },
            i <= rows@.len(),
            first_row_of(rv, kind@, id@, pv) == match first_row_of(rv.skip(i as int), kind@, id@, pv) {
                Some(j) => Some(j + i),
                None => None::<int>,
            },
        decreases rows@.len() - i,
    {
        proof {
            assert(rv.skip(i as int).drop_first() =~= rv.skip(i + 1));
            assert(rv.skip(i as int)[0] == rows@[i as int]@);
        }
        let (_s, k, a, p) = decode_row_name(rows[i].name.as_str());
        let kc = chars_of(k.as_str());
        let ac = chars_of(a.as_str());
        let path_ok = match path {
            Some(want) => {
                let pc = chars_of(p.as_str());
                let same = eq_str(&pc, want);
                proof {
                    assert(pv == Some(want@));
                    assert(same == (p@ == want@));
                }
                same
            },
            None => true,
        };
        let hit = eq_str(&kc, kind) && eq_str(&ac, id) && path_ok;
        proof {
            let rd = read_row_name(rows@[i as int].name@);
            assert(k@ == rd.1);
            assert(a@ == rd.2);
            assert(p@ == rd.3);
            assert(path_ok == match pv { Some(w) => rd.3 == w, None => true });
            assert(hit == row_is(rows@[i as int]@, kind@, id@, pv));
            assert(hit == row_is(rv.skip(i as int)[0], kind@, id@, pv));
        }
        if hit {
            return Some(i);
        }
        i += 1;
    }
    None
}

/// The total of the accounts' unread inbox counts, for the unified inbox.
pub fn total_unread(accounts: &Vec<AccountFolders>) -> (r: u32)
    requires
        unread_sum(accounts@) <= u32::MAX,
    ensures
        r == unread_sum(accounts@),
{
    let mut total: u32 = 0;
    let mut i: usize = 0;
    while i < accounts.len()
        invariant
            i <= accounts@.len(),
            unread_sum(accounts@) <= u32::MAX,
            total == unread_sum(accounts@.take(i as int)),
        decreases accounts@.len() - i,
    {
        proof {
            assert(accounts@.take(i + 1).drop_last() =~= accounts@.take(i as int));
            lemma_unread_sum_prefix(accounts@, i + 1);
        }
        match accounts[i].inbox_unread {
            Some(n) => {
                total = total + n;
            },
            None => {},
        }
        i += 1;
    }
    proof {
        assert(accounts@.take(i as int) =~= accounts@);
    }
    total
}

proof fn lemma_unread_sum_prefix(accs: Seq<AccountFolders>, k: int)
    requires
        0 <= k <= accs.len(),
    ensures
        unread_sum(accs.take(k)) <= unread_sum(accs),
    decreases accs.len() - k,
{
    if k < accs.len() {
        lemma_unread_sum_prefix(accs, k + 1);
        assert(accs.take(k + 1).drop_last() =~= accs.take(k));
    } else {
        assert(accs.take(k) =~= accs);
    }
}

/// The expansion states that `set_accounts` records.
pub open spec fn recorded_states(accs: Seq<AccountFolders>, saved: Seq<(Seq<char>, bool)>) -> Seq<(Seq<char>, bool)> {
    accs.map_values(|a: AccountFolders| (a.id@, expanded_of(saved, a.id@)))
}

proof fn lemma_recorded_lookup(accs: Seq<AccountFolders>, saved: Seq<(Seq<char>, bool)>, j: int)
    requires
        0 <= j < accs.len(),
    ensures
        expanded_of(recorded_states(accs, saved), accs[j].id@) == expanded_of(saved, accs[j].id@),
    decreases accs.len(),
{
    let st = recorded_states(accs, saved);
    assert(st[0] == (accs[0].id@, expanded_of(saved, accs[0].id@)));
    if st[0].0 != accs[j].id@ {
        assert(j > 0);
        let rest = accs.drop_first();
        assert(st.drop_first() =~= recorded_states(rest, saved));
        assert(rest[j - 1] == accs[j]);
        lemma_recorded_lookup(rest, saved, j - 1);
    }
}

proof fn lemma_layout_rows(accs: Seq<AccountFolders>, saved: Seq<(Seq<char>, bool)>, n: int, k: int, id: Seq<char>)
    requires
        0 <= n <= accs.len(),
        accs.len() + 2 <= usize::MAX,
        forall|j: int| 0 <= j < accs.len() ==> free_of(#[trigger] accs[j].id@, ':'),
        0 <= k < folder_layout_upto(accs, saved, n).len(),
        is_folder_row_of(folder_layout_upto(accs, saved, n)[k], id),
    ensures
        exists|j: int| 0 <= j < n && #[trigger] accs[j].id@ == id,
        folder_layout_upto(accs, saved, n)[k].1 == expanded_of(saved, id),
    decreases n,
{
    reveal_strlit("header");
    reveal_strlit("folder");
    assert("header"@ != "folder"@) by {
        assert("header"@[0] != "folder"@[0]);
    }
    assert(free_of("header"@, ':'));
    assert(free_of("folder"@, ':'));
    let prev = folder_layout_upto(accs, saved, n - 1);
    let a = accs[n - 1];
    let section = (n + 1) as usize;
    let e = expanded_of(saved, a.id@);
    let rows = account_rows(a, section, e);
    assert(folder_layout_upto(accs, saved, n) == prev + rows);
    if k < prev.len() {
        assert((prev + rows)[k] == prev[k]);
        lemma_layout_rows(accs, saved, n - 1, k, id);
        let j = choose|j: int| 0 <= j < n - 1 && #[trigger] accs[j].id@ == id;
        assert(accs[j].id@ == id);
    } else {
        let q = k - prev.len();
        assert((prev + rows)[k] == rows[q]);
        assert(free_of(a.id@, ':'));
        if q == 0 {
            law_row_name_round_trip(section, "header"@, a.id@, Seq::empty());
            assert(rows[0].0 == row_name(section, "header"@, a.id@, Seq::empty()));
        } else {
            let f = a.folders@[q - 1];
            assert(rows[q] == (row_name(section, "folder"@, a.id@, f.full_path@), e));
            law_row_name_round_trip(section, "folder"@, a.id@, f.full_path@);
            assert(a.id@ == id);
            assert(accs[n - 1].id@ == id);
        }
    }
}

/// What `set_accounts` lays out is consistent: every folder row of an
/// account shows exactly when the recorded state has the account expanded
/// (account names hold no `:`, as row names need).
pub proof fn law_set_accounts_consistent(accs: Seq<AccountFolders>, saved: Seq<(Seq<char>, bool)>, id: Seq<char>)
    requires
        accs.len() + 2 <= usize::MAX,
        forall|j: int| 0 <= j < accs.len() ==> free_of(#[trigger] accs[j].id@, ':'),
    ensures
        account_consistent(folder_layout(accs, saved), recorded_states(accs, saved), id),
{
    let rows = folder_layout(accs, saved);
    assert forall|k: int| 0 <= k < rows.len() && is_folder_row_of(#[trigger] rows[k], id)
        implies rows[k].1 == expanded_of(recorded_states(accs, saved), id) by {
        lemma_layout_rows(accs, saved, accs.len() as int, k, id);
        let j = choose|j: int| 0 <= j < accs.len() && #[trigger] accs[j].id@ == id;
        lemma_recorded_lookup(accs, saved, j);
    }
}

} // verus!
