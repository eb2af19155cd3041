//! The right-click menu of a message row: the actions on that message, or,
//! when the row belongs to a selection of several messages, the bulk actions
//! on the selection.
use vstd::prelude::*;

use crate::listing::{MessageInfo, MessageListState};
use crate::text::{decimal, decimal_exec, extend_chars, extend_str, string_of};

verus! {

/// What a menu item asks the list's owner to do (the flag: set or clear).
#[derive(Clone, Copy, Debug, PartialEq, Eq, Structural)]
pub enum MenuAction {
    MarkRead(bool),
    Star(bool),
    Reply,
    ReplyAll,
    Forward,
    Archive,
    Trash,
    Spam,
    /// The same on every selected message.
    BulkMarkRead(bool),
    BulkStar(bool),
    BulkArchive,
    BulkTrash,
    BulkSpam,
}

/// An entry of the menu.
pub enum MenuEntry {
    Item { label: String, action: MenuAction },
    Separator,
}

/// An entry as (label, action); a separator has no label and no action.
pub open spec fn entry_view(e: MenuEntry) -> (Seq<char>, Option<MenuAction>) {
    match e {
        MenuEntry::Item { label, action } => (label@, Some(action)),
        MenuEntry::Separator => (Seq::empty(), None),
    }
}

/// The views of a menu.
pub open spec fn menu_view(v: Seq<MenuEntry>) -> Seq<(Seq<char>, Option<MenuAction>)> {
    v.map_values(|e: MenuEntry| entry_view(e))
}

pub open spec fn item(label: Seq<char>, a: MenuAction) -> (Seq<char>, Option<MenuAction>) {
    (label, Some(a))
}

pub open spec fn separator() -> (Seq<char>, Option<MenuAction>) {
    (Seq::empty(), None)
}

/// The menu of one message: read and star toggles that offer the opposite
/// of its state, the replies, then archive, trash and spam.
pub open spec fn single_menu(is_read: bool, is_starred: bool) -> Seq<(Seq<char>, Option<MenuAction>)> {
    seq![
        if is_read { item("Mark as Unread"@, MenuAction::MarkRead(false)) } else { item("Mark as Read"@, MenuAction::MarkRead(true)) },
        if is_starred { item("Unstar"@, MenuAction::Star(false)) } else { item("Star"@, MenuAction::Star(true)) },
        separator(),
        item("Reply"@, MenuAction::Reply),
        item("Reply All"@, MenuAction::ReplyAll),
        item("Forward"@, MenuAction::Forward),
        separator(),
        item("Archive"@, MenuAction::Archive),
        item("Move to Trash"@, MenuAction::Trash),
        item("Mark as Spam"@, MenuAction::Spam),
    ]
}

/// The menu of a selection of `count` messages.
pub open spec fn bulk_menu(count: nat) -> Seq<(Seq<char>, Option<MenuAction>)> {
    let n = decimal(count);
    seq![
        item("Mark "@ + n + " as Read"@, MenuAction::BulkMarkRead(true)),
        item("Mark "@ + n + " as Unread"@, MenuAction::BulkMarkRead(false)),
        item("Star "@ + n, MenuAction::BulkStar(true)),
        item("Unstar "@ + n, MenuAction::BulkStar(false)),
        separator(),
        item("Archive "@ + n + " Messages"@, MenuAction::BulkArchive),
        item("Move "@ + n + " to Trash"@, MenuAction::BulkTrash),
        item("Mark "@ + n + " as Spam"@, MenuAction::BulkSpam),
    ]
}

fn push_item(v: &mut Vec<MenuEntry>, label: &str, action: MenuAction)
    ensures
        menu_view(final(v)@) == menu_view(old(v)@).push(item(label@, action)),
{
    let ghost before = v@;
    v.push(MenuEntry::Item { label: String::from_str(label), action });
    assert(menu_view(v@) =~= menu_view(before).push(item(label@, action)));
}

fn push_separator(v: &mut Vec<MenuEntry>)
    ensures
        menu_view(final(v)@) == menu_view(old(v)@).push(separator()),
{
    let ghost before = v@;
    v.push(MenuEntry::Separator);
    assert(menu_view(v@) =~= menu_view(before).push(separator()));
}

/// `prefix` + the count + `suffix`.
fn counted(prefix: &str, n: &Vec<char>, suffix: &str) -> (r: String)
    ensures
        r@ == prefix@ + n@ + suffix@,
{
    let mut v: Vec<char> = Vec::new();
    extend_str(&mut v, prefix);
    extend_chars(&mut v, n);
    extend_str(&mut v, suffix);
    string_of(&v)
}

fn push_counted(v: &mut Vec<MenuEntry>, prefix: &str, n: &Vec<char>, suffix: &str, action: MenuAction)
    ensures
        menu_view(final(v)@) == menu_view(old(v)@).push(item(prefix@ + n@ + suffix@, action)),
{
    let ghost before = v@;
    let label = counted(prefix, n, suffix);
    v.push(MenuEntry::Item { label, action });
    assert(menu_view(v@) =~= menu_view(before).push(item(prefix@ + n@ + suffix@, action)));
}

/// The menu of one message.
pub fn single_context_menu(is_read: bool, is_starred: bool) -> (r: Vec<MenuEntry>)
    ensures
        menu_view(r@) == single_menu(is_read, is_starred),
{
    let mut v: Vec<MenuEntry> = Vec::new();
    if is_read {
        push_item(&mut v, "Mark as Unread", MenuAction::MarkRead(false));
    } else {
        push_item(&mut v, "Mark as Read", MenuAction::MarkRead(true));
    }
    if is_starred {
        push_item(&mut v, "Unstar", MenuAction::Star(false));
    } else {
        push_item(&mut v, "Star", MenuAction::Star(true));
    }
    push_separator(&mut v);
    push_item(&mut v, "Reply", MenuAction::Reply);
    push_item(&mut v, "Reply All", MenuAction::ReplyAll);
    push_item(&mut v, "Forward", MenuAction::Forward);
    push_separator(&mut v);
    push_item(&mut v, "Archive", MenuAction::Archive);
    push_item(&mut v, "Move to Trash", MenuAction::Trash);
    push_item(&mut v, "Mark as Spam", MenuAction::Spam);
    assert(menu_view(v@) =~= single_menu(is_read, is_starred));
    v
}

/// The menu of a selection of `count` messages.
pub fn bulk_context_menu(count: usize) -> (r: Vec<MenuEntry>)
    ensures
        menu_view(r@) == bulk_menu(count as nat),
{
    let n = decimal_exec(count as u64);
    let mut v: Vec<MenuEntry> = Vec::new();
    push_counted(&mut v, "Mark ", &n, " as Read", MenuAction::BulkMarkRead(true));
    push_counted(&mut v, "Mark ", &n, " as Unread", MenuAction::BulkMarkRead(false));
    push_counted(&mut v, "Star ", &n, "", MenuAction::BulkStar(true));
    push_counted(&mut v, "Unstar ", &n, "", MenuAction::BulkStar(false));
    push_separator(&mut v);
    push_counted(&mut v, "Archive ", &n, " Messages", MenuAction::BulkArchive);
    push_counted(&mut v, "Move ", &n, " to Trash", MenuAction::BulkTrash);
    push_counted(&mut v, "Mark ", &n, " as Spam", MenuAction::BulkSpam);
    proof {
        reveal_strlit("");
        assert("Star "@ + n@ + ""@ =~= "Star "@ + n@);
        assert("Unstar "@ + n@ + ""@ =~= "Unstar "@ + n@);
    }
    assert(menu_view(v@) =~= bulk_menu(count as nat));
    v
}

fn contains_uid(v: &Vec<u32>, uid: u32) -> (r: bool)
    ensures
        r == v@.contains(uid),
{
    let mut i: usize = 0;
    while i < v.len()
        invariant
            i <= v@.len(),
            forall|k: int| 0 <= k < i ==> v@[k] != uid,
        decreases v@.len() - i,
    {
        if v[i] == uid {
            assert(v@[i as int] == uid);
            return true;
        }
        i += 1;
    }
    false
}

impl MessageListState {
    /// The menu a right click on the row of `msg` opens: the bulk menu when
    /// several messages are selected and this one is among them, else the
    /// menu of this message.
    pub fn context_menu(&self, msg: &MessageInfo) -> (r: Vec<MenuEntry>)
        ensures
            menu_view(r@) == if self.selected_uids@.len() > 1 && self.selected_uids@.contains(msg.uid) {
                bulk_menu(self.selected_uids@.len())
            } else {
                single_menu(msg.is_read, msg.is_starred)
            },
    {
        let count = self.selected_uids.len();
        if count > 1 && contains_uid(&self.selected_uids, msg.uid) {
            bulk_context_menu(count)
        } else {
            single_context_menu(msg.is_read, msg.is_starred)
        }
    }
}

} // verus!
