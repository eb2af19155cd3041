//! Decisions of the main window: its title, what a search request loads, the
//! attachment badge of an opened message, the toast after a move, and the
//! collapsible sidebar pane with the header buttons that follow it.
use vstd::prelude::*;

use crate::bodystructure::{last_piece, last_piece_exec};
use crate::listing::{first_with_uid, first_with_uid_exec, MessageInfo, MessageListState};
use crate::text::{chars_of, decimal, extend_chars, extend_str, signed_decimal, signed_decimal_exec, string_of};

verus! {

// ───────────────────────── title, search, badges ─────────────────────────

/// The window title: the unread count in brackets when there is one.
pub open spec fn title_text(count: int) -> Seq<char> {
    if count > 0 {
        "NorthMail ("@ + signed_decimal(count) + ")"@
    } else {
        "NorthMail"@
    }
}

/// The window title for an unread count.
pub fn window_title(count: i64) -> (r: String)
    ensures
        r@ == title_text(count as int),
{
    if count > 0 {
        let mut v: Vec<char> = Vec::new();
        extend_str(&mut v, "NorthMail (");
        let d = signed_decimal_exec(count);
        extend_chars(&mut v, &d);
        extend_str(&mut v, ")");
        string_of(&v)
    } else {
        String::from_str("NorthMail")
    }
}

/// The folder id that stands for the merged inboxes of all accounts.
pub const UNIFIED_INBOX_ID: i64 = -1;

/// What a search request loads into the message list.
#[derive(Debug, PartialEq, Eq)]
pub enum SearchAction {
    /// No folder is open yet: nothing happens.
    Nothing,
    /// An empty query: reload the first page of the folder from the cache.
    Reload { unified: bool, folder_id: i64, limit: u32 },
    /// A full-text search of the folder; its results replace the list and
    /// end paging.
    Search { unified: bool, folder_id: i64, query: String, limit: u32 },
}

/// What a search for `query` in the cache folder `folder_id` does (0: no
/// folder yet; `UNIFIED_INBOX_ID`: all inboxes).
pub fn search_action(folder_id: i64, query: &str) -> (r: SearchAction)
    ensures
        folder_id == 0 ==> r == SearchAction::Nothing,
        folder_id != 0 && query@.len() == 0 ==> r == (SearchAction::Reload {
            unified: folder_id == UNIFIED_INBOX_ID,
            folder_id,
            limit: 100,
        }),
        folder_id != 0 && query@.len() > 0 ==> (r matches SearchAction::Search { unified, folder_id: f, query: q, limit }
            && unified == (folder_id == UNIFIED_INBOX_ID) && f == folder_id && q@ == query@ && limit == 200),
{
    if folder_id == 0 {
        return SearchAction::Nothing;
    }
    let unified = folder_id == UNIFIED_INBOX_ID;
    let q = chars_of(query);
    if q.len() == 0 {
        SearchAction::Reload { unified, folder_id, limit: 100 }
    } else {
        SearchAction::Search { unified, folder_id, query: String::from_str(query), limit: 200 }
    }
}

/// The attachment button of an opened message: the count, its tooltip and
/// whether the list scrolls (more than five entries).
pub struct AttachmentBadge {
    pub label: String,
    pub tooltip: String,
    pub scrolls: bool,
}

/// `"<n> attachment"`, with an `s` unless there is exactly one.
pub open spec fn attachments_tooltip(count: nat) -> Seq<char> {
    decimal(count) + " attachment"@ + if count == 1 { Seq::empty() } else { "s"@ }
}

/// The badge shown for `count` attachments (none when there are none).
pub fn attachment_badge(count: usize) -> (r: Option<AttachmentBadge>)
    ensures
        count == 0 ==> r is None,
        count > 0 ==> (r matches Some(b) && b.label@ == decimal(count as nat) && b.tooltip@
            == attachments_tooltip(count as nat) && b.scrolls == (count > 5)),
{
    if count == 0 {
        return None;
    }
    let d = crate::text::decimal_exec(count as u64);
    let mut t: Vec<char> = Vec::new();
    extend_chars(&mut t, &d);
    extend_str(&mut t, " attachment");
    if count != 1 {
        extend_str(&mut t, "s");
    }
    Some(AttachmentBadge { label: string_of(&d), tooltip: string_of(&t), scrolls: count > 5 })
}

/// The toast after a message was dragged to another folder: the folder's
/// last path piece, or the refusal of a move between accounts.
pub fn move_toast(moved: bool, target_folder_path: &str) -> (r: String)
    ensures
        moved ==> r@ == "Moved to "@ + last_piece(target_folder_path@, "/"@),
        !moved ==> r@ == "Cannot move between different accounts"@,
{
    if !moved {
        return String::from_str("Cannot move between different accounts");
    }
    let p = chars_of(target_folder_path);
    let d = chars_of("/");
    let name = last_piece_exec(&p, &d);
    let mut v: Vec<char> = Vec::new();
    extend_str(&mut v, "Moved to ");
    extend_chars(&mut v, &name);
    string_of(&v)
}

// ───────────────────────── the sidebar pane ─────────────────────────

/// The narrowest the sidebar may be dragged, short of closing it.
pub const MIN_SIDEBAR_WIDTH: i32 = 200;

/// The sidebar width before the user changes it.
pub const DEFAULT_SIDEBAR_WIDTH: i32 = 240;

/// `a - b`, but not below `floor` (computed without overflow).
pub open spec fn floored_diff(a: int, b: int, floor: int) -> int {
    if a - b > floor {
        a - b
    } else {
        floor
    }
}

/// The margin that puts the sidebar toggle at the sidebar's right edge: the
/// sidebar width less the header title, the button and padding (148), at
/// least 8.
pub fn toggle_margin(outer_position: i32) -> (r: i32)
    ensures
        r == floored_diff(outer_position as int, 148, 8),
        r >= 8,
{
    if outer_position > 156 {
        outer_position - 148
    } else {
        8
    }
}

/// The margin that puts the compose button at the message view's left
/// edge: the list pane position less 215 when the sidebar is closed, less 58
/// when it is open, at least 8.
pub fn compose_margin(outer_position: i32, inner_position: i32) -> (r: i32)
    ensures
        r == floored_diff(inner_position as int, if outer_position == 0 { 215 } else { 58 }, 8),
        r >= 8,
{
    let offset: i32 = if outer_position == 0 {
        215
    } else {
        58
    };
    if inner_position > offset + 8 {
        inner_position - offset
    } else {
        8
    }
}

/// The width remembered for reopening the sidebar after it is hidden at
/// `position`: the position when the sidebar was open, else the old value.
pub open spec fn saved_after_hide(saved: int, position: int) -> int {
    if position > 0 {
        position
    } else {
        saved
    }
}

/// The position that reopens the sidebar: the remembered width, at least
/// the minimum.
pub open spec fn reopen_position(saved: int) -> int {
    if saved > MIN_SIDEBAR_WIDTH {
        saved
    } else {
        MIN_SIDEBAR_WIDTH as int
    }
}

/// What follows a change of the sidebar pane's position.
#[derive(Debug, PartialEq, Eq)]
pub enum PaneUpdate {
    /// A drag left the sidebar too narrow: set the position to this instead.
    Clamp(i32),
    /// Keep the position: set the toggle button's state when it disagrees
    /// with the sidebar being open, and move the header buttons.
    Follow { set_toggle: Option<bool>, toggle_margin: i32, compose_margin: i32 },
}

/// The collapsible sidebar: the width it reopens at.
pub struct SidebarPane {
    saved_position: i32,
}

impl SidebarPane {
    /// The width the sidebar reopens at.
    pub closed spec fn saved(&self) -> int {
        self.saved_position as int
    }

    /// A pane that reopens at the default width.
    pub fn new() -> (r: SidebarPane)
        ensures
            r.saved() == DEFAULT_SIDEBAR_WIDTH,
    {
        SidebarPane { saved_position: DEFAULT_SIDEBAR_WIDTH }
    }

    /// The toggle button was switched on (`active`) or off while the pane is
    /// at `current_position`: the position to set. Switching off remembers
    /// an open width and closes the pane; switching on reopens it.
    pub fn toggled(&mut self, active: bool, current_position: i32) -> (r: i32)
        ensures
            active ==> r == reopen_position(old(self).saved()) && final(self).saved() == old(self).saved(),
            !active ==> r == 0 && final(self).saved() == saved_after_hide(old(self).saved(), current_position as int),
    {
        if active {
            if self.saved_position > MIN_SIDEBAR_WIDTH {
                self.saved_position
            } else {
                MIN_SIDEBAR_WIDTH
            }
        } else {
            if current_position > 0 {
                self.saved_position = current_position;
            }
            0
        }
    }

    /// The pane moved to `position` (the list pane is at `inner_position`;
    /// `toggle_active` is the toggle button's state; `toggling` is true while
    /// the toggle itself moves the pane). A drag that leaves the sidebar open
    /// but narrower than the minimum is undone; otherwise an open width of at
    /// least the minimum is remembered, the toggle follows the pane, and the
    /// header buttons move.
    pub fn position_changed(&mut self, position: i32, inner_position: i32, toggle_active: bool, toggling: bool) -> (r: PaneUpdate)
        ensures
            !toggling && 0 < position < MIN_SIDEBAR_WIDTH ==> r == PaneUpdate::Clamp(MIN_SIDEBAR_WIDTH)
                && final(self).saved() == old(self).saved(),
            !(!toggling && 0 < position < MIN_SIDEBAR_WIDTH) ==> {
                &&& final(self).saved() == if position >= MIN_SIDEBAR_WIDTH {
                    position as int
                } else {
                    old(self).saved()
                }
                &&& r == PaneUpdate::Follow {
                    set_toggle: if position == 0 && toggle_active {
                        Some(false)
                    } else if position > 0 && !toggle_active {
                        Some(true)
                    } else {
                        None
                    },
                    toggle_margin: floored_diff(position as int, 148, 8) as i32,
                    compose_margin: floored_diff(
                        inner_position as int,
                        if position == 0 { 215 } else { 58 },
                        8,
                    ) as i32,
                }
            },
    {
        if !toggling && position > 0 && position < MIN_SIDEBAR_WIDTH {
            return PaneUpdate::Clamp(MIN_SIDEBAR_WIDTH);
        }
        if position >= MIN_SIDEBAR_WIDTH {
            self.saved_position = position;
        }
        let set_toggle = if position == 0 && toggle_active {
            Some(false)
        } else if position > 0 && !toggle_active {
            Some(true)
        } else {
            None
        };
        PaneUpdate::Follow {
            set_toggle,
            toggle_margin: toggle_margin(position),
            compose_margin: compose_margin(position, inner_position),
        }
    }
}

/// Hiding the sidebar while it is open at least the minimum width and then
/// showing it again brings it back at the same width.
pub proof fn law_hide_then_show_restores(saved: int, position: int)
    requires
        position >= MIN_SIDEBAR_WIDTH,
    ensures
        reopen_position(saved_after_hide(saved, position)) == position,
{
}

/// Reopening the sidebar never makes it narrower than the minimum.
pub proof fn law_reopen_not_narrow(saved: int)
    ensures
        reopen_position(saved) >= MIN_SIDEBAR_WIDTH,
{
}

// ───────────────────────── the message shown ─────────────────────────

/// Which message the message view shows.
pub struct ShownMessage {
    uid: Option<u32>,
}

impl ShownMessage {
    /// The UID of the message shown, if any.
    pub closed spec fn current(&self) -> Option<u32> {
        self.uid
    }

    /// No message shown.
    pub fn new() -> (r: ShownMessage)
        ensures
            r.current() is None,
    {
        ShownMessage { uid: None }
    }

    /// The message with `uid` was selected in the list: the message to show,
    /// found by its UID in the list; `None`, and nothing changes, when it is
    /// already shown or not in the list.
    pub fn open(&mut self, list: &MessageListState, uid: u32) -> (r: Option<MessageInfo>)
        ensures
            old(self).current() == Some(uid) ==> r is None && final(self).current() == old(self).current(),
            old(self).current() != Some(uid) ==> match first_with_uid(list.messages@, uid) {
                Some(k) => r == Some(list.messages@[k]) && final(self).current() == Some(uid),
                None => r is None && final(self).current() == old(self).current(),
            },
    {
        if self.uid == Some(uid) {
            return None;
        }
        match first_with_uid_exec(&list.messages, uid) {
            Some(k) => {
                self.uid = Some(uid);
                Some(list.messages[k].copy())
            },
            None => None,
        }
    }

    /// Forget the message shown (the folder changed).
    pub fn clear(&mut self)
        ensures
            final(self).current() is None,
    {
        self.uid = None;
    }

    /// The message with `uid` left the list (moved, archived or deleted):
    /// whether it was the one shown, whose view is then cleared.
    pub fn removed(&mut self, uid: u32) -> (r: bool)
        ensures
            r == (old(self).current() == Some(uid)),
            final(self).current() == if r { None } else { old(self).current() },
    {
        if self.uid == Some(uid) {
            self.uid = None;
            true
        } else {
            false
        }
    }
}

} // verus!
