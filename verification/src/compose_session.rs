//! The life of a compose window: auto-saving drafts a few seconds after
//! the last edit, sending, and closing.
//!
//! Each edit starts a new generation of the save timer; a timer that fires
//! for an older generation does nothing, so only the last edit saves. The
//! window remembers the draft it saved last (account index and UID) so that
//! the next save replaces it, a sent message removes it, and closing asks
//! whether to keep it.
use vstd::prelude::*;
use crate::text::{chars_of, trim, trim_exec};

verus! {

/// The state of a compose window.
pub struct ComposeSession {
    /// The draft saved last, as (account index, UID).
    pub draft: Option<(u32, u32)>,
    /// The generation of the save timer; an edit or a send starts a new one.
    pub timer_generation: u32,
    /// The message was sent.
    pub was_sent: bool,
    /// A draft is being saved.
    pub save_in_progress: bool,
}

/// What to do when the save timer fires.
#[derive(Clone, Copy, Debug)]
pub enum TimerDecision {
    /// The timer is stale, or the account is gone: do nothing.
    Ignore,
    /// Subject and body are blank: nothing to save.
    NothingToSave,
    /// Save the draft, deleting the previous one first when there is one.
    Save { replace: Option<(u32, u32)> },
}

/// What the outcome of saving a draft was.
#[derive(PartialEq, Eq, Structural, Clone, Copy, Debug)]
pub enum SaveResult {
    /// Saved; the server gave the draft this UID.
    SavedWithUid(u32),
    /// Saved; the server gave no UID.
    SavedWithoutUid,
    /// Saving failed.
    Failed,
}

/// What to do when the user presses Send.
#[derive(PartialEq, Eq, Structural, Clone, Copy, Debug)]
pub enum SendDecision {
    /// No recipient: tell the user to add one.
    NeedRecipient,
    /// Send the message.
    Send,
}

/// What to do when the window is asked to close.
#[derive(PartialEq, Eq, Structural, Clone, Copy, Debug)]
pub enum CloseDecision {
    /// Close the window.
    Close,
    /// A draft was saved: ask whether to keep or delete it before closing.
    AskAboutDraft { account_index: u32, uid: u32 },
}

/// The text has something besides whitespace.
pub open spec fn has_text(s: Seq<char>) -> bool {
    trim(s).len() > 0
}

/// The generation after `g`, wrapping around.
pub open spec fn next_generation(g: u32) -> u32 {
    g.wrapping_add(1)
}

impl ComposeSession {
    /// A new window; editing a saved draft starts with that draft.
    pub fn new(draft: Option<(u32, u32)>) -> (r: ComposeSession)
        ensures
            r.draft == draft,
            r.timer_generation == 0,
            !r.was_sent,
            !r.save_in_progress,
    {
        ComposeSession { draft, timer_generation: 0, was_sent: false, save_in_progress: false }
    }

    /// The subject or the body changed: start a new timer generation, and
    /// return it when a save timer is to be scheduled (none while a save is
    /// under way).
    pub fn on_edit(&mut self) -> (r: Option<u32>)
        ensures
            final(self).timer_generation == next_generation(old(self).timer_generation),
            r == if old(self).save_in_progress { None } else { Some(final(self).timer_generation) },
            final(self).draft == old(self).draft,
            final(self).was_sent == old(self).was_sent,
            final(self).save_in_progress == old(self).save_in_progress,
    {
        self.timer_generation = self.timer_generation.wrapping_add(1);
        if self.save_in_progress {
            None
        } else {
            Some(self.timer_generation)
        }
    }

    /// The save timer of generation `generation` fired.
    pub fn on_timer(&mut self, generation: u32, subject: &str, body: &str, account_known: bool) -> (r: TimerDecision)
        ensures
            r == timer_decision(*old(self), generation, subject@, body@, account_known),
            final(self).save_in_progress == (old(self).save_in_progress || r is Save),
            final(self).draft == old(self).draft,
            final(self).timer_generation == old(self).timer_generation,
            final(self).was_sent == old(self).was_sent,
    {
        if generation != self.timer_generation {
            return TimerDecision::Ignore;
        }
        let sc = chars_of(subject);
        let bc = chars_of(body);
        let st = trim_exec(&sc);
        let bt = trim_exec(&bc);
        if st.len() == 0 && bt.len() == 0 {
            return TimerDecision::NothingToSave;
        }
        if !account_known {
            return TimerDecision::Ignore;
        }
        self.save_in_progress = true;
        TimerDecision::Save { replace: self.draft }
    }

    /// A draft save for account `account_index` finished.
    pub fn on_save_result(&mut self, account_index: u32, result: SaveResult)
        ensures
            !final(self).save_in_progress,
            final(self).draft == match result {
                SaveResult::SavedWithUid(uid) => Some((account_index, uid)),
                SaveResult::SavedWithoutUid => None,
                SaveResult::Failed => old(self).draft,
            },
            final(self).timer_generation == old(self).timer_generation,
            final(self).was_sent == old(self).was_sent,
    {
        self.save_in_progress = false;
        match result {
            SaveResult::SavedWithUid(uid) => {
                self.draft = Some((account_index, uid));
            },
            SaveResult::SavedWithoutUid => {
                self.draft = None;
            },
            SaveResult::Failed => {},
        }
    }

    /// The user pressed Send; `recipients` is the number of To chips.
    pub fn on_send(&mut self, recipients: usize) -> (r: SendDecision)
        ensures
            recipients == 0 ==> r == SendDecision::NeedRecipient && *final(self) == *old(self),
            recipients > 0 ==> r == SendDecision::Send
                && final(self).timer_generation == next_generation(old(self).timer_generation)
                && final(self).draft == old(self).draft
                && final(self).was_sent == old(self).was_sent
                && final(self).save_in_progress == old(self).save_in_progress,
    {
        if recipients == 0 {
            return SendDecision::NeedRecipient;
        }
        self.timer_generation = self.timer_generation.wrapping_add(1);
        SendDecision::Send
    }

    /// Sending finished; on success returns the saved draft to delete, if any.
    pub fn on_send_result(&mut self, sent: bool) -> (r: Option<(u32, u32)>)
        ensures
            sent ==> final(self).was_sent && r == old(self).draft,
            !sent ==> *final(self) == *old(self) && r is None,
            final(self).draft == old(self).draft,
            final(self).timer_generation == old(self).timer_generation,
    {
        if sent {
            self.was_sent = true;
            self.draft
        } else {
            None
        }
    }

    /// The window is asked to close: a pending timer is invalidated; a sent
    /// message closes at once, a saved draft makes the window ask first.
    pub fn on_close(&mut self) -> (r: CloseDecision)
        ensures
            final(self).timer_generation == next_generation(old(self).timer_generation),
            r == close_decision(*old(self)),
            final(self).draft == old(self).draft,
            final(self).was_sent == old(self).was_sent,
    {
        self.timer_generation = self.timer_generation.wrapping_add(1);
        if self.was_sent {
            return CloseDecision::Close;
        }
        match self.draft {
            Some((a, u)) => CloseDecision::AskAboutDraft { account_index: a, uid: u },
            None => CloseDecision::Close,
        }
    }
}

/// The generation `n` steps after `g`.
pub open spec fn generations_after(g: u32, n: nat) -> u32
    decreases n,
{
    if n == 0 {
        g
    } else {
        next_generation(generations_after(g, (n - 1) as nat))
    }
}

proof fn lemma_generations_after(g: u32, n: nat)
    ensures
        generations_after(g, n) == (g + n) % 0x1_0000_0000,
    decreases n,
{
    if n > 0 {
        lemma_generations_after(g, (n - 1) as nat);
    }
}

/// Only the latest edit saves: once a later edit, send or close has moved
/// the generation on (fewer than four billion times, so that the counter
/// has not wrapped back), the timer of an earlier edit is ignored.
pub proof fn law_stale_timer_ignored(s: ComposeSession, n: nat, subject: &str, body: &str, account_known: bool)
    requires
        1 <= n < 0x1_0000_0000,
    ensures
        ({
            let later = ComposeSession { timer_generation: generations_after(s.timer_generation, n), ..s };
            timer_decision(later, s.timer_generation, subject@, body@, account_known) == TimerDecision::Ignore
        }),
{
    lemma_generations_after(s.timer_generation, n);
}

/// What the timer of generation `g` decides in state `s`.
pub open spec fn timer_decision(s: ComposeSession, g: u32, subject: Seq<char>, body: Seq<char>, account_known: bool) -> TimerDecision {
    if g != s.timer_generation {
        TimerDecision::Ignore
    } else if !has_text(subject) && !has_text(body) {
        TimerDecision::NothingToSave
    } else if !account_known {
        TimerDecision::Ignore
    } else {
        TimerDecision::Save { replace: s.draft }
    }
}

/// What closing decides in state `s`.
pub open spec fn close_decision(s: ComposeSession) -> CloseDecision {
    if s.was_sent {
        CloseDecision::Close
    } else {
        match s.draft {
            Some((a, u)) => CloseDecision::AskAboutDraft { account_index: a, uid: u },
            None => CloseDecision::Close,
        }
    }
}

/// A window whose message went out closes without asking, and a draft
/// saved with a UID is the one the window asks about when closed unsent;
/// the next save replaces it.
pub proof fn law_draft_follows_saves(s: ComposeSession, account_index: u32, uid: u32, g: u32, subject: &str, body: &str)
    ensures
        close_decision(ComposeSession { was_sent: true, ..s }) == CloseDecision::Close,
        !s.was_sent ==> close_decision(ComposeSession { draft: Some((account_index, uid)), save_in_progress: false, ..s })
            == (CloseDecision::AskAboutDraft { account_index, uid }),
        (has_text(subject@) || has_text(body@)) ==> timer_decision(
            ComposeSession { draft: Some((account_index, uid)), save_in_progress: false, ..s },
            s.timer_generation,
            subject@,
            body@,
            true,
        ) == (TimerDecision::Save { replace: Some((account_index, uid)) }),
{
}

// ───────────────────────── what the user is told ─────────────────────────

/// The notice when Send is pressed with no recipient.
pub const NEED_RECIPIENT_TOAST: &'static str = "Please add at least one recipient";

/// The Send button's label while the message goes out.
pub const SENDING_LABEL: &'static str = "Sending…";

/// The notice after a send: success, or the error that stopped it.
pub open spec fn send_toast_text(error: Option<Seq<char>>) -> Seq<char> {
    match error {
        None => "Message sent"@,
        Some(e) => "Send failed: "@ + e,
    }
}

/// Executable `send_toast_text` (`error`: the failure's text, if it failed).
pub fn send_toast(error: Option<&str>) -> (r: String)
    ensures
        r@ == send_toast_text(match error {
            Some(e) => Some(e@),
            None => None,
        }),
{
    match error {
        None => String::from_str("Message sent"),
        Some(e) => {
            let mut v: Vec<char> = Vec::new();
            crate::text::extend_str(&mut v, "Send failed: ");
            crate::text::extend_str(&mut v, e);
            crate::text::string_of(&v)
        },
    }
}

} // verus!
