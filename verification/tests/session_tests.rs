use northmail::compose_session::{send_toast, CloseDecision, ComposeSession, SaveResult, SendDecision, TimerDecision, NEED_RECIPIENT_TOAST};

#[test]
fn only_the_latest_edit_saves() {
    let mut s = ComposeSession::new(None);
    let g1 = s.on_edit().unwrap();
    let g2 = s.on_edit().unwrap();
    assert_ne!(g1, g2);
    assert!(matches!(s.on_timer(g1, "subject", "", true), TimerDecision::Ignore));
    assert!(matches!(s.on_timer(g2, "subject", "", true), TimerDecision::Save { replace: None }));
    assert!(s.save_in_progress);
    assert_eq!(s.on_edit(), None);
    s.on_save_result(0, SaveResult::SavedWithUid(41));
    assert_eq!(s.draft, Some((0, 41)));
    let g = s.on_edit().unwrap();
    assert!(matches!(s.on_timer(g, "", "body", true), TimerDecision::Save { replace: Some((0, 41)) }));
    s.on_save_result(0, SaveResult::Failed);
    assert_eq!(s.draft, Some((0, 41)));
    assert!(!s.save_in_progress);
}

#[test]
fn blank_drafts_and_missing_accounts_do_nothing() {
    let mut s = ComposeSession::new(None);
    let g = s.on_edit().unwrap();
    assert!(matches!(s.on_timer(g, "  ", "\n", true), TimerDecision::NothingToSave));
    assert!(matches!(s.on_timer(g, "x", "", false), TimerDecision::Ignore));
    assert!(!s.save_in_progress);
}

#[test]
fn sending_and_closing() {
    let mut s = ComposeSession::new(Some((1, 5)));
    assert_eq!(s.on_send(0), SendDecision::NeedRecipient);
    let g = s.timer_generation;
    assert_eq!(s.on_send(2), SendDecision::Send);
    assert_ne!(s.timer_generation, g);
    assert_eq!(s.on_send_result(false), None);
    assert_eq!(s.on_close(), CloseDecision::AskAboutDraft { account_index: 1, uid: 5 });
    assert_eq!(s.on_send_result(true), Some((1, 5)));
    assert_eq!(s.on_close(), CloseDecision::Close);
    let mut t = ComposeSession::new(None);
    assert_eq!(t.on_close(), CloseDecision::Close);
    t.on_save_result(2, SaveResult::SavedWithoutUid);
    assert_eq!(t.draft, None);
}

#[test]
fn test_send_toasts() {
    assert_eq!(send_toast(None), "Message sent");
    assert_eq!(send_toast(Some("timeout")), "Send failed: timeout");
    assert_eq!(NEED_RECIPIENT_TOAST, "Please add at least one recipient");
}
