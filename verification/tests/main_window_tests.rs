use northmail::main_window::{
    attachment_badge, compose_margin, move_toast, search_action, toggle_margin, window_title, PaneUpdate,
    SearchAction, ShownMessage, SidebarPane,
};
use northmail::listing::{MessageInfo, MessageListState};

#[test]
fn test_window_title_with_unread() {
    assert_eq!(window_title(0), "NorthMail");
    assert_eq!(window_title(-3), "NorthMail");
    assert_eq!(window_title(12), "NorthMail (12)");
}

#[test]
fn test_search_action() {
    assert_eq!(search_action(0, "invoice"), SearchAction::Nothing);
    assert_eq!(search_action(-1, ""), SearchAction::Reload { unified: true, folder_id: -1, limit: 100 });
    assert_eq!(search_action(42, ""), SearchAction::Reload { unified: false, folder_id: 42, limit: 100 });
    assert_eq!(
        search_action(42, "invoice"),
        SearchAction::Search { unified: false, folder_id: 42, query: "invoice".to_string(), limit: 200 }
    );
}

#[test]
fn test_attachment_badge() {
    assert!(attachment_badge(0).is_none());
    let one = attachment_badge(1).unwrap();
    assert_eq!(one.label, "1");
    assert_eq!(one.tooltip, "1 attachment");
    assert!(!one.scrolls);
    let many = attachment_badge(7).unwrap();
    assert_eq!(many.tooltip, "7 attachments");
    assert!(many.scrolls);
    assert!(!attachment_badge(5).unwrap().scrolls);
}

#[test]
fn test_move_toast() {
    assert_eq!(move_toast(true, "[Gmail]/Trash"), "Moved to Trash");
    assert_eq!(move_toast(true, "Archive"), "Moved to Archive");
    assert_eq!(move_toast(false, "Archive"), "Cannot move between different accounts");
}

#[test]
fn test_header_button_margins() {
    assert_eq!(toggle_margin(240), 92);
    assert_eq!(toggle_margin(100), 8);
    assert_eq!(toggle_margin(0), 8);
    assert_eq!(compose_margin(240, 600), 542);
    assert_eq!(compose_margin(0, 400), 185);
    assert_eq!(compose_margin(0, 100), 8);
    assert_eq!(toggle_margin(i32::MIN), 8);
    assert_eq!(compose_margin(5, i32::MIN), 8);
}

#[test]
fn test_sidebar_hide_and_show() {
    let mut pane = SidebarPane::new();
    assert_eq!(pane.toggled(true, 0), 240);
    assert_eq!(pane.toggled(false, 310), 0);
    assert_eq!(pane.toggled(true, 0), 310);
    assert_eq!(pane.toggled(false, 0), 0);
    assert_eq!(pane.toggled(true, 0), 310);
}

#[test]
fn test_sidebar_drag() {
    let mut pane = SidebarPane::new();
    assert_eq!(pane.position_changed(150, 500, true, false), PaneUpdate::Clamp(200));
    assert_eq!(
        pane.position_changed(150, 500, true, true),
        PaneUpdate::Follow { set_toggle: None, toggle_margin: 8, compose_margin: 442 }
    );
    assert_eq!(
        pane.position_changed(0, 300, true, false),
        PaneUpdate::Follow { set_toggle: Some(false), toggle_margin: 8, compose_margin: 85 }
    );
    assert_eq!(
        pane.position_changed(260, 700, false, false),
        PaneUpdate::Follow { set_toggle: Some(true), toggle_margin: 112, compose_margin: 642 }
    );
    assert_eq!(pane.toggled(true, 0), 260);
}

fn info(uid: u32) -> MessageInfo {
    MessageInfo {
        id: uid as i64,
        uid,
        folder_id: 1,
        message_id: None,
        subject: format!("m{}", uid),
        from: "a@b.c".to_string(),
        from_address: "a@b.c".to_string(),
        to: String::new(),
        cc: String::new(),
        date: String::new(),
        date_epoch: None,
        snippet: None,
        is_read: false,
        is_starred: false,
        has_attachments: false,
    }
}

#[test]
fn test_shown_message() {
    let mut l = MessageListState::new();
    l.set_messages(vec![info(4), info(9)]);
    let mut shown = ShownMessage::new();
    assert_eq!(shown.open(&l, 9).map(|m| m.subject), Some("m9".to_string()));
    assert!(shown.open(&l, 9).is_none());
    assert!(shown.open(&l, 77).is_none());
    assert!(!shown.removed(4));
    assert!(shown.removed(9));
    assert_eq!(shown.open(&l, 9).map(|m| m.uid), Some(9));
    shown.clear();
    assert_eq!(shown.open(&l, 9).map(|m| m.uid), Some(9));
}
