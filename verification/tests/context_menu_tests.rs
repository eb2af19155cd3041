use northmail::context_menu::{bulk_context_menu, single_context_menu, MenuAction, MenuEntry};
use northmail::listing::{MessageInfo, MessageListState};

fn info(uid: u32, is_read: bool, is_starred: bool) -> MessageInfo {
    MessageInfo {
        id: uid as i64,
        uid,
        folder_id: 3,
        message_id: None,
        subject: "Status".to_string(),
        from: "Ann <ann@example.com>".to_string(),
        from_address: "ann@example.com".to_string(),
        to: "team@example.com".to_string(),
        cc: String::new(),
        date: String::new(),
        date_epoch: None,
        snippet: None,
        is_read,
        is_starred,
        has_attachments: false,
    }
}

fn labels(v: &[MenuEntry]) -> Vec<String> {
    v.iter()
        .map(|e| match e {
            MenuEntry::Item { label, .. } => label.clone(),
            MenuEntry::Separator => "-".to_string(),
        })
        .collect()
}

fn actions(v: &[MenuEntry]) -> Vec<MenuAction> {
    v.iter()
        .filter_map(|e| match e {
            MenuEntry::Item { action, .. } => Some(*action),
            MenuEntry::Separator => None,
        })
        .collect()
}

#[test]
fn test_single_menu_offers_opposite_state() {
    let m = single_context_menu(true, false);
    assert_eq!(
        labels(&m),
        vec!["Mark as Unread", "Star", "-", "Reply", "Reply All", "Forward", "-", "Archive", "Move to Trash", "Mark as Spam"]
    );
    assert_eq!(actions(&m)[0], MenuAction::MarkRead(false));
    assert_eq!(actions(&m)[1], MenuAction::Star(true));
    let m = single_context_menu(false, true);
    assert_eq!(labels(&m)[0], "Mark as Read");
    assert_eq!(labels(&m)[1], "Unstar");
    assert_eq!(actions(&m)[1], MenuAction::Star(false));
}

#[test]
fn test_bulk_menu_counts() {
    let m = bulk_context_menu(3);
    assert_eq!(
        labels(&m),
        vec![
            "Mark 3 as Read",
            "Mark 3 as Unread",
            "Star 3",
            "Unstar 3",
            "-",
            "Archive 3 Messages",
            "Move 3 to Trash",
            "Mark 3 as Spam"
        ]
    );
    assert_eq!(actions(&m)[6], MenuAction::BulkSpam);
}

#[test]
fn test_context_menu_choice() {
    let mut l = MessageListState::new();
    l.set_messages(vec![info(1, false, false), info(2, true, false), info(3, false, false)]);
    l.selected_uids = vec![1, 2];
    assert_eq!(labels(&l.context_menu(&info(1, false, false)))[0], "Mark 2 as Read");
    assert_eq!(labels(&l.context_menu(&info(3, false, false)))[0], "Mark as Read");
    l.selected_uids = vec![2];
    assert_eq!(labels(&l.context_menu(&info(2, true, false)))[0], "Mark as Unread");
}
