use northmail::dragdrop::{encode_drag_data, parse_drop_data};
use northmail::listing::MessageInfo;

fn msg(uid: u32, id: i64) -> MessageInfo {
    MessageInfo {
        id,
        uid,
        folder_id: 0,
        message_id: None,
        subject: String::new(),
        from: String::new(),
        from_address: String::new(),
        to: String::new(),
        cc: String::new(),
        date: String::new(),
        date_epoch: None,
        snippet: None,
        is_read: false,
        is_starred: false,
        has_attachments: false,
    }
}

#[test]
fn single_drag_round_trips() {
    let data = encode_drag_data(42, 7, &[42], &[msg(42, 7)], "acct-1", "Archive:2024");
    assert_eq!(data, "42:7:acct-1:Archive:2024");
    let d = parse_drop_data(&data);
    assert_eq!(d.len(), 1);
    assert_eq!(d[0].uid, 42);
    assert_eq!(d[0].message_id, 7);
    assert_eq!(d[0].source_account_id, "acct-1");
    assert_eq!(d[0].source_folder_path, "Archive:2024");
}

#[test]
fn multi_drag_round_trips() {
    let ms = vec![msg(1, 10), msg(2, -20), msg(3, 30)];
    let data = encode_drag_data(3, 30, &[3, 1], &ms, "a", "INBOX");
    assert_eq!(data, "multi|1:10:a:INBOX|3:30:a:INBOX");
    let d = parse_drop_data(&data);
    assert_eq!(d.iter().map(|x| x.uid).collect::<Vec<_>>(), vec![1, 3]);
    assert_eq!(d[1].message_id, 30);
    assert_eq!(d[0].source_folder_path, "INBOX");
}

#[test]
fn a_lone_selected_row_drags_alone() {
    let ms = vec![msg(1, 10), msg(2, 20)];
    assert_eq!(encode_drag_data(2, 20, &[1, 2, 3], &ms, "a", "f"), "multi|1:10:a:f|2:20:a:f");
    assert_eq!(encode_drag_data(2, 20, &[1, 3], &ms, "a", "f"), "2:20:a:f");
    assert_eq!(encode_drag_data(2, -5, &[2], &ms, "a", "f"), "2:-5:a:f");
}

#[test]
fn unreadable_drops_are_skipped() {
    assert!(parse_drop_data("").is_empty());
    assert!(parse_drop_data("x:1:a:b").is_empty());
    assert!(parse_drop_data("1:2:a").is_empty());
    let d = parse_drop_data("multi|bad|5:6:acc:f|7:x:acc:f");
    assert_eq!(d.len(), 1);
    assert_eq!(d[0].uid, 5);
    assert!(parse_drop_data("multi|").is_empty());
}
