use northmail::sidebar::{
    decode_row_name, encode_row_name, format_number, total_unread, AccountFolders, FolderInfo, SidebarState,
};

fn folder(path: &str) -> FolderInfo {
    FolderInfo {
        name: path.to_string(),
        full_path: path.to_string(),
        icon_name: "folder-symbolic".to_string(),
        unread_count: None,
        is_header: false,
    }
}

fn account(id: &str, unread: Option<u32>, folders: &[&str]) -> AccountFolders {
    AccountFolders {
        id: id.to_string(),
        email: format!("{}@example.com", id),
        inbox_unread: unread,
        folders: folders.iter().map(|p| folder(p)).collect(),
    }
}

#[test]
fn row_names_round_trip() {
    let n = encode_row_name(3, "folder", "acc", "Work:Projects");
    assert_eq!(n, "3:folder:acc:Work:Projects");
    let (s, k, a, f) = decode_row_name(&n);
    assert_eq!((s, k.as_str(), a.as_str(), f.as_str()), (3, "folder", "acc", "Work:Projects"));
    let (s2, k2, a2, f2) = decode_row_name("x:inbox");
    assert_eq!((s2, k2.as_str(), a2.as_str(), f2.as_str()), (0, "inbox", "", ""));
    assert_eq!(encode_row_name(0, "unified", "", ""), "0:unified::");
}

#[test]
fn numbers_get_thousands_separators() {
    assert_eq!(format_number(0), "0");
    assert_eq!(format_number(999), "999");
    assert_eq!(format_number(1000), "1,000");
    assert_eq!(format_number(1234567), "1,234,567");
    assert_eq!(format_number(u32::MAX), "4,294,967,295");
}

#[test]
fn accounts_lay_out_rows() {
    let mut sb = SidebarState::new();
    let accs = vec![account("a", Some(3), &["Sent", "Trash"]), account("b", None, &["Notes"])];
    assert_eq!(total_unread(&accs), 3);
    let saved = vec![("b".to_string(), true)];
    let found = sb.set_accounts(accs, &saved, Some("2:folder:a:Trash"));
    assert_eq!(found, Some((false, 2)));
    let inbox: Vec<&str> = sb.inbox_rows.iter().map(|r| r.name.as_str()).collect();
    assert_eq!(inbox, vec!["0:unified::", "1:inbox:a:", "1:inbox:b:"]);
    let folders: Vec<(&str, bool)> = sb.folder_rows.iter().map(|r| (r.name.as_str(), r.visible)).collect();
    assert_eq!(folders, vec![
        ("2:header:a:", true),
        ("2:folder:a:Sent", false),
        ("2:folder:a:Trash", false),
        ("3:header:b:", true),
        ("3:folder:b:Notes", true),
    ]);
    assert_eq!(sb.select_unified_inbox(), Some(0));
}

#[test]
fn toggling_and_selecting() {
    let mut sb = SidebarState::new();
    sb.set_accounts(vec![account("a", None, &["Sent"])], &vec![], None);
    assert!(sb.toggle_account_expansion("a"));
    assert!(sb.folder_rows[1].visible);
    assert!(!sb.toggle_account_expansion("a"));
    assert!(!sb.folder_rows[1].visible);
    assert_eq!(sb.select_folder("a", "inbox"), Some((true, 1)));
    assert_eq!(sb.select_folder("a", "Sent"), Some((false, 1)));
    assert!(sb.folder_rows[1].visible);
    assert_eq!(sb.select_folder("a", "Missing"), None);
    let found = sb.set_accounts(vec![], &vec![], Some("0:unified::"));
    assert_eq!(found, None);
    assert!(sb.inbox_rows.is_empty());
}
