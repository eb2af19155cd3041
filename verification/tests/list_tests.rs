use northmail::folder::FolderType;
use northmail::imap_list::{list_line_ok_exec, parse_list_response};

#[test]
fn test_parse_list_gmail_inbox() {
    let line = r#"* LIST (\HasNoChildren) "/" "INBOX""#;
    let folder = parse_list_response(line).unwrap();
    assert_eq!(folder.full_path, "INBOX");
    assert_eq!(folder.name, "INBOX");
    assert_eq!(folder.delimiter, Some('/'));
    assert_eq!(folder.folder_type, FolderType::Inbox);
}

#[test]
fn test_parse_list_gmail_nested() {
    let line = r#"* LIST (\HasNoChildren) "/" "[Gmail]/Sent Mail""#;
    let folder = parse_list_response(line).unwrap();
    assert_eq!(folder.full_path, "[Gmail]/Sent Mail");
    assert_eq!(folder.name, "Sent Mail");
    assert_eq!(folder.folder_type, FolderType::Sent);
}

#[test]
fn test_parse_list_outlook_sent_items() {
    let line = r#"* LIST (\HasNoChildren \Sent) "/" "Sent Items""#;
    let folder = parse_list_response(line).unwrap();
    assert_eq!(folder.full_path, "Sent Items");
    assert_eq!(folder.name, "Sent Items");
    assert_eq!(folder.folder_type, FolderType::Sent);
}

#[test]
fn test_parse_list_outlook_junk() {
    let line = r#"* LIST (\HasNoChildren \Junk) "/" "Junk Email""#;
    let folder = parse_list_response(line).unwrap();
    assert_eq!(folder.full_path, "Junk Email");
    assert_eq!(folder.name, "Junk Email");
    assert_eq!(folder.folder_type, FolderType::Spam);
}

#[test]
fn test_parse_list_noselect_skipped() {
    let line = r#"* LIST (\Noselect \HasChildren) "/" "[Gmail]""#;
    assert!(parse_list_response(line).is_none());
}

#[test]
fn test_parse_list_root_slash_skipped() {
    // Outlook can return the root delimiter as a folder
    let line = r#"* LIST (\HasNoChildren) "/" "/""#;
    assert!(parse_list_response(line).is_none());
}

#[test]
fn test_parse_list_empty_name_skipped() {
    let line = r#"* LIST (\Noselect) "/" """#;
    // \Noselect should be filtered
    assert!(parse_list_response(line).is_none());
}

#[test]
fn test_parse_list_nil_delimiter() {
    let line = r#"* LIST (\HasNoChildren) NIL "INBOX""#;
    let folder = parse_list_response(line).unwrap();
    assert_eq!(folder.full_path, "INBOX");
    assert_eq!(folder.delimiter, None);
}

#[test]
fn test_parse_list_dot_delimiter() {
    // Some servers use "." as delimiter
    let line = r#"* LIST (\HasNoChildren) "." "INBOX.Sent""#;
    let folder = parse_list_response(line).unwrap();
    assert_eq!(folder.full_path, "INBOX.Sent");
    assert_eq!(folder.name, "Sent");
    assert_eq!(folder.delimiter, Some('.'));
}

#[test]
fn list_attributes_and_escapes() {
    let line = "* LIST (\\HasNoChildren \\Trash) \"/\" \"Old \\\"Stuff\\\"\"\r\n";
    assert!(list_line_ok_exec(line));
    let folder = parse_list_response(line).unwrap();
    assert_eq!(folder.attributes, vec!["\\HasNoChildren".to_string(), "\\Trash".to_string()]);
    assert_eq!(folder.full_path, "Old \\\"Stuff\\\"");
    assert_eq!(folder.folder_type, FolderType::Trash);
    assert_eq!(folder.uidvalidity, None);
}

#[test]
fn list_unquoted_name_and_other_lines() {
    let folder = parse_list_response("* LIST () \"/\" Archive/2024\r\n").unwrap();
    assert_eq!(folder.full_path, "Archive/2024");
    assert_eq!(folder.name, "2024");
    assert_eq!(folder.folder_type, FolderType::Archive);
    assert!(parse_list_response("* LSUB () \"/\" x").is_none());
    assert!(parse_list_response("* LIST no parens").is_none());
    assert!(!list_line_ok_exec("* LIST ) (  \"/\" x"));
    assert!(!list_line_ok_exec("* LIST () \"/\" \"abc\\"));
}
