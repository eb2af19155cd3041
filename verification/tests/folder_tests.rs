use northmail::folder::{Folder, FolderType};

#[test]
fn test_folder_type_detection() {
    // Special-use attributes
    assert_eq!(
        FolderType::from_attributes_and_name(&["\\Sent".to_string()], "Sent"),
        FolderType::Sent
    );

    // Name-based for Gmail
    assert_eq!(
        FolderType::from_attributes_and_name(&[], "[Gmail]/Sent Mail"),
        FolderType::Sent
    );

    assert_eq!(
        FolderType::from_attributes_and_name(&[], "INBOX"),
        FolderType::Inbox
    );
}

#[test]
fn test_deduplication() {
    let mut folders = vec![
        Folder::new("Trash".into(), "Trash".into(), Some('/'), vec!["\\Trash".into()]),
        Folder::new("Deleted Items".into(), "Deleted Items".into(), Some('/'), vec![]),
        Folder::new("Deleted Messages".into(), "Deleted Messages".into(), Some('/'), vec![]),
    ];
    assert_eq!(folders[0].folder_type, FolderType::Trash);
    assert_eq!(folders[1].folder_type, FolderType::Trash); // name-based
    assert_eq!(folders[2].folder_type, FolderType::Trash); // name-based

    FolderType::deduplicate_folder_types(&mut folders);

    assert_eq!(folders[0].folder_type, FolderType::Trash); // attribute — kept
    assert_eq!(folders[1].folder_type, FolderType::Other); // name-only — downgraded
    assert_eq!(folders[2].folder_type, FolderType::Other); // name-only — downgraded
}

#[test]
fn test_deduplication_no_attributes() {
    // When no folder has attributes, keep only the first per type
    let mut folders = vec![
        Folder::new("Sent".into(), "Sent".into(), Some('/'), vec![]),
        Folder::new("Sent Items".into(), "Sent Items".into(), Some('/'), vec![]),
        Folder::new("Sent Messages".into(), "Sent Messages".into(), Some('/'), vec![]),
        Folder::new("Trash".into(), "Trash".into(), Some('/'), vec![]),
        Folder::new("Deleted Items".into(), "Deleted Items".into(), Some('/'), vec![]),
    ];

    FolderType::deduplicate_folder_types(&mut folders);

    assert_eq!(folders[0].folder_type, FolderType::Sent); // first Sent — kept
    assert_eq!(folders[1].folder_type, FolderType::Other); // duplicate — downgraded
    assert_eq!(folders[2].folder_type, FolderType::Other); // duplicate — downgraded
    assert_eq!(folders[3].folder_type, FolderType::Trash); // first Trash — kept
    assert_eq!(folders[4].folder_type, FolderType::Other); // duplicate — downgraded
}

#[test]
fn attributes_match_without_backslash_and_case() {
    assert_eq!(FolderType::from_attributes(&["TRASH".to_string()]), Some(FolderType::Trash));
    assert_eq!(FolderType::from_attributes(&["\\\\Junk".to_string()]), Some(FolderType::Spam));
    assert_eq!(FolderType::from_attributes(&["\\All".to_string()]), Some(FolderType::Archive));
    assert_eq!(FolderType::from_attributes(&["\\Archive".to_string()]), Some(FolderType::Archive));
    assert_eq!(FolderType::from_attributes(&["\\Drafts".to_string()]), Some(FolderType::Drafts));
    assert_eq!(FolderType::from_attributes(&["\\Inbox".to_string()]), Some(FolderType::Inbox));
    assert_eq!(FolderType::from_attributes(&["\\HasNoChildren".to_string()]), None);
    assert_eq!(FolderType::from_attributes(&[]), None);
}

#[test]
fn first_matching_attribute_wins() {
    let attrs = vec!["\\HasNoChildren".to_string(), "\\Sent".to_string(), "\\Trash".to_string()];
    assert_eq!(FolderType::from_attributes(&attrs), Some(FolderType::Sent));
    // attributes take precedence over the name
    assert_eq!(FolderType::from_attributes_and_name(&attrs, "Trash"), FolderType::Sent);
}

#[test]
fn name_detection_covers_every_kind() {
    assert_eq!(FolderType::from_name("inbox"), FolderType::Inbox);
    assert_eq!(FolderType::from_name("INBOX.Sent"), FolderType::Sent);
    assert_eq!(FolderType::from_name("Drafts"), FolderType::Drafts);
    assert_eq!(FolderType::from_name("Recycle Bin"), FolderType::Trash);
    assert_eq!(FolderType::from_name("Junk E-mail"), FolderType::Spam);
    assert_eq!(FolderType::from_name("[Gmail]/All Mail"), FolderType::Archive);
    assert_eq!(FolderType::from_name("Receipts"), FolderType::Other);
    // "inbox" only as the whole name
    assert_eq!(FolderType::from_name("Inbox Zero"), FolderType::Other);
}

#[test]
fn dedup_keeps_inbox_and_is_idempotent() {
    let mut folders = vec![
        Folder::new("INBOX".into(), "INBOX".into(), Some('/'), vec![]),
        Folder::new("Archive".into(), "Archive".into(), Some('/'), vec![]),
        Folder::new("All Mail".into(), "All Mail".into(), Some('/'), vec!["\\All".into()]),
        Folder::new("Old Archive".into(), "Old Archive".into(), Some('/'), vec![]),
    ];
    FolderType::deduplicate_folder_types(&mut folders);
    let first: Vec<FolderType> = folders.iter().map(|f| f.folder_type.clone()).collect();
    assert_eq!(
        first,
        vec![FolderType::Inbox, FolderType::Other, FolderType::Archive, FolderType::Other]
    );
    FolderType::deduplicate_folder_types(&mut folders);
    let second: Vec<FolderType> = folders.iter().map(|f| f.folder_type.clone()).collect();
    assert_eq!(first, second);
}

#[test]
fn selectable_and_children_flags() {
    let f = Folder::new("[Gmail]".into(), "[Gmail]".into(), Some('/'), vec!["\\NoSelect".into(), "\\HasChildren".into()]);
    assert!(!f.is_selectable());
    assert!(f.has_children());
    let g = Folder::new("Work".into(), "Work".into(), Some('/'), vec!["\\HasNoChildren".into()]);
    assert!(g.is_selectable());
    assert!(!g.has_children());
    let h = Folder::new("Gone".into(), "Gone".into(), None, vec!["\\NonExistent".into()]);
    assert!(!h.is_selectable());
    assert_eq!(h.folder_type, FolderType::Other);
    assert_eq!(h.uidvalidity, None);
    assert_eq!(h.message_count, None);
}
