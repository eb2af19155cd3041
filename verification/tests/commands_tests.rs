use northmail::imap_commands::{command_line, ImapCommand};

#[test]
fn login_quotes_credentials() {
    let c = ImapCommand::Login { username: "me@x.org".to_string(), password: "p\"a\\ss".to_string() };
    assert_eq!(command_line("A0001", &c), "A0001 LOGIN \"me@x.org\" \"p\\\"a\\\\ss\"\r\n");
}

#[test]
fn folder_and_fetch_commands() {
    let s = |c: ImapCommand| command_line("A0002", &c);
    assert_eq!(s(ImapCommand::Select { folder: "INBOX".to_string() }), "A0002 SELECT \"INBOX\"\r\n");
    assert_eq!(
        s(ImapCommand::FetchHeaders { range: "1:50".to_string() }),
        "A0002 FETCH 1:50 (UID FLAGS ENVELOPE BODYSTRUCTURE)\r\n"
    );
    assert_eq!(
        s(ImapCommand::UidFetchHeaders { range: "10:*".to_string() }),
        "A0002 UID FETCH 10:* (UID FLAGS ENVELOPE BODYSTRUCTURE)\r\n"
    );
    assert_eq!(s(ImapCommand::UidFetchFlags { range: "1:*".to_string() }), "A0002 UID FETCH 1:* (UID FLAGS)\r\n");
    assert_eq!(s(ImapCommand::UidFetchBody { uid: 42 }), "A0002 UID FETCH 42 BODY.PEEK[]\r\n");
    assert_eq!(s(ImapCommand::List), "A0002 LIST \"\" \"*\"\r\n");
    assert_eq!(s(ImapCommand::Status { folder: "Sent".to_string() }), "A0002 STATUS \"Sent\" (MESSAGES UNSEEN)\r\n");
    assert_eq!(s(ImapCommand::Noop), "A0002 NOOP\r\n");
    assert_eq!(s(ImapCommand::Idle), "A0002 IDLE\r\n");
    assert_eq!(s(ImapCommand::Logout), "A0002 LOGOUT\r\n");
    assert_eq!(s(ImapCommand::AuthenticateXOAuth2 { encoded: "abc=".to_string() }), "A0002 AUTHENTICATE XOAUTH2 abc=\r\n");
}

#[test]
fn changing_commands() {
    let s = |c: ImapCommand| command_line("T1", &c);
    assert_eq!(
        s(ImapCommand::Append { folder: "Drafts".to_string(), flags: vec!["\\Draft".to_string(), "\\Seen".to_string()], size: 120 }),
        "T1 APPEND \"Drafts\" (\\Draft \\Seen) {120}\r\n"
    );
    assert_eq!(s(ImapCommand::Append { folder: "Sent".to_string(), flags: vec![], size: 0 }), "T1 APPEND \"Sent\" {0}\r\n");
    assert_eq!(
        s(ImapCommand::UidStore { uid: 7, flags: "\\Seen".to_string(), add: true }),
        "T1 UID STORE 7 +FLAGS (\\Seen)\r\n"
    );
    assert_eq!(
        s(ImapCommand::UidStore { uid: 7, flags: "\\Flagged".to_string(), add: false }),
        "T1 UID STORE 7 -FLAGS (\\Flagged)\r\n"
    );
    assert_eq!(s(ImapCommand::UidCopy { uid: 9, dest_folder: "Archive".to_string() }), "T1 UID COPY 9 \"Archive\"\r\n");
    assert_eq!(s(ImapCommand::Expunge), "T1 EXPUNGE\r\n");
    assert_eq!(s(ImapCommand::UidExpunge { uid: 3 }), "T1 UID EXPUNGE 3\r\n");
    assert_eq!(s(ImapCommand::StoreAllDeleted), "T1 STORE 1:* +FLAGS (\\Deleted)\r\n");
    assert_eq!(s(ImapCommand::Create { folder: "New".to_string() }), "T1 CREATE \"New\"\r\n");
    assert_eq!(
        s(ImapCommand::Rename { from: "A".to_string(), to: "B".to_string() }),
        "T1 RENAME \"A\" \"B\"\r\n"
    );
    assert_eq!(s(ImapCommand::Delete { folder: "Old".to_string() }), "T1 DELETE \"Old\"\r\n");
}
