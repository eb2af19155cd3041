use northmail::dates::Today;
use northmail::listing::{
    dedup_messages, escape_markup, message_matches, message_matches_with_options, prepare_messages,
    row_labels, sort_messages, EmptyList, FilterEdit, FilterState, ListDisplay, MessageInfo, MessageListState,
};

fn msg(uid: u32, epoch: Option<i64>, subject: &str, from: &str) -> MessageInfo {
    MessageInfo {
        id: uid as i64 * 10,
        uid,
        folder_id: 7,
        message_id: None,
        subject: subject.to_string(),
        from: from.to_string(),
        from_address: String::new(),
        to: "team@example.com".to_string(),
        cc: String::new(),
        date: String::new(),
        date_epoch: epoch,
        snippet: None,
        is_read: false,
        is_starred: false,
        has_attachments: false,
    }
}

fn uids(v: &[MessageInfo]) -> Vec<u32> {
    v.iter().map(|m| m.uid).collect()
}

#[test]
fn newest_first_undated_ahead_stable_ties() {
    let v = vec![
        msg(1, Some(100), "a", "x"),
        msg(2, Some(300), "b", "x"),
        msg(3, None, "c", "x"),
        msg(4, Some(300), "d", "x"),
        msg(5, None, "e", "x"),
    ];
    let s = sort_messages(v);
    assert_eq!(uids(&s), vec![5, 3, 2, 4, 1]);
}

#[test]
fn dedup_keeps_first_occurrence() {
    let v = vec![msg(1, Some(1), "first", "x"), msg(2, Some(2), "b", "x"), msg(1, Some(3), "second", "x")];
    let d = dedup_messages(v);
    assert_eq!(uids(&d), vec![1, 2]);
    assert_eq!(d[0].subject, "first");
    let p = prepare_messages(vec![msg(1, Some(1), "a", "x"), msg(1, Some(9), "b", "x"), msg(2, Some(5), "c", "x")]);
    assert_eq!(uids(&p), vec![2, 1]);
}

#[test]
fn filters_and_search() {
    let mut m = msg(1, Some(1000), "Quarterly Report", "Alice <alice@corp.com>");
    m.snippet = Some("numbers inside".to_string());
    m.cc = "Bob@Corp.com".to_string();
    let mut st = FilterState::default();
    assert!(!st.is_active());
    assert!(message_matches(&st, "", &m));
    assert!(message_matches(&st, "REPORT", &m));
    assert!(message_matches(&st, "inside", &m));
    assert!(!message_matches(&st, "missing", &m));
    assert!(message_matches_with_options(&st, "missing", &m, true));
    st.from_contains = "ALICE".to_string();
    assert!(st.is_active());
    assert!(message_matches(&st, "", &m));
    st.to_cc_contains = "bob@".to_string();
    assert!(message_matches(&st, "", &m));
    st.date_after = Some(1001);
    assert!(!message_matches(&st, "", &m));
    st.date_after = Some(1000);
    st.date_before = Some(1000);
    assert!(message_matches(&st, "", &m));
    m.date_epoch = None;
    assert!(!message_matches(&st, "", &m));
    let mut st2 = FilterState::default();
    st2.unread_only = true;
    m.is_read = true;
    assert!(!message_matches(&st2, "", &m));
    st2.unread_only = false;
    st2.starred_only = true;
    assert!(!message_matches(&st2, "", &m));
    st2.starred_only = false;
    st2.has_attachments = true;
    assert!(!message_matches(&st2, "", &m));
}

#[test]
fn set_messages_reports_rows_or_placeholder() {
    let mut l = MessageListState::new();
    match l.set_messages(vec![]) {
        ListDisplay::Placeholder(k) => {
            assert_eq!(k, EmptyList::EmptyFolder);
            assert_eq!(k.title(), "Empty Folder");
            assert_eq!(k.description(), "There are no messages in this folder");
        },
        _ => panic!("expected a placeholder"),
    }
    l.search_query = "zzz".to_string();
    match l.set_messages(vec![msg(1, Some(1), "a", "x")]) {
        ListDisplay::Placeholder(k) => assert_eq!(k, EmptyList::NoResults),
        _ => panic!("expected no results"),
    }
    match l.set_search_results(vec![msg(1, Some(1), "a", "x")]) {
        ListDisplay::Rows(r) => assert_eq!(r, vec![0]),
        _ => panic!("search results skip the query"),
    }
    l.search_query = String::new();
    l.filter_state.starred_only = true;
    match l.set_messages(vec![msg(1, Some(1), "a", "x")]) {
        ListDisplay::Placeholder(k) => {
            assert_eq!(k, EmptyList::NoMatchingMessages);
            assert_eq!(k.title(), "No Matching Messages");
        },
        _ => panic!("expected no matching messages"),
    }
    l.filter_state.starred_only = false;
    match l.set_messages(vec![msg(1, Some(1), "a", "x"), msg(2, Some(2), "b", "x")]) {
        ListDisplay::Rows(r) => assert_eq!(r, vec![0, 1]),
        _ => panic!("expected rows"),
    }
    assert_eq!(uids(&l.messages), vec![2, 1]);
    assert!(!l.has_active_filter());
}

#[test]
fn clicks_select_rows() {
    let mut l = MessageListState::new();
    l.set_messages(vec![msg(1, Some(1), "a", "x"), msg(2, Some(2), "b", "x"), msg(3, Some(3), "c", "x")]);
    // rows: 3, 2, 1
    assert_eq!(l.apply_click(1, 3, false, false, false), Some(2));
    assert_eq!(l.selected_uids, vec![2]);
    assert_eq!(l.anchor_index, Some(1));
    assert_eq!(l.apply_click(0, 3, true, false, false), None);
    assert_eq!(l.selected_uids, vec![2, 3]);
    assert_eq!(l.apply_click(0, 3, true, false, true), None);
    assert_eq!(l.selected_uids, vec![2]);
    assert_eq!(l.apply_click(2, 3, false, true, false), None);
    assert_eq!(l.selected_uids, vec![3, 2, 1]);
    assert_eq!(l.anchor_index, Some(0));
    assert_eq!(l.apply_click(1, 3, false, true, false), None);
    assert_eq!(l.selected_uids, vec![3, 2]);
    assert_eq!(l.apply_click(5, 3, false, false, false), None);
    assert_eq!(l.selected_uids, vec![3, 2]);
    assert_eq!(l.selection_count(), 2);
}

#[test]
fn selection_feeds_bulk_actions() {
    let mut l = MessageListState::new();
    let mut a = msg(1, Some(1), "a", "x");
    a.folder_id = -3;
    l.set_messages(vec![a, msg(2, Some(2), "b", "x"), msg(3, Some(3), "c", "x")]);
    l.selected_uids = vec![1, 3];
    assert_eq!(uids(&l.selected_messages()), vec![3, 1]);
    assert_eq!(l.encode_bulk_data(), "3:30:7|1:10:-3");
    let (rows, restore) = l.rebuild_visible_rows();
    assert_eq!(rows, vec![0, 1, 2]);
    assert_eq!(restore, vec![0, 2]);
    l.remove_messages(&vec![3]);
    assert_eq!(uids(&l.messages), vec![2, 1]);
    assert_eq!(l.selected_uids, vec![1]);
}

#[test]
fn updates_and_appends() {
    let mut l = MessageListState::new();
    l.set_messages(vec![msg(1, Some(10), "a", "x"), msg(2, Some(20), "b", "x")]);
    l.update_message_read(1, true);
    l.update_message_starred(2, true);
    l.update_message_read(99, true);
    assert!(l.messages[1].is_read);
    assert!(l.messages[0].is_starred);
    l.append_new_messages(vec![msg(2, Some(99), "dup", "x"), msg(3, Some(15), "c", "x")]);
    assert_eq!(uids(&l.messages), vec![2, 3, 1]);
    assert_eq!(l.messages[0].subject, "b");
    l.append_new_messages(vec![msg(1, Some(1), "again", "x")]);
    assert_eq!(uids(&l.messages), vec![2, 3, 1]);
    l.is_loading_more = true;
    l.append_messages(vec![msg(4, Some(30), "d", "x")]);
    assert!(!l.is_loading_more);
    assert_eq!(uids(&l.messages), vec![4, 2, 3, 1]);
    l.remove_message(3);
    assert_eq!(uids(&l.messages), vec![4, 2, 1]);
    l.set_folder_context("acct", "INBOX");
    assert_eq!(l.current_account_id, "acct");
    assert_eq!(l.current_folder_path, "INBOX");
    l.search_query = "x".to_string();
    assert!(l.has_active_filter());
    l.clear_search();
    assert_eq!(l.search_query, "");
    l.set_can_load_more(true);
    assert!(l.can_load_more);
    l.set_total_count(12);
    assert_eq!(l.total_count, 12);
}

#[test]
fn markup_is_escaped() {
    assert_eq!(escape_markup("a & b <c> d"), "a &amp; b &lt;c&gt; d");
    assert_eq!(escape_markup("&lt;"), "&amp;lt;");
}

#[test]
fn row_shows_what_the_message_holds() {
    let mut m = msg(1, None, "", "A <a@x.y>");
    m.date = "Sat, 08 Feb 2025 14:30:45 +0000".to_string();
    m.snippet = Some("x < y".to_string());
    m.has_attachments = true;
    let today = Some(Today { year: 2025, month: 2, day: 8 });
    let r = row_labels(&m, today);
    assert_eq!(r.sender, "A &lt;a@x.y&gt;");
    assert!(r.bold_sender && r.unread_dot && !r.dim_subject);
    assert_eq!(r.date, "2:30 PM");
    assert_eq!(r.subject, "(No Subject)");
    assert_eq!(r.preview.as_deref(), Some("x &lt; y"));
    assert!(r.attachment_icon);
    assert_eq!(r.drag_subject, "(No Subject)");
    let mut long = msg(2, None, "This subject is definitely longer than forty characters", "Somebody With A Very Long Name");
    long.snippet = Some(String::new());
    let r2 = row_labels(&long, today);
    assert_eq!(r2.drag_subject, "This subject is definitely longer tha...");
    assert_eq!(r2.drag_from, "Somebody With A Very L...");
    assert!(r2.preview.is_none());
}

#[test]
fn filter_panel_edits() {
    let mut st = FilterState::default();
    st.apply_edit(FilterEdit::UnreadOnly(true));
    st.apply_edit(FilterEdit::FromContains("bob".to_string()));
    st.apply_edit(FilterEdit::DateAfter("2025-03".to_string()));
    st.apply_edit(FilterEdit::DateBefore("not a date".to_string()));
    assert!(st.unread_only);
    assert_eq!(st.from_contains, "bob");
    assert_eq!(st.date_after, Some(1740787200));
    assert_eq!(st.date_before, None);
    assert!(st.is_active());
    let mut l = MessageListState::new();
    l.filter_state = st.clone();
    let f = l.get_message_filter();
    assert!(f.unread_only && !f.starred_only);
    assert_eq!(f.from_contains, "bob");
    assert_eq!(f.date_after, Some(1740787200));
    st.apply_edit(FilterEdit::Clear);
    assert!(!st.is_active());
}

#[test]
fn test_folder_context_reads_back() {
    let mut l = MessageListState::new();
    l.set_folder_context("acct-1", "INBOX/Work");
    assert_eq!(l.folder_context(), ("acct-1".to_string(), "INBOX/Work".to_string()));
    l.show_loading();
    assert!(l.is_loading);
    assert_eq!(l.folder_context(), ("acct-1".to_string(), "INBOX/Work".to_string()));
}

#[test]
fn test_scroll_starts_one_page_load() {
    let mut l = MessageListState::new();
    assert!(!l.scrolled(true));
    l.set_can_load_more(true);
    assert!(!l.scrolled(false));
    assert!(l.scrolled(true));
    assert!(l.is_loading_more);
    assert!(!l.scrolled(true));
    l.finish_loading_more();
    assert!(l.scrolled(true));
}
