use northmail::dates::{format_date, parse_date_to_epoch, try_parse_email_date, Today};

const TODAY: Option<Today> = Some(Today { year: 2025, month: 2, day: 8 });

#[test]
fn todays_messages_show_the_time() {
    assert_eq!(try_parse_email_date("Sat, 08 Feb 2025 14:30:45 +0000", TODAY).as_deref(), Some("2:30 PM"));
    assert_eq!(try_parse_email_date("Sat, 08 Feb 2025 00:05:00 +0000", TODAY).as_deref(), Some("12:05 AM"));
    assert_eq!(try_parse_email_date("Sat, 08 feb 2025 12:00 +0000", TODAY).as_deref(), Some("12:00 PM"));
}

#[test]
fn older_messages_show_dates() {
    assert_eq!(try_parse_email_date("Fri, 07 Feb 2025 09:00:00 +0000", TODAY).as_deref(), Some("Yesterday"));
    assert_eq!(try_parse_email_date("Tue, 14 Jan 2025 09:00:00 +0000", TODAY).as_deref(), Some("Jan 14"));
    assert_eq!(try_parse_email_date("Wed, 25 Dec 2024 09:00:00 +0000", TODAY).as_deref(), Some("12/25/24"));
    assert_eq!(try_parse_email_date("Wed, 25 Dec 2005 09:00:00 +0000", TODAY).as_deref(), Some("12/25/5"));
}

#[test]
fn unreadable_headers_fall_back() {
    assert_eq!(try_parse_email_date("yesterday", TODAY), None);
    assert_eq!(try_parse_email_date("Sat, 08 Foo 2025 14:30:45 +0000", TODAY), None);
    assert_eq!(try_parse_email_date("Sat, 08 Feb 2025 14:30:45 +0000", None), None);
    assert_eq!(format_date("Sat, 08 Feb 2025 14:30:45 +0000", None), "14:30");
    assert_eq!(format_date("  2025-02-08 +0000", TODAY), "2025-02-08");
    assert_eq!(format_date("a very long unparseable date text", TODAY), "a very long unpa");
    assert_eq!(format_date("short", TODAY), "short");
}

#[test]
fn typed_dates_become_epochs() {
    assert_eq!(parse_date_to_epoch("2025-03-15"), Some(1741996800));
    assert_eq!(parse_date_to_epoch(" 2025-03 "), Some(1740787200));
    assert_eq!(parse_date_to_epoch("2025"), Some(1735689600));
    assert_eq!(parse_date_to_epoch("2025-"), Some(1735689600));
    assert_eq!(parse_date_to_epoch("1970"), Some(0));
    assert_eq!(parse_date_to_epoch("2024-02-29"), Some(1709164800));
    assert_eq!(parse_date_to_epoch("2100-12-31"), Some(4133894400));
    assert_eq!(parse_date_to_epoch("2025-x"), Some(1735689600));
}

#[test]
fn typed_dates_out_of_range() {
    assert_eq!(parse_date_to_epoch(""), None);
    assert_eq!(parse_date_to_epoch("   "), None);
    assert_eq!(parse_date_to_epoch("1969"), None);
    assert_eq!(parse_date_to_epoch("2101"), None);
    assert_eq!(parse_date_to_epoch("2025-13"), None);
    assert_eq!(parse_date_to_epoch("2025-02-30"), None);
    assert_eq!(parse_date_to_epoch("2023-02-29"), None);
    assert_eq!(parse_date_to_epoch("abc"), None);
}
