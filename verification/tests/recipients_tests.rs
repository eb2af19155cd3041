use northmail::recipients::{
    chip_label, move_suggestion, suggestion_choice, typed_recipient, RecipientChips, RecipientField, SuggestionKey,
};

#[test]
fn test_chip_label_prefers_name() {
    assert_eq!(chip_label("Alice", "alice@example.com"), "Alice");
    assert_eq!(chip_label("", "alice@example.com"), "alice@example.com");
    assert_eq!(chip_label("alice@example.com", "alice@example.com"), "alice@example.com");
}

#[test]
fn test_add_recipient_rejects_duplicates_across_rows() {
    let mut chips = RecipientChips::new();
    assert_eq!(chips.add_recipient(RecipientField::To, "Alice", "alice@example.com"), Some("Alice".to_string()));
    assert_eq!(chips.add_recipient(RecipientField::Cc, "", "ALICE@Example.com"), None);
    assert_eq!(chips.add_recipient(RecipientField::Bcc, "Bob", "bob@example.com"), Some("Bob".to_string()));
    assert_eq!(chips.to, vec!["alice@example.com".to_string()]);
    assert!(chips.cc.is_empty());
    assert_eq!(chips.bcc, vec!["bob@example.com".to_string()]);
}

#[test]
fn test_remove_recipient_then_add_again() {
    let mut chips = RecipientChips::new();
    chips.add_recipient(RecipientField::Cc, "", "carol@example.com");
    chips.add_recipient(RecipientField::Cc, "", "dave@example.com");
    chips.remove_recipient(RecipientField::Cc, "carol@example.com");
    assert_eq!(chips.cc, vec!["dave@example.com".to_string()]);
    assert_eq!(chips.add_recipient(RecipientField::To, "Carol", "carol@example.com"), Some("Carol".to_string()));
    assert_eq!(chips.to, vec!["carol@example.com".to_string()]);
}

#[test]
fn test_remove_is_exact_match() {
    let mut chips = RecipientChips::new();
    chips.add_recipient(RecipientField::To, "", "Erin@example.com");
    chips.remove_recipient(RecipientField::To, "erin@example.com");
    assert_eq!(chips.to, vec!["Erin@example.com".to_string()]);
}

#[test]
fn test_typed_recipient_trims() {
    assert_eq!(typed_recipient("  frank@example.com \n"), Some("frank@example.com".to_string()));
    assert_eq!(typed_recipient("   "), None);
}

#[test]
fn test_suggestion_choice_splits_at_tab() {
    assert_eq!(suggestion_choice("Grace Hopper\tgrace@example.com"), ("Grace Hopper".to_string(), "grace@example.com".to_string()));
    assert_eq!(suggestion_choice("heidi@example.com"), (String::new(), "heidi@example.com".to_string()));
    assert_eq!(suggestion_choice("a\tb\tc"), ("a".to_string(), "b\tc".to_string()));
}

#[test]
fn test_move_suggestion_keys() {
    assert_eq!(move_suggestion(None, 3, SuggestionKey::Down), Some(0));
    assert_eq!(move_suggestion(None, 0, SuggestionKey::Down), None);
    assert_eq!(move_suggestion(Some(1), 3, SuggestionKey::Down), Some(2));
    assert_eq!(move_suggestion(Some(2), 3, SuggestionKey::Down), Some(2));
    assert_eq!(move_suggestion(Some(2), 3, SuggestionKey::Up), Some(1));
    assert_eq!(move_suggestion(Some(0), 3, SuggestionKey::Up), None);
    assert_eq!(move_suggestion(None, 3, SuggestionKey::Up), None);
    assert_eq!(move_suggestion(Some(1), 3, SuggestionKey::Escape), None);
}
