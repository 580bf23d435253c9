use edisch::{
    collect_items, column_widths, connection_settings, prepare_items, ChannelFilterArgs,
    ChannelItem, ChannelKind, ChannelRecord, ConnectionArgs, Diff, Error, TextEditableItem,
};

fn record(id: u64, name: &str, kind: ChannelKind, parent_id: Option<u64>, position: u16) -> ChannelRecord {
    ChannelRecord {
        id,
        name: name.to_string(),
        kind,
        parent_id,
        position,
    }
}

fn all_kinds() -> ChannelFilterArgs {
    ChannelFilterArgs {
        all: true,
        ..Default::default()
    }
}

fn item(kind: ChannelKind, name: &str) -> ChannelItem {
    ChannelItem {
        id: 5,
        name: name.to_string(),
        kind,
        parent_id: None,
        position: 0,
        parent_name: None,
        category_position: 0,
    }
}

#[test]
fn listing_puts_loose_channels_then_category_then_text_then_voice() {
    let channels = vec![
        record(40, "lounge", ChannelKind::Voice, Some(20), 0),
        record(30, "chat", ChannelKind::Text, Some(20), 5),
        record(20, "games", ChannelKind::Category, None, 1),
        record(10, "welcome", ChannelKind::Text, None, 3),
    ];
    let items = prepare_items(&channels, &all_kinds());
    let ids: Vec<u64> = items.iter().map(|i| i.id).collect();
    assert_eq!(ids, vec![10, 20, 30, 40]);
}

#[test]
fn listing_orders_categories_by_position() {
    let channels = vec![
        record(1, "second", ChannelKind::Category, None, 2),
        record(2, "first", ChannelKind::Category, None, 1),
        record(3, "in-second", ChannelKind::Text, Some(1), 0),
        record(4, "in-first", ChannelKind::Text, Some(2), 0),
    ];
    let items = prepare_items(&channels, &all_kinds());
    let ids: Vec<u64> = items.iter().map(|i| i.id).collect();
    assert_eq!(ids, vec![2, 4, 1, 3]);
}

#[test]
fn listing_orders_siblings_by_position() {
    let channels = vec![
        record(1, "c", ChannelKind::Text, Some(9), 2),
        record(2, "a", ChannelKind::Text, Some(9), 0),
        record(3, "b", ChannelKind::Text, Some(9), 1),
        record(9, "cat", ChannelKind::Category, None, 0),
    ];
    let items = prepare_items(&channels, &all_kinds());
    let ids: Vec<u64> = items.iter().map(|i| i.id).collect();
    assert_eq!(ids, vec![9, 2, 3, 1]);
}

#[test]
fn items_take_parent_name_and_position() {
    let channels = vec![
        record(20, "games", ChannelKind::Category, None, 7),
        record(30, "chat", ChannelKind::Text, Some(20), 5),
        record(31, "orphan", ChannelKind::Text, Some(99), 4),
    ];
    let items = collect_items(&channels, &all_kinds());
    assert_eq!(items.len(), 3);
    assert_eq!(items[1].parent_name.as_deref(), Some("games"));
    assert_eq!(items[1].category_position, 7);
    assert_eq!(items[2].parent_name, None);
    assert_eq!(items[2].category_position, 4);
}

#[test]
fn filter_keeps_only_chosen_kinds() {
    let channels = vec![
        record(1, "a", ChannelKind::Text, None, 0),
        record(2, "b", ChannelKind::Voice, None, 1),
        record(3, "c", ChannelKind::Category, None, 2),
        record(4, "d", ChannelKind::Other, None, 3),
    ];
    let filter = ChannelFilterArgs {
        voice: true,
        category: true,
        ..Default::default()
    };
    let items = collect_items(&channels, &filter);
    let ids: Vec<u64> = items.iter().map(|i| i.id).collect();
    assert_eq!(ids, vec![2, 3]);
    let everything = collect_items(&channels, &all_kinds());
    assert_eq!(everything.len(), 4);
}

#[test]
fn filter_with_nothing_chosen_is_none() {
    assert!(ChannelFilterArgs::default().none());
    let one = ChannelFilterArgs {
        news: true,
        ..Default::default()
    };
    assert!(!one.none());
    assert!(one.admits(ChannelKind::News));
    assert!(!one.admits(ChannelKind::Forum));
    assert!(all_kinds().admits(ChannelKind::Other));
}

#[test]
fn comment_names_kind_category_and_id() {
    let mut c = item(ChannelKind::Voice, "lounge");
    c.id = 1234567890;
    c.parent_id = Some(20);
    c.parent_name = Some("games".to_string());
    assert_eq!(c.comment(), "\u{1F50A} in games (1234567890)");
    let cat = item(ChannelKind::Category, "games");
    assert_eq!(cat.comment(), "\u{1F4C1} (5)");
    assert_eq!(item(ChannelKind::Other, "x").comment(), "\u{2753} (5)");
}

#[test]
fn content_is_the_name() {
    assert_eq!(item(ChannelKind::Text, "general").content(), "general");
}

#[test]
fn name_length_is_counted_in_characters() {
    let c = item(ChannelKind::Text, "general");
    assert!(c.validate("ab").is_ok());
    assert!(c.validate("a").is_err());
    assert!(c.validate("").is_err());
    assert!(c.validate(&"a".repeat(100)).is_ok());
    assert!(c.validate(&"a".repeat(101)).is_err());
    // Two characters, six bytes.
    assert!(c.validate("\u{65E5}\u{672C}").is_ok());
}

#[test]
fn name_characters_follow_the_kind() {
    let text = item(ChannelKind::Text, "general");
    let category = item(ChannelKind::Category, "games");
    assert!(text.validate("dev_ops-2").is_ok());
    assert!(text.validate("two words").is_err());
    assert!(category.validate("Two Words").is_ok());
    assert!(text.validate("hello!").is_err());
    match text.validate("a--b") {
        Err(Error::InvalidChannelName { name, message }) => {
            assert_eq!(name, "a--b");
            assert_eq!(message, "Contains characters or patterns that cannot be used");
        }
        _ => panic!("double hyphen accepted"),
    }
}

#[test]
fn column_widths_are_the_widest_entries() {
    let diffs = vec![
        Diff { old: "abc".to_string(), new: "x".to_string(), item: 1u8 },
        Diff { old: "a".to_string(), new: "\u{65E5}\u{672C}".to_string(), item: 2u8 },
    ];
    assert_eq!(column_widths(&diffs), (3, 4));
    let none: Vec<Diff<u8>> = Vec::new();
    assert_eq!(column_widths(&none), (0, 0));
}

fn conn(token: Option<&str>, guild_id: Option<u64>) -> ConnectionArgs {
    ConnectionArgs {
        token: token.map(|t| t.to_string()),
        guild_id,
    }
}

#[test]
fn settings_prefer_arguments() {
    let (g, t) = connection_settings(
        &conn(Some("tok"), Some(7)),
        Some("8".to_string()),
        Some("env".to_string()),
    )
    .unwrap();
    assert_eq!(g, 7);
    assert_eq!(t, "tok");
}

#[test]
fn settings_fall_back_to_environment() {
    let (g, t) = connection_settings(
        &conn(None, None),
        Some("+123".to_string()),
        Some("env".to_string()),
    )
    .unwrap();
    assert_eq!(g, 123);
    assert_eq!(t, "env");
}

#[test]
fn settings_report_missing_and_unreadable_values() {
    match connection_settings(&conn(Some("tok"), None), None, None) {
        Err(Error::MissingArgument(m)) => assert_eq!(m, "GUILD_ID"),
        other => panic!("unexpected: {:?}", other),
    }
    match connection_settings(&conn(Some("tok"), None), Some("12x".to_string()), None) {
        Err(Error::ParseArgument(m)) => assert_eq!(m, "GUILD_ID"),
        other => panic!("unexpected: {:?}", other),
    }
    match connection_settings(&conn(None, Some(1)), None, Some(String::new())) {
        Err(Error::MissingArgument(m)) => assert_eq!(m, "DISCORD_TOKEN"),
        other => panic!("unexpected: {:?}", other),
    }
    assert!(connection_settings(&conn(None, None), Some("18446744073709551616".to_string()), Some("t".to_string())).is_err());
}
