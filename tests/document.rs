use edisch::{ChannelItem, ChannelKind, Editor, Error};

fn text_channel(id: u64, name: &str) -> ChannelItem {
    ChannelItem {
        id,
        name: name.to_string(),
        kind: ChannelKind::Text,
        parent_id: None,
        position: 0,
        parent_name: None,
        category_position: 0,
    }
}

fn pair() -> Vec<ChannelItem> {
    vec![text_channel(1, "general"), text_channel(2, "random")]
}

#[test]
fn document_has_one_line_per_item_with_comment() {
    let editor = Editor::new(pair()).unwrap();
    assert_eq!(
        editor.document(),
        "general\t\u{1F4DD} (1)\nrandom\t\u{1F4DD} (2)"
    );
}

#[test]
fn unedited_document_gives_no_changes() {
    let mut editor = Editor::new(pair()).unwrap();
    let text = format!("{}\n", editor.document());
    editor.edit(&text).unwrap();
    let diffs = editor.into_diffs().unwrap();
    assert!(diffs.is_empty());
}

#[test]
fn unedited_document_without_final_newline_gives_no_changes() {
    let mut editor = Editor::new(pair()).unwrap();
    let text = editor.document();
    editor.edit(&text).unwrap();
    assert!(editor.into_diffs().unwrap().is_empty());
}

#[test]
fn extra_line_is_an_item_count_mismatch() {
    let mut editor = Editor::new(pair()).unwrap();
    match editor.edit("general\nrandom\nthird\n") {
        Err(Error::InvalidEditResult(m)) => assert_eq!(m, "item count mismatch"),
        other => panic!("unexpected: {:?}", other),
    }
    // The rejected edit leaves the lines as they were.
    assert!(editor.into_diffs().unwrap().is_empty());
}

#[test]
fn missing_line_is_an_item_count_mismatch() {
    let mut editor = Editor::new(pair()).unwrap();
    assert!(matches!(editor.edit("general"), Err(Error::InvalidEditResult(_))));
}

#[test]
fn second_trailing_newline_counts_as_a_line() {
    let mut editor = Editor::new(pair()).unwrap();
    assert!(matches!(
        editor.edit("general\nrandom\n\n"),
        Err(Error::InvalidEditResult(_))
    ));
}

#[test]
fn swapped_lines_are_paired_by_position() {
    let mut editor = Editor::new(pair()).unwrap();
    editor.edit("random\t\u{1F4DD} (2)\ngeneral\t\u{1F4DD} (1)\n").unwrap();
    let diffs = editor.into_diffs().unwrap();
    assert_eq!(diffs.len(), 2);
    assert_eq!(diffs[0].old, "general");
    assert_eq!(diffs[0].new, "random");
    assert_eq!(diffs[0].item.id, 1);
    assert_eq!(diffs[1].old, "random");
    assert_eq!(diffs[1].new, "general");
    assert_eq!(diffs[1].item.id, 2);
}

#[test]
fn one_invalid_line_rejects_the_whole_batch() {
    let mut editor = Editor::new(pair()).unwrap();
    editor.edit("general-chat\nr\n").unwrap();
    match editor.into_diffs() {
        Err(Error::InvalidChannelName { name, message }) => {
            assert_eq!(name, "r");
            assert_eq!(message, "Channel name must be between 2 and 100 characters");
        }
        Err(e) => panic!("unexpected error: {:?}", e),
        Ok(_) => panic!("the batch was accepted"),
    }
}

#[test]
fn first_invalid_line_gives_the_error() {
    let mut editor = Editor::new(pair()).unwrap();
    editor.edit("bad--name\nx\n").unwrap();
    match editor.into_diffs() {
        Err(Error::InvalidChannelName { name, message }) => {
            assert_eq!(name, "bad--name");
            assert_eq!(message, "Contains characters or patterns that cannot be used");
        }
        _ => panic!("expected the first line's error"),
    }
}

#[test]
fn only_the_edited_item_changes() {
    let items = vec![text_channel(1, "general"), text_channel(2, "general")];
    let mut editor = Editor::new(items).unwrap();
    editor.edit("general-chat\ngeneral").unwrap();
    let diffs = editor.into_diffs().unwrap();
    assert_eq!(diffs.len(), 1);
    assert_eq!(diffs[0].old, "general");
    assert_eq!(diffs[0].new, "general-chat");
    assert_eq!(diffs[0].item.id, 1);
}

#[test]
fn comment_after_tab_is_dropped() {
    let items = vec![text_channel(1, "general")];
    let mut editor = Editor::new(items).unwrap();
    editor.edit("name\tsome comment").unwrap();
    let diffs = editor.into_diffs().unwrap();
    assert_eq!(diffs.len(), 1);
    assert_eq!(diffs[0].new, "name");
}

#[test]
fn comment_is_never_validated() {
    let items = vec![text_channel(1, "general")];
    let mut editor = Editor::new(items).unwrap();
    editor.edit("general\tx -- y ! \u{1F600}").unwrap();
    assert!(editor.into_diffs().unwrap().is_empty());
}

#[test]
fn tab_in_content_is_refused() {
    let items = vec![text_channel(1, "gen\teral")];
    match Editor::new(items) {
        Err(Error::NotEditableItem(m)) => {
            assert_eq!(m, "tab character is not allowed in content")
        }
        _ => panic!("expected a refusal"),
    }
}

#[test]
fn newline_in_content_is_refused() {
    let items = vec![text_channel(1, "gen\neral")];
    match Editor::new(items) {
        Err(Error::NotEditableItem(m)) => {
            assert_eq!(m, "newline character is not allowed in content")
        }
        _ => panic!("expected a refusal"),
    }
}

#[test]
fn newline_in_comment_is_refused() {
    let mut item = text_channel(1, "general");
    item.parent_name = Some("two\nlines".to_string());
    item.parent_id = Some(9);
    assert!(matches!(
        Editor::new(vec![item]),
        Err(Error::NotEditableItem(_))
    ));
}

#[test]
fn empty_collection_has_an_empty_document() {
    let editor: Editor<ChannelItem> = Editor::new(Vec::new()).unwrap();
    assert_eq!(editor.document(), "");
}

#[test]
fn changed_lines_keep_document_order() {
    let items = vec![
        text_channel(1, "aa"),
        text_channel(2, "bb"),
        text_channel(3, "cc"),
    ];
    let mut editor = Editor::new(items).unwrap();
    editor.edit("aa-x\nbb\ncc-x\n").unwrap();
    let diffs = editor.into_diffs().unwrap();
    let ids: Vec<u64> = diffs.iter().map(|d| d.item.id).collect();
    assert_eq!(ids, vec![1, 3]);
}
