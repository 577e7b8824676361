use cgraph::canvas::Rect;
use cgraph::keys::{KeyCode, KeyEvent, KeyModifiers};
use cgraph::messages::{
    handle_key, message_area, message_source, wrapped_rows, LineSelection, MessageAction, MessageViewState,
};

fn key(code: KeyCode, modifiers: KeyModifiers) -> KeyEvent {
    KeyEvent::new(code, modifiers)
}

#[test]
fn pager_supports_less_navigation_wrapping_and_quit() {
    let mut view = MessageViewState::from_messages(
        &(1..=20).map(|line| format!("error {line}")).collect::<Vec<_>>(),
    );
    let rows = wrapped_rows(&view.source, 80);
    view.prepare_layout(rows, 80, 5);
    assert_eq!(view.vertical_offset, 15);

    handle_key(&mut view, key(KeyCode::Char('k'), KeyModifiers::none()));
    assert_eq!(view.vertical_offset, 14);
    handle_key(&mut view, key(KeyCode::PageUp, KeyModifiers::none()));
    assert_eq!(view.vertical_offset, 10);
    handle_key(&mut view, key(KeyCode::Char('g'), KeyModifiers::none()));
    assert_eq!(view.vertical_offset, 0);
    handle_key(&mut view, key(KeyCode::Char('G'), KeyModifiers::shift()));
    assert_eq!(view.vertical_offset, 15);
    assert_eq!(
        wrapped_rows("abcdef\n界面", 3).into_iter().map(|row| row.text).collect::<Vec<_>>(),
        ["abc", "def", "界", "面"]
    );

    let mut selection_view = MessageViewState::from_messages(&["abcdef".to_owned()]);
    let rows = wrapped_rows(&selection_view.source, 3);
    selection_view.prepare_layout(rows, 3, 2);
    handle_key(&mut selection_view, key(KeyCode::Char('V'), KeyModifiers::shift()));
    handle_key(&mut selection_view, key(KeyCode::Char('k'), KeyModifiers::none()));
    let MessageAction::Copy(copied) =
        handle_key(&mut selection_view, key(KeyCode::Char('y'), KeyModifiers::none()))
    else {
        panic!("y must copy the active line selection");
    };
    assert_eq!(copied, "abcdef");
    assert!(selection_view.selection.is_none());
    assert!(matches!(
        handle_key(&mut view, key(KeyCode::Char('q'), KeyModifiers::none())),
        MessageAction::Close
    ));
}

#[test]
fn message_view_is_bottom_aligned_and_limited_to_fifteen_rows() {
    assert_eq!(message_area(Rect::new(0, 0, 100, 40)), Rect::new(0, 24, 100, 15));
    assert_eq!(message_area(Rect::new(0, 0, 100, 10)), Rect::new(0, 0, 100, 9));

    let messages = (1..=20).map(|line| format!("line-{line:02}")).collect::<Vec<_>>();
    let mut view = MessageViewState::from_messages(&messages);
    // A 40x20 screen: fifteen rows above the footer, one of them the title
    // border, one column the scrollbar.
    let area = message_area(Rect::new(0, 0, 40, 20));
    let text_width = area.width - 1;
    let text_rows = usize::from(area.height - 1);
    let rows = wrapped_rows(&view.source, text_width);
    view.prepare_layout(rows, text_width, text_rows);
    let start = usize::from(view.vertical_offset);
    let shown = view.wrapped_rows[start..(start + text_rows).min(view.wrapped_rows.len())]
        .iter()
        .map(|row| row.text.clone())
        .collect::<Vec<_>>()
        .join("\n");
    assert!(view.title().contains("Messages"));
    assert!(shown.contains("line-20"));
    assert!(!shown.contains("line-01"));
}

#[test]
fn an_empty_pager_says_so_and_ends_with_an_empty_row() {
    assert_eq!(message_source(&[]), "No messages.");
    assert_eq!(message_source(&["a".to_owned(), "b".to_owned()]), "a\nb");
    let rows = wrapped_rows("x\n", 10);
    assert_eq!(rows.len(), 2);
    assert_eq!((rows[0].text.as_str(), rows[0].source_start, rows[0].source_end_for_copy), ("x", 0, 2));
    assert_eq!((rows[1].text.as_str(), rows[1].source_start, rows[1].source_end_for_copy), ("", 2, 2));
    let rows = wrapped_rows("", 10);
    assert_eq!(rows.len(), 1);
    assert_eq!(rows[0].text, "");
}

#[test]
fn tabs_take_four_columns_and_carriage_returns_are_dropped() {
    let rows = wrapped_rows("a\tb\r\nc", 5);
    let texts = rows.iter().map(|row| row.text.clone()).collect::<Vec<_>>();
    assert_eq!(texts, ["a    ", "b", "c"]);
    assert_eq!(rows[1].source_end_for_copy, 5);
}

#[test]
fn y_without_a_selection_leaves_a_notice_in_the_title() {
    let mut view = MessageViewState::from_messages(&["one".to_owned()]);
    let rows = wrapped_rows(&view.source, 20);
    view.prepare_layout(rows, 20, 4);
    let action = handle_key(&mut view, key(KeyCode::Char('y'), KeyModifiers::none()));
    assert_eq!(action, MessageAction::Handled);
    assert_eq!(view.notice.as_deref(), Some("nothing selected"));
    assert_eq!(view.title(), " Messages · nothing selected · V select · q close ");
    handle_key(&mut view, key(KeyCode::Char('j'), KeyModifiers::none()));
    assert!(view.notice.is_none());
}

#[test]
fn selection_cursor_scrolls_the_view_and_half_pages_follow_control_keys() {
    let messages = (0..30).map(|line| format!("m{line}")).collect::<Vec<_>>();
    let mut view = MessageViewState::from_messages(&messages);
    let rows = wrapped_rows(&view.source, 20);
    view.prepare_layout(rows, 20, 10);
    assert_eq!(view.vertical_offset, 20);
    handle_key(&mut view, key(KeyCode::Char('u'), KeyModifiers::control()));
    assert_eq!(view.vertical_offset, 15);
    assert!(!view.follow_tail);
    handle_key(&mut view, key(KeyCode::Char('d'), KeyModifiers::control()));
    assert_eq!(view.vertical_offset, 20);
    assert!(view.follow_tail);
    handle_key(&mut view, key(KeyCode::Char('V'), KeyModifiers::none()));
    assert_eq!(view.selection.map(|s| (s.anchor, s.cursor)), Some((29, 29)));
    handle_key(&mut view, key(KeyCode::Char('g'), KeyModifiers::none()));
    assert_eq!(view.selection.map(|s| s.cursor), Some(0));
    assert_eq!(view.vertical_offset, 0);
    assert!(view.is_selected(15));
    let MessageAction::Copy(text) = handle_key(&mut view, key(KeyCode::Char('y'), KeyModifiers::none())) else {
        panic!("a selection copies");
    };
    assert_eq!(text, messages.join("\n"));
}

#[test]
fn row_offsets_are_byte_offsets_of_the_text() {
    let source = "é€x\nüb";
    let rows = wrapped_rows(source, 2);
    let texts = rows.iter().map(|row| row.text.as_str()).collect::<Vec<_>>();
    assert_eq!(texts, ["é€", "x", "üb"]);
    assert_eq!((rows[0].source_start, rows[0].source_end_for_copy), (0, 5));
    assert_eq!((rows[1].source_start, rows[1].source_end_for_copy), (5, 7));
    assert_eq!((rows[2].source_start, rows[2].source_end_for_copy), (7, source.len()));

    let mut view = MessageViewState::from_messages(&["é€x".to_owned(), "üb".to_owned()]);
    let rows = wrapped_rows(&view.source, 2);
    view.prepare_layout(rows, 2, 5);
    view.selection = Some(LineSelection { anchor: 1, cursor: 0 });
    assert_eq!(view.selected_text().as_deref(), Some("é€x\n"));
    view.selection = Some(LineSelection { anchor: 2, cursor: 2 });
    assert_eq!(view.selected_text().as_deref(), Some("üb"));
}
