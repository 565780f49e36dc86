use hmm_rs::actions::editing::{
    backspace, cancel_edit, confirm_edit, delete_char, delete_to_end, delete_to_start, delete_word_backward,
    delete_word_forward, move_cursor_end, move_cursor_home, move_cursor_left, move_cursor_right,
    move_cursor_word_left, move_cursor_word_right, paste_at_cursor, start_editing, type_char,
};
use hmm_rs::app::{AppMode, AppState};
use hmm_rs::config::AppConfig;
use hmm_rs::model::Node;

fn create_test_app() -> AppState {
    let config = AppConfig::default();
    let mut app = AppState::new(config);

    let root = app.tree.new_node(Node::new("Root".to_string()));
    app.root_id = Some(root);
    app.active_node_id = Some(root);

    app
}

fn editing(buffer: &str, cursor_pos: usize) -> AppMode {
    AppMode::Editing { buffer: buffer.to_string(), cursor_pos }
}

fn buffer_and_cursor(app: &AppState) -> (String, usize) {
    match &app.mode {
        AppMode::Editing { buffer, cursor_pos } => (buffer.clone(), *cursor_pos),
        _ => panic!("Should be in editing mode"),
    }
}

#[test]
fn editing_test_edit_mode_type_char() {
    let mut app = create_test_app();
    start_editing(&mut app, true);

    type_char(&mut app, 'T');
    type_char(&mut app, 'e');
    type_char(&mut app, 's');
    type_char(&mut app, 't');

    if let AppMode::Editing { buffer, .. } = &app.mode {
        assert_eq!(buffer, "Test");
    } else {
        panic!("Should be in editing mode");
    }
}

#[test]
fn editing_test_edit_mode_backspace() {
    let mut app = create_test_app();
    start_editing(&mut app, true);

    type_char(&mut app, 'T');
    type_char(&mut app, 'e');
    type_char(&mut app, 's');
    type_char(&mut app, 't');
    backspace(&mut app);

    if let AppMode::Editing { buffer, .. } = &app.mode {
        assert_eq!(buffer, "Tes");
    } else {
        panic!("Should be in editing mode");
    }
}

#[test]
fn editing_test_edit_mode_cursor_movement() {
    let mut app = create_test_app();
    start_editing(&mut app, true);

    type_char(&mut app, 'T');
    type_char(&mut app, 'e');
    type_char(&mut app, 's');
    type_char(&mut app, 't');

    move_cursor_home(&mut app);
    assert_eq!(buffer_and_cursor(&app).1, 0);

    move_cursor_end(&mut app);
    assert_eq!(buffer_and_cursor(&app).1, 4);

    move_cursor_left(&mut app);
    assert_eq!(buffer_and_cursor(&app).1, 3);

    move_cursor_right(&mut app);
    assert_eq!(buffer_and_cursor(&app).1, 4);
}

#[test]
fn editing_test_edit_confirm() {
    let mut app = create_test_app();
    let root = app.root_id.unwrap();

    start_editing(&mut app, true);
    type_char(&mut app, 'N');
    type_char(&mut app, 'e');
    type_char(&mut app, 'w');
    confirm_edit(&mut app);

    assert_eq!(app.tree.get(root).unwrap().get().title, "New");
    assert!(matches!(app.mode, AppMode::Normal));
}

#[test]
fn editing_test_edit_cancel() {
    let mut app = create_test_app();
    let root = app.root_id.unwrap();
    let title_before = app.tree.get(root).unwrap().get().title.clone();

    start_editing(&mut app, true);
    type_char(&mut app, 'N');
    type_char(&mut app, 'e');
    type_char(&mut app, 'w');
    cancel_edit(&mut app);

    assert_eq!(app.tree.get(root).unwrap().get().title, title_before);
    assert!(matches!(app.mode, AppMode::Normal));
}

#[test]
fn test_cursor_movement() {
    let mut app = create_test_app();
    let root = app.root_id.unwrap();
    app.active_node_id = Some(root);

    app.mode = editing("The quick brown fox", 19);

    move_cursor_left(&mut app);
    assert_eq!(buffer_and_cursor(&app).1, 18);

    move_cursor_home(&mut app);
    assert_eq!(buffer_and_cursor(&app).1, 0);

    move_cursor_right(&mut app);
    assert_eq!(buffer_and_cursor(&app).1, 1);

    move_cursor_end(&mut app);
    assert_eq!(buffer_and_cursor(&app).1, 19);
}

#[test]
fn test_word_navigation() {
    let mut app = create_test_app();
    app.mode = editing("The quick brown fox jumps", 25);

    move_cursor_word_left(&mut app);
    assert_eq!(buffer_and_cursor(&app).1, 20);

    move_cursor_word_left(&mut app);
    assert_eq!(buffer_and_cursor(&app).1, 16);

    move_cursor_word_right(&mut app);
    assert_eq!(buffer_and_cursor(&app).1, 20);

    move_cursor_home(&mut app);
    move_cursor_word_right(&mut app);
    assert_eq!(buffer_and_cursor(&app).1, 4);
}

#[test]
fn test_word_deletion() {
    let mut app = create_test_app();

    app.mode = editing("The quick brown fox", 15);
    delete_word_backward(&mut app);
    assert_eq!(buffer_and_cursor(&app), ("The quick  fox".to_string(), 10));

    app.mode = editing("The quick brown fox", 4);
    delete_word_forward(&mut app);
    assert_eq!(buffer_and_cursor(&app), ("The brown fox".to_string(), 4));
}

#[test]
fn test_line_editing() {
    let mut app = create_test_app();

    app.mode = editing("The quick brown fox", 9);
    delete_to_end(&mut app);
    assert_eq!(buffer_and_cursor(&app), ("The quick".to_string(), 9));

    app.mode = editing("The quick brown fox", 10);
    delete_to_start(&mut app);
    assert_eq!(buffer_and_cursor(&app), ("brown fox".to_string(), 0));
}

#[test]
fn test_delete_char() {
    let mut app = create_test_app();
    app.mode = editing("Test", 2);

    delete_char(&mut app);
    assert_eq!(buffer_and_cursor(&app), ("Tet".to_string(), 2));

    move_cursor_end(&mut app);
    delete_char(&mut app);
    assert_eq!(buffer_and_cursor(&app).0, "Tet");
}

#[test]
fn test_editing_edge_cases() {
    let mut app = create_test_app();

    app.mode = editing("", 0);

    move_cursor_left(&mut app);
    move_cursor_right(&mut app);
    move_cursor_word_left(&mut app);
    move_cursor_word_right(&mut app);
    delete_word_backward(&mut app);
    delete_word_forward(&mut app);
    backspace(&mut app);
    delete_char(&mut app);

    assert_eq!(buffer_and_cursor(&app), ("".to_string(), 0));

    app.mode = editing("word1   word2", 13);

    move_cursor_word_left(&mut app);
    assert_eq!(buffer_and_cursor(&app).1, 8);

    move_cursor_word_left(&mut app);
    assert_eq!(buffer_and_cursor(&app).1, 0);
}

#[test]
fn test_start_editing_modes() {
    let mut app = create_test_app();
    let root = app.root_id.unwrap();
    app.active_node_id = Some(root);

    start_editing(&mut app, false);
    assert_eq!(buffer_and_cursor(&app), ("Root".to_string(), 4));

    app.mode = AppMode::Normal;

    start_editing(&mut app, true);
    assert_eq!(buffer_and_cursor(&app), ("".to_string(), 0));
}

#[test]
fn test_editing_basic() {
    let mut app = create_test_app();
    let root = app.root_id.unwrap();
    app.active_node_id = Some(root);

    start_editing(&mut app, false);
    assert!(matches!(app.mode, AppMode::Editing { .. }));
    assert_eq!(buffer_and_cursor(&app), ("Root".to_string(), 4));

    type_char(&mut app, ' ');
    type_char(&mut app, 'T');
    type_char(&mut app, 'e');
    type_char(&mut app, 's');
    type_char(&mut app, 't');
    assert_eq!(buffer_and_cursor(&app), ("Root Test".to_string(), 9));

    backspace(&mut app);
    assert_eq!(buffer_and_cursor(&app), ("Root Tes".to_string(), 8));

    confirm_edit(&mut app);
    assert!(matches!(app.mode, AppMode::Normal));
    let node = app.tree.get(root).unwrap().get();
    assert_eq!(node.title, "Root Tes");
}

// Own tests.

#[test]
fn typing_then_backspace_restores_buffer() {
    let mut app = create_test_app();
    app.mode = editing("abc", 1);
    type_char(&mut app, 'x');
    assert_eq!(buffer_and_cursor(&app), ("axbc".to_string(), 2));
    backspace(&mut app);
    assert_eq!(buffer_and_cursor(&app), ("abc".to_string(), 1));
}

#[test]
fn multibyte_characters_are_cut_at_their_start() {
    let mut app = create_test_app();
    // "é" takes two bytes: it starts at byte 1, and the cursor after it is
    // at byte 3. The cursor moves by bytes.
    app.mode = editing("aéb", 3);
    move_cursor_left(&mut app);
    assert_eq!(buffer_and_cursor(&app).1, 2);
    app.mode = editing("aéb", 1);
    delete_char(&mut app);
    assert_eq!(buffer_and_cursor(&app), ("ab".to_string(), 1));
}

#[test]
fn paste_at_cursor_inserts_cleaned_text() {
    let mut app = create_test_app();
    app.mode = editing("ab", 1);
    paste_at_cursor(&mut app, "X\r\nY\tZ");
    assert_eq!(buffer_and_cursor(&app), ("aX Y  Zb".to_string(), 7));
}

#[test]
fn confirm_edit_outside_editing_changes_nothing() {
    let mut app = create_test_app();
    let root = app.root_id.unwrap();
    confirm_edit(&mut app);
    assert_eq!(app.tree.get(root).unwrap().get().title, "Root");
    assert!(matches!(app.mode, AppMode::Normal));
}
