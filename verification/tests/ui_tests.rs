use hmm_rs::ui::connections::{draw_child_connections, draw_node_connections};
use hmm_rs::ui::mindmap::{can_clip, draw_node_text};
use hmm_rs::layout::NODE_CONNECTION_SPACING;
use hmm_rs::ui::canvas::{BufferCanvas, CellStyle};
use hmm_rs::ui::constants::connections;
use hmm_rs::ui::text::TextWrapper;

fn check_connection_line_constants() {
    assert_eq!(
        connections::SINGLE.chars().filter(|&c| c == '─').count(),
        5,
        "Single child connection should have exactly 5 dashes"
    );
    assert_eq!(
        connections::MULTI.chars().filter(|&c| c == '─').count(),
        4,
        "Multi-child connection should have exactly 4 dashes"
    );
    assert_eq!(
        connections::SINGLE_HIDDEN.chars().filter(|&c| c == '─').count(),
        4,
        "Single child connection with hidden should have 4 dashes plus ╫"
    );
    assert_eq!(
        connections::MULTI_HIDDEN.chars().filter(|&c| c == '─').count(),
        3,
        "Multi-child connection with hidden should have 3 dashes plus ╫"
    );
}

fn check_no_spaces_in_connection_lines() {
    assert!(!connections::SINGLE.contains(' '), "Single child connection should not contain spaces");
    assert!(!connections::MULTI.contains(' '), "Multi-child connection should not contain spaces");
    assert!(
        !connections::SINGLE_HIDDEN.contains(' '),
        "Single child connection with hidden should not contain spaces"
    );
    assert!(
        !connections::MULTI_HIDDEN.contains(' '),
        "Multi-child connection with hidden should not contain spaces"
    );
}

fn check_text_wrapper() {
    let text = "The quick brown fox jumps over the lazy dog";
    let wrapped = TextWrapper::wrap(text, 10);

    assert!(wrapped.len() > 1, "Text should be wrapped into multiple lines");
    for line in &wrapped {
        assert!(
            unicode_width::UnicodeWidthStr::width(line.as_str()) <= 10,
            "Line width should not exceed max width"
        );
    }

    let empty_wrapped = TextWrapper::wrap("", 10);
    assert_eq!(empty_wrapped.len(), 1);
    assert_eq!(empty_wrapped[0], "");

    let long_word = "verylongword";
    let single_wrapped = TextWrapper::wrap(long_word, 5);
    assert_eq!(single_wrapped.len(), 1);
    assert_eq!(single_wrapped[0], long_word);
}

fn check_buffer_canvas() {
    let mut canvas = BufferCanvas::new(20, 5);

    canvas.set_char(5, 2, 'X');
    assert_eq!(canvas.char_buffer[2][5], 'X');

    canvas.draw_text(0, 0, "Hello");
    assert_eq!(&canvas.char_buffer[0][0..5], ['H', 'e', 'l', 'l', 'o']);

    canvas.set_char(25, 2, 'Y');
    canvas.set_char(5, 10, 'Z');

    assert!(canvas.in_bounds(5, 2));
    assert!(!canvas.in_bounds(20, 2));
    assert!(!canvas.in_bounds(5, 5));
}

fn check_connection_total_length() {
    let expected_connection_chars = NODE_CONNECTION_SPACING as usize - 1;
    let actual_chars = connections::SINGLE.chars().count();
    assert_eq!(
        actual_chars, expected_connection_chars,
        "Single child connection should have {} characters to fill spacing",
        expected_connection_chars
    );
}

#[test]
fn ui_test_connection_line_constants() {
    check_connection_line_constants();
}

#[test]
fn ui_test_no_spaces_in_connection_lines() {
    check_no_spaces_in_connection_lines();
}

#[test]
fn ui_test_buffer_canvas() {
    check_buffer_canvas();
}

#[test]
fn tests_test_buffer_canvas() {
    check_buffer_canvas();
}

#[test]
fn ui_test_text_wrapper() {
    check_text_wrapper();
}

#[test]
fn ui_test_connection_total_length() {
    check_connection_total_length();
}

#[test]
fn tests_test_connection_line_constants() {
    check_connection_line_constants();
}

#[test]
fn tests_test_no_spaces_in_connection_lines() {
    check_no_spaces_in_connection_lines();
}

#[test]
fn tests_test_text_wrapper() {
    check_text_wrapper();
}

#[test]
fn tests_test_connection_total_length() {
    check_connection_total_length();
}

// Own tests.

#[test]
fn wrapper_counts_wide_characters_by_columns() {
    // Each of these characters takes two columns.
    let lines = TextWrapper::wrap("漢字 漢字", 4);
    assert_eq!(lines, vec!["漢字".to_string(), "漢字".to_string()]);
}

#[test]
fn wrapper_keeps_blank_text_as_it_is() {
    assert_eq!(TextWrapper::wrap("   ", 5), vec!["   ".to_string()]);
}

#[test]
fn wrapping_counts_wide_characters_as_two_columns() {
    // "漢字" takes four columns, so "漢字 ab" (seven) does not fit in five.
    assert_eq!(TextWrapper::wrap("漢字 ab", 5), vec!["漢字".to_string(), "ab".to_string()]);
    assert_eq!(TextWrapper::wrap("abc de", 6), vec!["abc de".to_string()]);
}

#[test]
fn styled_text_is_cut_at_the_right_edge() {
    let mut canvas = BufferCanvas::new(4, 2);
    canvas.draw_styled_text(2, 1, "abc", CellStyle::Active);
    assert_eq!(canvas.char_buffer[1], vec![' ', ' ', 'a', 'b']);
    assert_eq!(canvas.style_buffer[1][2], CellStyle::Active);
    assert_eq!(canvas.style_buffer[1][1], CellStyle::Plain);
    assert_eq!(canvas.char_buffer[0], vec![' '; 4]);
}

fn row(canvas: &BufferCanvas, y: usize) -> String {
    canvas.char_buffer[y].iter().collect()
}

#[test]
fn single_child_line_on_the_same_row() {
    let mut canvas = BufferCanvas::new(12, 2);
    draw_child_connections(&mut canvas, (2, 1), None, &vec![(9, 1)], false);
    assert_eq!(row(&canvas, 1), "   ─────    ");
    assert_eq!(row(&canvas, 0), " ".repeat(12));

    let mut canvas = BufferCanvas::new(12, 2);
    draw_child_connections(&mut canvas, (2, 1), None, &vec![(9, 1)], true);
    assert_eq!(row(&canvas, 1), "   ─╫───    ");
}

#[test]
fn single_child_on_another_row_gets_a_corner() {
    let mut canvas = BufferCanvas::new(10, 3);
    draw_child_connections(&mut canvas, (2, 0), None, &vec![(9, 2)], false);
    assert_eq!(row(&canvas, 0), "   ────│  ");
    assert_eq!(row(&canvas, 1), "       │  ");
    assert_eq!(row(&canvas, 2), "       ╰  ");
}

#[test]
fn several_children_hang_from_the_spine() {
    let mut canvas = BufferCanvas::new(12, 3);
    draw_child_connections(&mut canvas, (2, 1), Some(6), &vec![(9, 0), (9, 1), (9, 2)], false);
    assert_eq!(row(&canvas, 0), "      ╭───  ");
    assert_eq!(row(&canvas, 1), "   ───├─────");
    assert_eq!(row(&canvas, 2), "      ╰───  ");
}

#[test]
fn several_children_without_a_spine_draw_nothing() {
    let mut canvas = BufferCanvas::new(12, 3);
    draw_child_connections(&mut canvas, (2, 1), None, &vec![(9, 0), (9, 2)], false);
    for y in 0..3 {
        assert_eq!(row(&canvas, y), " ".repeat(12));
    }
}

#[test]
fn collapsed_and_hidden_only_markers() {
    let mut canvas = BufferCanvas::new(10, 3);
    draw_node_connections(&mut canvas, true, true, (1, 0), None, &vec![], false);
    draw_node_connections(&mut canvas, true, true, (1, 1), None, &vec![], true);
    draw_node_connections(&mut canvas, false, true, (1, 2), None, &vec![], true);
    assert_eq!(row(&canvas, 0), "  [+]     ");
    assert_eq!(row(&canvas, 1), " ─╫─ [+]  ");
    assert_eq!(row(&canvas, 2), " ─╫─      ");
    let mut canvas = BufferCanvas::new(4, 1);
    draw_node_connections(&mut canvas, false, false, (0, 0), None, &vec![], false);
    assert_eq!(row(&canvas, 0), "    ");
}

#[test]
fn lines_off_the_canvas_are_cut() {
    let mut canvas = BufferCanvas::new(4, 1);
    draw_child_connections(&mut canvas, (-3, 0), None, &vec![(5, 0)], false);
    assert_eq!(row(&canvas, 0), "─── ");
}

#[test]
fn node_text_is_clipped_gapped_and_wrapped() {
    let mut canvas = BufferCanvas::new(8, 2);
    draw_node_text(&mut canvas, 0, 0, "Hello", 2, true, 10, CellStyle::Active);
    assert_eq!(row(&canvas, 0), "llo     ");
    assert_eq!(canvas.style_buffer[0][2], CellStyle::Active);
    assert_eq!(canvas.style_buffer[0][3], CellStyle::Plain);

    let mut canvas = BufferCanvas::new(8, 2);
    // The gap's space goes into the text, and wrapping, which splits at
    // white space, drops it again.
    draw_node_text(&mut canvas, 1, 0, "Hello", 0, true, 10, CellStyle::Plain);
    assert_eq!(row(&canvas, 0), " Hello  ");

    let mut canvas = BufferCanvas::new(8, 2);
    draw_node_text(&mut canvas, 0, 0, "ab cd", 0, false, 3, CellStyle::Plain);
    assert_eq!(row(&canvas, 0), "ab      ");
    assert_eq!(row(&canvas, 1), "cd      ");

    assert!(can_clip("héllo", 3));
    assert!(!can_clip("héllo", 2));
    assert!(can_clip("hi", 9));
}
