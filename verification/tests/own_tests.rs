use hmm_rs::actions::dispatch::action_ready;
use hmm_rs::actions::file::{written, WriteKind};
use hmm_rs::actions::html::export_html;
use hmm_rs::actions::levels::collapse_to_level;
use hmm_rs::actions::rank::parse_i32_exec;
use hmm_rs::actions::{execute_action, Action, Outcome};
use hmm_rs::app::{AppMode, AppState};
use hmm_rs::config::{load_config, AppConfig, CliArgs, ClipboardType, ConfigLayer};
use hmm_rs::event::{handle_key_event, Key, KeyPress, ALT, CONTROL, SHIFT};
use hmm_rs::model::Node;
use hmm_rs::ui::canvas::CellStyle;
use hmm_rs::ui::help::HelpRenderer;
use hmm_rs::ui::mindmap::{hidden_gap, node_style};
use hmm_rs::ui::view::x_offset;
use hmm_rs::ui::status_line::{StatusLineRenderer, StatusLook};

fn create_test_app() -> AppState {
    let mut app = AppState::new(AppConfig::default());
    let root = app.tree.new_node(Node::new("Root".to_string()));
    let child1 = app.tree.new_node(Node::new("Child 1".to_string()));
    let child2 = app.tree.new_node(Node::new("Child 2".to_string()));
    let grandchild = app.tree.new_node(Node::new("Grandchild".to_string()));
    root.append(child1, &mut app.tree);
    root.append(child2, &mut app.tree);
    child2.append(grandchild, &mut app.tree);
    app.root_id = Some(root);
    app.active_node_id = Some(root);
    app
}

fn key(code: Key, modifiers: u8) -> KeyPress {
    KeyPress { code, modifiers }
}

fn empty_layer() -> ConfigLayer {
    ConfigLayer {
        max_parent_node_width: None,
        max_leaf_node_width: None,
        line_spacing: None,
        symbol1: None,
        symbol2: None,
        show_hidden: None,
        initial_depth: None,
        center_lock: None,
        focus_lock: None,
        max_undo_steps: None,
        auto_save: None,
        auto_save_interval: None,
        echo_keys: None,
        post_export_command: None,
        clipboard: None,
        clipboard_file: None,
        clipboard_in_command: None,
        clipboard_out_command: None,
    }
}

fn no_args() -> CliArgs {
    CliArgs { filename: None, config: None, debug_config: false, initial_depth: None, show_hidden: None, auto_save: None }
}

#[test]
fn normal_mode_keys() {
    let app = create_test_app();
    assert_eq!(handle_key_event(&app, key(Key::Char('q'), 0)), Some(Action::Quit));
    assert_eq!(handle_key_event(&app, key(Key::Char('Q'), SHIFT)), Some(Action::ForceQuit));
    assert_eq!(handle_key_event(&app, key(Key::Up, ALT)), Some(Action::AddStar));
    assert_eq!(handle_key_event(&app, key(Key::Up, 0)), Some(Action::GoUp));
    assert_eq!(handle_key_event(&app, key(Key::Char('r'), CONTROL)), Some(Action::Redo));
    assert_eq!(handle_key_event(&app, key(Key::Char('3'), 0)), Some(Action::CollapseToLevel(3)));
    assert_eq!(handle_key_event(&app, key(Key::Char('!'), 0)), None);
}

#[test]
fn editing_mode_keys_type_characters() {
    let mut app = create_test_app();
    app.mode = AppMode::Editing { buffer: String::new(), cursor_pos: 0 };
    assert_eq!(handle_key_event(&app, key(Key::Char('x'), 0)), Some(Action::TypeChar('x')));
    assert_eq!(handle_key_event(&app, key(Key::Enter, 0)), Some(Action::ConfirmEdit));
    assert_eq!(handle_key_event(&app, key(Key::Esc, 0)), Some(Action::CancelEdit));
}

#[test]
fn help_mode_closes_on_escape() {
    let mut app = create_test_app();
    app.mode = AppMode::Help;
    assert_eq!(handle_key_event(&app, key(Key::Esc, 0)), Some(Action::CloseHelp));
}

#[test]
fn quit_with_unsaved_changes_is_refused() {
    let mut app = create_test_app();
    app.is_dirty = true;
    execute_action(Action::Quit, &mut app);
    assert!(app.running);
    assert_eq!(
        app.message.as_deref(),
        Some("Unsaved changes! Press Shift+Q to force quit or 's' to save")
    );
    execute_action(Action::ForceQuit, &mut app);
    assert!(!app.running);
}

#[test]
fn dispatch_reports_what_is_left_to_do() {
    let mut app = create_test_app();
    assert!(matches!(execute_action(Action::YankNode, &mut app), Outcome::Copy(_)));
    assert!(matches!(execute_action(Action::CenterActiveNode, &mut app), Outcome::Screen(Action::CenterActiveNode)));
    assert!(matches!(execute_action(Action::PasteAtCursor, &mut app), Outcome::Paste));
    app.filename = Some("m.hmm".to_string());
    match execute_action(Action::Save, &mut app) {
        Outcome::Write(req, WriteKind::Save) => {
            assert_eq!(req.path, "m.hmm");
            assert_eq!(req.content, "Root\n\tChild 1\n\tChild 2\n\t\tGrandchild\n");
        },
        _ => panic!("saving asks to write the file"),
    }
}

#[test]
fn written_reports_save_outcomes() {
    let mut app = create_test_app();
    app.is_dirty = true;
    written(&mut app, WriteKind::Save, "m.hmm", Ok(()));
    assert!(!app.is_dirty);
    assert_eq!(app.message.as_deref(), Some("Saved to m.hmm"));

    written(&mut app, WriteKind::Html, "m.hmm.html", Ok(()));
    assert_eq!(app.message.as_deref(), Some("Exported to m.hmm.html"));
}

#[test]
fn html_export_page() {
    let mut app = create_test_app();
    assert!(export_html(&mut app).is_none());
    assert!(app.message.as_deref().unwrap().contains("Save it first"));

    app.filename = Some("test.hmm".to_string());
    let req = export_html(&mut app).expect("a page to write");
    assert_eq!(req.path, "test.hmm.html");
    let html = req.content;
    assert!(html.contains("<!DOCTYPE html>"));
    assert!(html.contains("<title>Root</title>"));
    assert!(html.contains("<div id=\"root\">Root</div>"));
    assert!(html.contains("Child 1"));
    assert!(html.contains("<summary>Child 2</summary>"));
    assert!(html.contains("<p>Grandchild</p>"));
}

#[test]
fn rank_text_is_read_back() {
    let mut app = create_test_app();
    let root = app.root_id.unwrap();
    app.tree.get_mut(root).unwrap().get_mut().title = "(3+,2-) Root".to_string();
    execute_action(Action::IncreasePositiveRank, &mut app);
    assert_eq!(app.tree.get(root).unwrap().get().title, "(4+,2-) Root");
    assert_eq!(app.message.as_deref(), Some("Rank: 4+, 2-"));
}

#[test]
fn parse_i32_accepts_signs_and_rejects_overflow() {
    assert_eq!(parse_i32_exec("42"), Some(42));
    assert_eq!(parse_i32_exec("-7"), Some(-7));
    assert_eq!(parse_i32_exec("+5"), Some(5));
    assert_eq!(parse_i32_exec("2147483648"), None);
    assert_eq!(parse_i32_exec(""), None);
    assert_eq!(parse_i32_exec("1a"), None);
}

#[test]
fn collapse_to_level_collapses_deeper_nodes() {
    let mut app = create_test_app();
    let root = app.root_id.unwrap();
    collapse_to_level(&mut app, 1);
    assert!(!app.tree.get(root).unwrap().get().is_collapsed);
    for c in root.children(&app.tree) {
        assert!(app.tree.get(c).unwrap().get().is_collapsed);
    }
}

#[test]
fn status_line_contents() {
    let mut app = create_test_app();
    assert_eq!(StatusLineRenderer::content(&app, 80), "h-m-m | 4 nodes");
    app.message = Some("Hello".to_string());
    assert_eq!(StatusLineRenderer::content(&app, 80), "Hello");
    app.mode = AppMode::Editing { buffer: "abc".to_string(), cursor_pos: 1 };
    assert!(StatusLineRenderer::can_render(&app, 80));
    assert_eq!(StatusLineRenderer::content(&app, 80), "Edit: a▌bc");
    app.mode = AppMode::Search { query: "x".to_string() };
    assert_eq!(StatusLineRenderer::content(&app, 80), "Search: x");
    app.mode = AppMode::Help;
    assert_eq!(StatusLineRenderer::content(&app, 80), "Press ESC or q to close help");
}

#[test]
fn status_line_refuses_a_cursor_inside_a_character() {
    let mut app = create_test_app();
    app.mode = AppMode::Editing { buffer: "aé".to_string(), cursor_pos: 2 };
    assert!(!StatusLineRenderer::can_render(&app, 80));
}

#[test]
fn help_starts_with_its_title() {
    let lines = HelpRenderer::build_help_text();
    assert_eq!(lines[0], "h-m-m Help");
    assert_eq!(lines[1], "");
    assert!(lines.iter().any(|l| l == "Navigation:"));
}

#[test]
fn settings_layers_override_in_order() {
    let mut file = empty_layer();
    file.line_spacing = Some(3);
    file.symbol1 = Some("+".to_string());
    let mut env = empty_layer();
    env.line_spacing = Some(5);
    env.clipboard = Some(ClipboardType::File);
    let mut args = no_args();
    args.show_hidden = Some(true);
    let c = load_config(&args, Some(file), env);
    assert_eq!(c.line_spacing, 5);
    assert_eq!(c.symbol1, "+");
    assert_eq!(c.clipboard, ClipboardType::File);
    assert!(c.show_hidden);
    assert_eq!(c.max_undo_steps, 24);
}

#[test]
fn readiness_of_actions() {
    let mut app = create_test_app();
    assert!(action_ready(Action::GoUp, &app));
    assert!(action_ready(Action::ConfirmSearch, &app));
    app.mode = AppMode::Editing { buffer: "aé".to_string(), cursor_pos: 2 };
    assert!(!action_ready(Action::TypeChar('x'), &app));
    app.mode = AppMode::Editing { buffer: "aé".to_string(), cursor_pos: 3 };
    assert!(action_ready(Action::TypeChar('x'), &app));
    // After a node is removed the arena keeps its slot.
    app.mode = AppMode::Normal;
    let root = app.root_id.unwrap();
    let child1 = root.children(&app.tree).next().unwrap();
    app.active_node_id = Some(child1);
    execute_action(Action::DeleteNode, &mut app);
    assert!(!action_ready(Action::ConfirmSearch, &app));
}

#[test]
fn node_looks_follow_activity_symbols_and_hiding() {
    let mut app = AppState::new(AppConfig::default());
    let root = app.tree.new_node(Node::new("Root".to_string()));
    let done = app.tree.new_node(Node::new("✓ Done".to_string()));
    let failed = app.tree.new_node(Node::new("✗ Failed".to_string()));
    let hidden = app.tree.new_node(Node::new("[HIDDEN] Secret".to_string()));
    let flagged = app.tree.new_node(Node {
        title: "Flagged".to_string(),
        is_collapsed: false,
        is_hidden: true,
    });
    let plain = app.tree.new_node(Node::new("Plain".to_string()));
    app.root_id = Some(root);
    app.active_node_id = Some(done);

    assert_eq!(node_style(&app, done), CellStyle::Active);
    assert_eq!(node_style(&app, failed), CellStyle::Symbol2);
    assert_eq!(node_style(&app, hidden), CellStyle::Hidden);
    assert_eq!(node_style(&app, flagged), CellStyle::Hidden);
    assert_eq!(node_style(&app, plain), CellStyle::Plain);
    assert_eq!(node_style(&app, root), CellStyle::Plain);

    app.active_node_id = Some(root);
    assert_eq!(node_style(&app, done), CellStyle::Symbol1);

    plain.remove(&mut app.tree);
    assert_eq!(node_style(&app, plain), CellStyle::Plain);
}

#[test]
fn text_offsets_leave_room_for_junctions() {
    let mut app = AppState::new(AppConfig::default());
    let root = app.tree.new_node(Node::new("Root".to_string()));
    let a = app.tree.new_node(Node::new("A".to_string()));
    let b = app.tree.new_node(Node::new("B".to_string()));
    let a1 = app.tree.new_node(Node::new("A1".to_string()));
    let a2 = app.tree.new_node(Node::new("[HIDDEN] A2".to_string()));
    let b1 = app.tree.new_node(Node::new("B1".to_string()));
    root.append(a, &mut app.tree);
    root.append(b, &mut app.tree);
    a.append(a1, &mut app.tree);
    a.append(a2, &mut app.tree);
    b.append(b1, &mut app.tree);
    app.root_id = Some(root);
    app.config.show_hidden = false;

    assert_eq!(x_offset(&app, root), 0);
    // Two children of the root: one column.
    assert_eq!(x_offset(&app, a), 1);
    assert_eq!(x_offset(&app, b), 1);
    // An only child: none.
    assert_eq!(x_offset(&app, b1), 0);
    // A1's sibling is hidden, so A1 is shown alone.
    assert_eq!(x_offset(&app, a1), 0);

    app.config.show_hidden = true;
    // Now A1 and A2 are both shown, below the root's level: two columns.
    assert_eq!(x_offset(&app, a1), 2);
    assert_eq!(x_offset(&app, a2), 2);
}

#[test]
fn hidden_siblings_leave_a_gap_when_not_shown() {
    let mut app = AppState::new(AppConfig::default());
    let root = app.tree.new_node(Node::new("Root".to_string()));
    let parent = app.tree.new_node(Node::new("Parent".to_string()));
    let hidden = app.tree.new_node(Node::new("[HIDDEN] Hidden".to_string()));
    let visible = app.tree.new_node(Node::new("Visible".to_string()));
    let other = app.tree.new_node(Node::new("Other".to_string()));
    root.append(parent, &mut app.tree);
    root.append(other, &mut app.tree);
    parent.append(hidden, &mut app.tree);
    parent.append(visible, &mut app.tree);
    app.root_id = Some(root);
    app.config.show_hidden = false;

    assert!(hidden_gap(&app, visible));
    // The hidden node's own title does not count for itself.
    assert!(!hidden_gap(&app, hidden));
    assert!(!hidden_gap(&app, parent));
    assert!(!hidden_gap(&app, root));

    app.config.show_hidden = true;
    assert!(!hidden_gap(&app, visible));
}

#[test]
fn status_line_look_by_mode() {
    let mut app = AppState::new(AppConfig::default());
    assert_eq!(StatusLineRenderer::look(&app), StatusLook::Quiet);
    app.message = Some("Saved".to_string());
    assert_eq!(StatusLineRenderer::look(&app), StatusLook::Message);
    app.mode = AppMode::Search { query: String::new() };
    assert_eq!(StatusLineRenderer::look(&app), StatusLook::Prompt);
    app.mode = AppMode::Help;
    assert_eq!(StatusLineRenderer::look(&app), StatusLook::Prompt);
    app.mode = AppMode::Editing { buffer: "x".to_string(), cursor_pos: 1 };
    assert_eq!(StatusLineRenderer::look(&app), StatusLook::Prompt);
}

#[test]
fn search_results_come_in_storage_order() {
    let mut app = AppState::new(AppConfig::default());
    let root = app.tree.new_node(Node::new("Root".to_string()));
    let beta = app.tree.new_node(Node::new("Beta x".to_string()));
    let alpha = app.tree.new_node(Node::new("Alpha X".to_string()));
    // In the tree, Alpha comes before Beta.
    root.append(alpha, &mut app.tree);
    root.append(beta, &mut app.tree);
    app.root_id = Some(root);
    app.active_node_id = Some(root);
    app.mode = AppMode::Search { query: "x".to_string() };
    execute_action(Action::ConfirmSearch, &mut app);
    assert_eq!(app.search_results, vec![beta, alpha]);
    assert_eq!(app.active_node_id, Some(beta));
    assert_eq!(app.message, Some("Found 2 results".to_string()));
}

#[test]
fn deleting_the_root_with_children_is_refused_with_a_message() {
    let mut app = create_test_app();
    let root = app.root_id.unwrap();
    app.active_node_id = Some(root);
    let count = app.tree.count();
    assert!(action_ready(Action::DeleteNode, &app));
    execute_action(Action::DeleteNode, &mut app);
    assert_eq!(app.tree.count(), count);
    assert_eq!(root.children(&app.tree).count(), 2);
    assert_eq!(app.message, Some("Cannot delete root node".to_string()));
    assert!(app.history.is_empty());
}

#[test]
fn ranks_written_are_read_back_and_other_digits_count_as_none() {
    let mut app = create_test_app();
    let root = app.root_id.unwrap();
    execute_action(Action::IncreasePositiveRank, &mut app);
    execute_action(Action::IncreaseNegativeRank, &mut app);
    execute_action(Action::IncreasePositiveRank, &mut app);
    assert_eq!(app.tree.get(root).unwrap().get().title, "(2+,1-) Root");
    // An Arabic-Indic three is a decimal digit to the pattern, but not to
    // the number parser: the rank is replaced and counts from zero.
    app.tree.get_mut(root).unwrap().get_mut().title = "(\u{663}+,0-) Root".to_string();
    execute_action(Action::IncreasePositiveRank, &mut app);
    assert_eq!(app.tree.get(root).unwrap().get().title, "(1+,0-) Root");
}

#[test]
fn actions_that_do_not_read_the_active_node_run_after_it_is_undone() {
    let mut app = AppState::new(AppConfig::default());
    let root = app.tree.new_node(Node::new("Root".to_string()));
    app.root_id = Some(root);
    app.active_node_id = Some(root);
    execute_action(Action::InsertChild, &mut app);
    execute_action(Action::CancelEdit, &mut app);
    let child = app.active_node_id.unwrap();
    assert_ne!(child, root);
    execute_action(Action::Undo, &mut app);
    // The restored tree no longer holds the active node.
    assert!(app.tree.get(child).is_none());
    assert_eq!(app.active_node_id, Some(child));
    assert!(!action_ready(Action::GoUp, &app));
    assert!(action_ready(Action::Redo, &app));
    assert!(action_ready(Action::Quit, &app));
    // Only the trees before changes are recorded, so there is nothing to
    // redo here.
    execute_action(Action::Redo, &mut app);
    assert!(app.tree.get(child).is_none());
    execute_action(Action::ToggleCollapse, &mut app);
    execute_action(Action::ForceQuit, &mut app);
    assert!(!app.running);
}

#[test]
fn deleting_a_parentless_node_leaves_its_children_parentless() {
    let mut app = AppState::new(AppConfig::default());
    let root = app.tree.new_node(Node::new("Root".to_string()));
    app.root_id = Some(root);
    app.active_node_id = Some(root);
    // A sibling of the root is a new node on its own.
    execute_action(Action::InsertSibling, &mut app);
    execute_action(Action::CancelEdit, &mut app);
    let lone = app.active_node_id.unwrap();
    assert!(lone.parent(&app.tree).is_none());
    execute_action(Action::InsertChild, &mut app);
    execute_action(Action::CancelEdit, &mut app);
    let a = app.active_node_id.unwrap();
    app.active_node_id = Some(lone);
    execute_action(Action::InsertChild, &mut app);
    execute_action(Action::CancelEdit, &mut app);
    let b = app.active_node_id.unwrap();
    app.active_node_id = Some(lone);
    assert!(action_ready(Action::DeleteNode, &app));
    execute_action(Action::DeleteNode, &mut app);
    assert!(app.tree.get(lone).is_none());
    assert!(app.tree.get(a).unwrap().parent().is_none());
    assert!(app.tree.get(b).unwrap().parent().is_none());
    assert_eq!(app.active_node_id, Some(lone));
    assert_eq!(app.clipboard, Some("NEW\n\tNEW\n\tNEW\n".to_string()));
}
