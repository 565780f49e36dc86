use hmm_rs::actions::file::export_text;
use hmm_rs::actions::formatting::{
    decrease_line_spacing, increase_line_spacing, toggle_hide, toggle_show_hidden, toggle_symbol,
};
use hmm_rs::actions::help::{close_help, show_help};
use hmm_rs::actions::history::{redo, undo};
use hmm_rs::actions::movement::{go_down, go_left, go_right, go_to_bottom, go_to_root, go_to_top, go_up};
use hmm_rs::actions::node::{delete_children, delete_node, insert_child, insert_sibling, move_node_down, move_node_up};
use hmm_rs::actions::search::{confirm_search, start_search, type_search_char};
use hmm_rs::actions::view::{
    collapse_all, collapse_children, collapse_other_branches, expand_all, toggle_center_lock, toggle_collapse,
    toggle_focus_lock,
};
use hmm_rs::app::{AppMode, AppState};
use hmm_rs::config::AppConfig;
use hmm_rs::model::Node;

fn create_test_app() -> AppState {
    let config = AppConfig::default();
    let mut app = AppState::new(config);

    let root = app.tree.new_node(Node::new("Root".to_string()));
    let child1 = app.tree.new_node(Node::new("Child 1".to_string()));
    let child2 = app.tree.new_node(Node::new("Child 2".to_string()));
    let grandchild = app.tree.new_node(Node::new("Grandchild".to_string()));

    root.append(child1, &mut app.tree);
    root.append(child2, &mut app.tree);
    child2.append(grandchild, &mut app.tree);

    app.root_id = Some(root);
    app.active_node_id = Some(root);

    app
}

fn create_single_node_app() -> AppState {
    let config = AppConfig::default();
    let mut app = AppState::new(config);

    let root = app.tree.new_node(Node::new("Root".to_string()));
    app.root_id = Some(root);
    app.active_node_id = Some(root);

    app
}

fn title_of(app: &AppState, id: indextree::NodeId) -> String {
    app.tree.get(id).unwrap().get().title.clone()
}

// file

#[test]
fn file_test_export_text() {
    let mut app = create_test_app();
    let root = app.root_id.unwrap();

    let children: Vec<_> = root.children(&app.tree).collect();
    let child2 = children[1];
    app.tree.get_mut(child2).unwrap().get_mut().is_collapsed = true;

    export_text(&mut app);

    assert!(app.clipboard.is_some());
    let exported = app.clipboard.as_ref().unwrap();

    assert!(exported.contains("Root"));
    assert!(exported.contains("Child 1"));
    assert!(exported.contains("Child 2"));
    assert!(!exported.contains("Grandchild"));
}

// formatting

#[test]
fn formatting_test_toggle_hide() {
    let mut app = create_single_node_app();
    let root = app.root_id.unwrap();

    toggle_hide(&mut app);
    assert!(title_of(&app, root).starts_with("[HIDDEN] "));

    toggle_hide(&mut app);
    assert!(!title_of(&app, root).starts_with("[HIDDEN] "));
}

#[test]
fn formatting_test_toggle_symbol() {
    let mut app = create_single_node_app();
    let root = app.root_id.unwrap();
    let title_before = title_of(&app, root);

    toggle_symbol(&mut app);
    let title_with_sym1 = title_of(&app, root);
    assert!(title_with_sym1.starts_with(&app.config.symbol1));

    toggle_symbol(&mut app);
    let title_with_sym2 = title_of(&app, root);
    assert!(title_with_sym2.starts_with(&app.config.symbol2));

    toggle_symbol(&mut app);
    let title_without_sym = title_of(&app, root);
    assert_eq!(title_without_sym, title_before);
}

#[test]
fn test_toggle_show_hidden() {
    let mut app = create_single_node_app();

    let initial_show_hidden = app.config.show_hidden;
    toggle_show_hidden(&mut app);
    assert_ne!(app.config.show_hidden, initial_show_hidden);
}

// help

#[test]
fn help_test_help_mode() {
    let mut app = AppState::new(AppConfig::default());

    show_help(&mut app);
    assert!(matches!(app.mode, AppMode::Help));

    close_help(&mut app);
    assert!(matches!(app.mode, AppMode::Normal));
}

// history

#[test]
fn history_test_undo_redo() {
    let mut app = create_single_node_app();

    let initial_title = title_of(&app, app.root_id.unwrap());
    assert_eq!(initial_title, "Root");

    app.push_history();

    let root = app.root_id.unwrap();
    app.tree.get_mut(root).unwrap().get_mut().title = "Modified".to_string();
    app.push_history();

    app.tree.get_mut(root).unwrap().get_mut().title = "Modified2".to_string();
    assert_eq!(title_of(&app, root), "Modified2");

    undo(&mut app);
    assert_eq!(title_of(&app, root), "Modified");

    undo(&mut app);
    assert_eq!(title_of(&app, root), "Root");

    redo(&mut app);
    assert_eq!(title_of(&app, root), "Modified");

    redo(&mut app);
    assert!(app.message.is_some());
    assert_eq!(title_of(&app, root), "Modified");
}

// movement

#[test]
fn test_spatial_movement_go_down() {
    let mut app = create_test_app();
    let root = app.root_id.unwrap();

    go_down(&mut app);

    assert_ne!(app.active_node_id, Some(root));
    assert!(app.active_node_id.is_some());
}

#[test]
fn test_spatial_movement_go_up() {
    let mut app = create_test_app();
    let root = app.root_id.unwrap();
    let _child1 = root.children(&app.tree).next().unwrap();
    let child2 = root.children(&app.tree).nth(1).unwrap();

    app.active_node_id = Some(child2);

    go_up(&mut app);

    assert_ne!(app.active_node_id, Some(child2));
}

#[test]
fn test_spatial_movement_siblings() {
    let mut app = create_test_app();
    let root = app.root_id.unwrap();
    let child1 = root.children(&app.tree).next().unwrap();
    let child2 = root.children(&app.tree).nth(1).unwrap();

    app.active_node_id = Some(child1);

    go_down(&mut app);
    assert_eq!(app.active_node_id, Some(child2));

    go_up(&mut app);
    assert_eq!(app.active_node_id, Some(child1));
}

#[test]
fn movement_test_movement_go_left() {
    let mut app = create_test_app();
    let root = app.root_id.unwrap();
    let child1 = root.children(&app.tree).next().unwrap();

    app.active_node_id = Some(child1);
    go_left(&mut app);
    assert_eq!(app.active_node_id, Some(root));
}

#[test]
fn movement_test_movement_go_right() {
    let mut app = create_test_app();
    let root = app.root_id.unwrap();

    go_right(&mut app);

    assert_ne!(app.active_node_id, Some(root));
    let is_child = root.children(&app.tree).any(|c| Some(c) == app.active_node_id);
    assert!(is_child, "Should move to a child node");
}

#[test]
fn test_movement_go_right_auto_expand() {
    let mut app = create_test_app();
    let root = app.root_id.unwrap();

    app.tree.get_mut(root).unwrap().get_mut().is_collapsed = true;

    go_right(&mut app);

    assert!(!app.tree.get(root).unwrap().get().is_collapsed);

    let is_child = root.children(&app.tree).any(|c| Some(c) == app.active_node_id);
    assert!(is_child, "Should move to a child after auto-expand");
}

#[test]
fn movement_test_movement_go_to_root() {
    let mut app = create_test_app();
    let root = app.root_id.unwrap();
    let child1 = root.children(&app.tree).next().unwrap();

    app.active_node_id = Some(child1);
    go_to_root(&mut app);
    assert_eq!(app.active_node_id, Some(root));
}

#[test]
fn movement_test_go_to_top() {
    let mut app = create_test_app();
    let root = app.root_id.unwrap();
    let child2 = root.children(&app.tree).nth(1).unwrap();

    app.active_node_id = Some(child2);

    // The viewport lives with the front end: a found top node asks it to
    // scroll to the top left corner.
    let scroll_home = go_to_top(&mut app);

    assert!(app.active_node_id.is_some());
    assert!(scroll_home);
}

#[test]
fn movement_test_go_to_bottom() {
    let mut app = create_test_app();

    for node in app.tree.iter_mut() {
        node.get_mut().is_collapsed = false;
    }

    go_to_bottom(&mut app);

    assert!(app.active_node_id.is_some());
}

// node

#[test]
fn node_test_insert_child() {
    let mut app = create_test_app();
    let root = app.root_id.unwrap();
    let initial_children_count = root.children(&app.tree).count();

    insert_child(&mut app);

    let new_children_count = root.children(&app.tree).count();
    assert_eq!(new_children_count, initial_children_count + 1);
    assert!(matches!(app.mode, AppMode::Editing { .. }));
}

#[test]
fn node_test_insert_sibling() {
    let mut app = create_test_app();
    let root = app.root_id.unwrap();
    let child1 = root.children(&app.tree).next().unwrap();

    app.active_node_id = Some(child1);
    let initial_children_count = root.children(&app.tree).count();

    insert_sibling(&mut app);

    let new_children_count = root.children(&app.tree).count();
    assert_eq!(new_children_count, initial_children_count + 1);
    assert!(matches!(app.mode, AppMode::Editing { .. }));
}

#[test]
fn node_test_delete_node() {
    let mut app = create_test_app();
    let root = app.root_id.unwrap();
    let child1 = root.children(&app.tree).next().unwrap();

    app.active_node_id = Some(child1);
    let child1_id = child1;

    delete_node(&mut app);

    if let Some(node_ref) = app.tree.get(child1_id) {
        assert!(node_ref.is_removed(), "Node should be marked as removed");
    }
    assert_ne!(app.active_node_id, Some(child1_id));
    if let Some(active_id) = app.active_node_id {
        let active_node = app.tree.get(active_id).expect("Active node should exist");
        assert!(!active_node.is_removed(), "Active node should not be removed");
    }
    assert!(app.clipboard.is_some());
    let remaining_children: Vec<_> = root.children(&app.tree).collect();
    assert!(!remaining_children.contains(&child1_id), "Child1 should not be in root's children");
    assert_eq!(remaining_children.len(), 1);
}

#[test]
fn node_test_delete_root_node_fails() {
    let mut app = create_test_app();
    let initial_count = app.tree.count();

    delete_node(&mut app);

    assert_eq!(app.tree.count(), initial_count);
    assert!(app.message.is_some());
}

#[test]
fn node_test_delete_children() {
    let mut app = create_test_app();
    let root = app.root_id.unwrap();

    let initial_children: Vec<_> = root.children(&app.tree).collect();
    assert_eq!(initial_children.len(), 2);

    app.active_node_id = Some(root);

    delete_children(&mut app);

    for child_id in initial_children {
        if let Some(node) = app.tree.get(child_id) {
            assert!(node.is_removed(), "Child {:?} should be marked as removed", child_id);
        }
    }

    assert!(app.tree.get(root).is_some());
    assert!(!app.tree.get(root).unwrap().is_removed());
    assert_eq!(app.active_node_id, Some(root));
}

#[test]
fn node_test_move_node_up() {
    let mut app = create_test_app();
    let root = app.root_id.unwrap();
    let children: Vec<_> = root.children(&app.tree).collect();
    let child2 = children[1];

    app.active_node_id = Some(child2);

    move_node_up(&mut app);

    let new_children: Vec<_> = root.children(&app.tree).collect();
    assert_eq!(new_children[0], child2);
    assert_eq!(new_children[1], children[0]);
}

#[test]
fn node_test_move_node_down() {
    let mut app = create_test_app();
    let root = app.root_id.unwrap();
    let children: Vec<_> = root.children(&app.tree).collect();
    let child1 = children[0];

    app.active_node_id = Some(child1);

    move_node_down(&mut app);

    let new_children: Vec<_> = root.children(&app.tree).collect();
    assert_eq!(new_children[0], children[1]);
    assert_eq!(new_children[1], child1);
}

// search

#[test]
fn search_test_search_mode() {
    let config = AppConfig::default();
    let mut app = AppState::new(config);
    let root = app.tree.new_node(Node::new("Root".to_string()));
    let child1 = app.tree.new_node(Node::new("Child 1".to_string()));
    let child2 = app.tree.new_node(Node::new("Child 2".to_string()));
    root.append(child1, &mut app.tree);
    root.append(child2, &mut app.tree);
    app.root_id = Some(root);
    app.active_node_id = Some(root);

    start_search(&mut app);
    assert!(matches!(app.mode, AppMode::Search { .. }));

    type_search_char(&mut app, 'C');
    type_search_char(&mut app, 'h');
    type_search_char(&mut app, 'i');

    if let AppMode::Search { query } = &app.mode {
        assert_eq!(query, "Chi");
    }

    confirm_search(&mut app);
    assert!(matches!(app.mode, AppMode::Normal));
    assert!(!app.search_results.is_empty());
}

// view

#[test]
fn view_test_toggle_collapse() {
    let mut app = create_test_app();
    let root = app.root_id.unwrap();

    let initial_state = app.tree.get(root).unwrap().get().is_collapsed;
    toggle_collapse(&mut app);
    let new_state = app.tree.get(root).unwrap().get().is_collapsed;

    assert_ne!(initial_state, new_state);
}

#[test]
fn view_test_collapse_all() {
    let mut app = create_test_app();

    collapse_all(&mut app);

    for node in app.tree.iter() {
        assert!(node.get().is_collapsed);
    }
}

#[test]
fn view_test_expand_all() {
    let mut app = create_test_app();

    collapse_all(&mut app);
    expand_all(&mut app);

    for node in app.tree.iter() {
        assert!(!node.get().is_collapsed);
    }
}

#[test]
fn view_test_collapse_children() {
    let mut app = create_test_app();
    let root = app.root_id.unwrap();

    let children: Vec<_> = root.children(&app.tree).collect();
    for child_id in &children {
        app.tree.get_mut(*child_id).unwrap().get_mut().is_collapsed = false;
    }

    collapse_children(&mut app);

    for child_id in root.children(&app.tree) {
        let child = app.tree.get(child_id).unwrap().get();
        assert!(child.is_collapsed);
    }

    assert!(!app.tree.get(root).unwrap().get().is_collapsed);
}

#[test]
fn view_test_collapse_other_branches() {
    let mut app = create_test_app();
    let root = app.root_id.unwrap();
    let child1 = root.children(&app.tree).next().unwrap();

    app.active_node_id = Some(child1);

    expand_all(&mut app);

    collapse_other_branches(&mut app);

    assert!(!app.tree.get(child1).unwrap().get().is_collapsed);
    assert!(!app.tree.get(root).unwrap().get().is_collapsed);

    let child2 = root.children(&app.tree).nth(1).unwrap();
    assert!(app.tree.get(child2).unwrap().get().is_collapsed);
}

#[test]
fn view_test_toggle_settings() {
    let mut app = create_test_app();

    let initial_center_lock = app.config.center_lock;
    toggle_center_lock(&mut app);
    assert_ne!(app.config.center_lock, initial_center_lock);

    let initial_focus_lock = app.config.focus_lock;
    toggle_focus_lock(&mut app);
    assert_ne!(app.config.focus_lock, initial_focus_lock);
}

// Own tests.

#[test]
fn line_spacing_goes_up_and_back_down() {
    let mut app = create_single_node_app();
    let initial_spacing = app.config.line_spacing;

    increase_line_spacing(&mut app);
    assert_eq!(app.config.line_spacing, initial_spacing + 1);
    assert_eq!(app.message.clone().unwrap(), format!("Line spacing: {}", initial_spacing + 1));

    decrease_line_spacing(&mut app);
    assert_eq!(app.config.line_spacing, initial_spacing);

    app.config.line_spacing = 0;
    decrease_line_spacing(&mut app);
    assert_eq!(app.config.line_spacing, 0);
}

#[test]
fn hide_twice_restores_the_title() {
    let mut app = create_single_node_app();
    let root = app.root_id.unwrap();
    toggle_hide(&mut app);
    assert_eq!(title_of(&app, root), "[HIDDEN] Root");
    assert_eq!(app.message.as_deref(), Some("Node hidden"));
    toggle_hide(&mut app);
    assert_eq!(title_of(&app, root), "Root");
    assert_eq!(app.message.as_deref(), Some("Node unhidden"));
}

#[test]
fn move_up_then_down_restores_the_order() {
    let mut app = create_test_app();
    let root = app.root_id.unwrap();
    let before: Vec<_> = root.children(&app.tree).collect();
    app.active_node_id = Some(before[1]);
    move_node_up(&mut app);
    move_node_down(&mut app);
    let after: Vec<_> = root.children(&app.tree).collect();
    assert_eq!(before, after);
}

#[test]
fn undo_right_after_a_change_gives_the_recorded_tree() {
    let mut app = create_single_node_app();
    let root = app.root_id.unwrap();
    app.push_history();
    app.tree.get_mut(root).unwrap().get_mut().title = "Changed".to_string();
    undo(&mut app);
    assert_eq!(title_of(&app, root), "Root");
    assert_eq!(app.message.as_deref(), Some("Undone"));
    undo(&mut app);
    assert_eq!(app.message.as_deref(), Some("Nothing to undo"));
}

#[test]
fn history_stays_within_the_limit() {
    let mut app = create_single_node_app();
    app.config.max_undo_steps = 3;
    for _ in 0..10 {
        app.push_history();
    }
    assert_eq!(app.history.len(), 3);
    assert_eq!(app.history_index, 3);
}
