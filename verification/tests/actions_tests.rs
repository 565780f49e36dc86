use hmm_rs::actions::clipboard::{paste_as_children, paste_as_siblings, yank_children, yank_node};
use hmm_rs::actions::editing::{
    backspace, cancel_edit, confirm_edit, move_cursor_end, move_cursor_home, move_cursor_left, move_cursor_right,
    start_editing, type_char,
};
use hmm_rs::actions::file::export_text;
use hmm_rs::actions::formatting::{add_star, remove_star, toggle_hide, toggle_symbol};
use hmm_rs::actions::help::{close_help, show_help};
use hmm_rs::actions::history::{redo, undo};
use hmm_rs::actions::movement::{go_down, go_left, go_right, go_to_bottom, go_to_root, go_up};
use hmm_rs::actions::node::{delete_children, delete_node, insert_child, insert_sibling, move_node_down, move_node_up};
use hmm_rs::actions::rank::{decrease_negative_rank, decrease_positive_rank, increase_negative_rank, increase_positive_rank};
use hmm_rs::actions::search::{confirm_search, start_search, type_search_char};
use hmm_rs::actions::view::{collapse_all, collapse_children, collapse_other_branches, expand_all, toggle_collapse};
use hmm_rs::actions::{execute_action, Action};
use hmm_rs::app::{AppMode, AppState};
use hmm_rs::config::AppConfig;
use hmm_rs::model::Node;

fn create_test_app() -> AppState {
    let config = AppConfig::default();
    let mut app = AppState::new(config);

    let root = app.tree.new_node(Node::new("Root".to_string()));
    let child1 = app.tree.new_node(Node::new("Child 1".to_string()));
    let child2 = app.tree.new_node(Node::new("Child 2".to_string()));
    let grandchild = app.tree.new_node(Node::new("Grandchild".to_string()));

    root.append(child1, &mut app.tree);
    root.append(child2, &mut app.tree);
    child2.append(grandchild, &mut app.tree);

    app.root_id = Some(root);
    app.active_node_id = Some(root);

    app
}

fn title_of(app: &AppState, id: indextree::NodeId) -> String {
    app.tree.get(id).unwrap().get().title.clone()
}

#[test]
fn test_quit_action() {
    let mut app = create_test_app();
    assert!(app.running);

    execute_action(Action::Quit, &mut app);
    assert!(!app.running);
}

#[test]
fn test_force_quit_action() {
    let mut app = create_test_app();
    app.filename = Some("test.hmm".to_string());
    assert!(app.running);

    execute_action(Action::ForceQuit, &mut app);
    assert!(!app.running);
}

#[test]
fn test_movement_go_up() {
    let mut app = create_test_app();
    let root = app.root_id.unwrap();
    let child1 = root.children(&app.tree).next().unwrap();
    let child2 = root.children(&app.tree).nth(1).unwrap();

    app.active_node_id = Some(child2);
    go_up(&mut app);
    assert_eq!(app.active_node_id, Some(child1));
}

#[test]
fn actions_test_movement_go_left() {
    let mut app = create_test_app();
    let root = app.root_id.unwrap();
    let child1 = root.children(&app.tree).next().unwrap();

    app.active_node_id = Some(child1);
    go_left(&mut app);
    assert_eq!(app.active_node_id, Some(root));
}

#[test]
fn actions_test_movement_go_right() {
    let mut app = create_test_app();
    let root = app.root_id.unwrap();
    let child1 = root.children(&app.tree).next().unwrap();

    app.tree.get_mut(root).unwrap().get_mut().is_collapsed = false;

    go_right(&mut app);
    assert_eq!(app.active_node_id, Some(child1));
}

#[test]
fn actions_test_movement_go_to_root() {
    let mut app = create_test_app();
    let root = app.root_id.unwrap();
    let child1 = root.children(&app.tree).next().unwrap();

    app.active_node_id = Some(child1);
    go_to_root(&mut app);
    assert_eq!(app.active_node_id, Some(root));
}

#[test]
fn actions_test_insert_child() {
    let mut app = create_test_app();
    let root = app.root_id.unwrap();
    let initial_children_count = root.children(&app.tree).count();

    insert_child(&mut app);

    let new_children_count = root.children(&app.tree).count();
    assert_eq!(new_children_count, initial_children_count + 1);
    assert!(matches!(app.mode, AppMode::Editing { .. }));
}

#[test]
fn actions_test_insert_sibling() {
    let mut app = create_test_app();
    let root = app.root_id.unwrap();
    let child1 = root.children(&app.tree).next().unwrap();

    app.active_node_id = Some(child1);
    let initial_children_count = root.children(&app.tree).count();

    insert_sibling(&mut app);

    let new_children_count = root.children(&app.tree).count();
    assert_eq!(new_children_count, initial_children_count + 1);
    assert!(matches!(app.mode, AppMode::Editing { .. }));
}

#[test]
fn actions_test_delete_node() {
    let mut app = create_test_app();
    let root = app.root_id.unwrap();
    let child1 = root.children(&app.tree).next().unwrap();

    app.active_node_id = Some(child1);
    let child1_id = child1;

    delete_node(&mut app);

    if let Some(node_ref) = app.tree.get(child1_id) {
        assert!(node_ref.is_removed(), "Node should be marked as removed");
    }
    assert_ne!(app.active_node_id, Some(child1_id));
    if let Some(active_id) = app.active_node_id {
        let active_node = app.tree.get(active_id).expect("Active node should exist");
        assert!(!active_node.is_removed(), "Active node should not be removed");
    }
    assert!(app.clipboard.is_some());
    let remaining_children: Vec<_> = root.children(&app.tree).collect();
    assert!(!remaining_children.contains(&child1_id), "Child1 should not be in root's children");
    assert_eq!(remaining_children.len(), 1);
}

#[test]
fn actions_test_delete_root_node_fails() {
    let mut app = create_test_app();
    let initial_count = app.tree.count();

    delete_node(&mut app);

    assert_eq!(app.tree.count(), initial_count);
    assert!(app.message.is_some());
}

#[test]
fn actions_test_toggle_collapse() {
    let mut app = create_test_app();
    let root = app.root_id.unwrap();

    let initial_state = app.tree.get(root).unwrap().get().is_collapsed;
    toggle_collapse(&mut app);
    let new_state = app.tree.get(root).unwrap().get().is_collapsed;

    assert_ne!(initial_state, new_state);
}

#[test]
fn actions_test_collapse_all() {
    let mut app = create_test_app();

    collapse_all(&mut app);

    for node in app.tree.iter() {
        assert!(node.get().is_collapsed);
    }
}

#[test]
fn actions_test_expand_all() {
    let mut app = create_test_app();

    collapse_all(&mut app);
    expand_all(&mut app);

    for node in app.tree.iter() {
        assert!(!node.get().is_collapsed);
    }
}

#[test]
fn actions_test_edit_mode_type_char() {
    let mut app = create_test_app();
    start_editing(&mut app, true);

    type_char(&mut app, 'T');
    type_char(&mut app, 'e');
    type_char(&mut app, 's');
    type_char(&mut app, 't');

    if let AppMode::Editing { buffer, .. } = &app.mode {
        assert_eq!(buffer, "Test");
    } else {
        panic!("Should be in editing mode");
    }
}

#[test]
fn actions_test_edit_mode_backspace() {
    let mut app = create_test_app();
    start_editing(&mut app, true);

    type_char(&mut app, 'T');
    type_char(&mut app, 'e');
    type_char(&mut app, 's');
    type_char(&mut app, 't');
    backspace(&mut app);

    if let AppMode::Editing { buffer, .. } = &app.mode {
        assert_eq!(buffer, "Tes");
    } else {
        panic!("Should be in editing mode");
    }
}

#[test]
fn actions_test_edit_mode_cursor_movement() {
    let mut app = create_test_app();
    start_editing(&mut app, true);

    type_char(&mut app, 'T');
    type_char(&mut app, 'e');
    type_char(&mut app, 's');
    type_char(&mut app, 't');

    move_cursor_home(&mut app);
    if let AppMode::Editing { cursor_pos, .. } = &app.mode {
        assert_eq!(*cursor_pos, 0);
    }

    move_cursor_end(&mut app);
    if let AppMode::Editing { cursor_pos, .. } = &app.mode {
        assert_eq!(*cursor_pos, 4);
    }

    move_cursor_left(&mut app);
    if let AppMode::Editing { cursor_pos, .. } = &app.mode {
        assert_eq!(*cursor_pos, 3);
    }

    move_cursor_right(&mut app);
    if let AppMode::Editing { cursor_pos, .. } = &app.mode {
        assert_eq!(*cursor_pos, 4);
    }
}

#[test]
fn actions_test_edit_confirm() {
    let mut app = create_test_app();
    let root = app.root_id.unwrap();

    start_editing(&mut app, true);
    type_char(&mut app, 'N');
    type_char(&mut app, 'e');
    type_char(&mut app, 'w');
    confirm_edit(&mut app);

    assert_eq!(title_of(&app, root), "New");
    assert!(matches!(app.mode, AppMode::Normal));
}

#[test]
fn actions_test_edit_cancel() {
    let mut app = create_test_app();
    let root = app.root_id.unwrap();
    let title_before = title_of(&app, root);

    start_editing(&mut app, true);
    type_char(&mut app, 'N');
    type_char(&mut app, 'e');
    type_char(&mut app, 'w');
    cancel_edit(&mut app);

    assert_eq!(title_of(&app, root), title_before);
    assert!(matches!(app.mode, AppMode::Normal));
}

#[test]
fn actions_test_search_mode() {
    let mut app = create_test_app();

    start_search(&mut app);
    assert!(matches!(app.mode, AppMode::Search { .. }));

    type_search_char(&mut app, 'C');
    type_search_char(&mut app, 'h');
    type_search_char(&mut app, 'i');

    if let AppMode::Search { query } = &app.mode {
        assert_eq!(query, "Chi");
    }

    confirm_search(&mut app);
    assert!(matches!(app.mode, AppMode::Normal));
    assert!(!app.search_results.is_empty());
}

#[test]
fn actions_test_toggle_hide() {
    let mut app = create_test_app();
    let root = app.root_id.unwrap();

    toggle_hide(&mut app);
    assert!(title_of(&app, root).starts_with("[HIDDEN] "));

    toggle_hide(&mut app);
    assert!(!title_of(&app, root).starts_with("[HIDDEN] "));
}

#[test]
fn actions_test_toggle_symbol() {
    let mut app = create_test_app();
    let root = app.root_id.unwrap();
    let title_before = title_of(&app, root);

    toggle_symbol(&mut app);
    let title_with_sym1 = title_of(&app, root);
    assert!(title_with_sym1.starts_with(&app.config.symbol1));

    toggle_symbol(&mut app);
    let title_with_sym2 = title_of(&app, root);
    assert!(title_with_sym2.starts_with(&app.config.symbol2));

    toggle_symbol(&mut app);
    let title_without_sym = title_of(&app, root);
    assert_eq!(title_without_sym, title_before);
}

#[test]
fn actions_test_undo_redo() {
    let mut app = create_test_app();

    let initial_title = title_of(&app, app.root_id.unwrap());
    assert_eq!(initial_title, "Root");

    app.push_history();

    let root = app.root_id.unwrap();
    app.tree.get_mut(root).unwrap().get_mut().title = "Modified".to_string();
    app.push_history();

    app.tree.get_mut(root).unwrap().get_mut().title = "Modified2".to_string();
    assert_eq!(title_of(&app, root), "Modified2");

    undo(&mut app);
    assert_eq!(title_of(&app, root), "Modified");

    undo(&mut app);
    assert_eq!(title_of(&app, root), "Root");

    redo(&mut app);
    assert_eq!(title_of(&app, root), "Modified");

    redo(&mut app);
    assert!(app.message.is_some());
    assert_eq!(title_of(&app, root), "Modified");
}

#[test]
fn actions_test_help_mode() {
    let mut app = create_test_app();

    show_help(&mut app);
    assert!(matches!(app.mode, AppMode::Help));

    close_help(&mut app);
    assert!(matches!(app.mode, AppMode::Normal));
}

#[test]
fn actions_test_yank_node() {
    let mut app = create_test_app();

    yank_node(&mut app);
    assert!(app.clipboard.is_some());
    assert!(app.message.is_some());
}

#[test]
fn actions_test_delete_children() {
    let mut app = create_test_app();
    let root = app.root_id.unwrap();

    let initial_children: Vec<_> = root.children(&app.tree).collect();
    assert_eq!(initial_children.len(), 2);

    app.active_node_id = Some(root);

    delete_children(&mut app);

    for child_id in initial_children {
        if let Some(node) = app.tree.get(child_id) {
            assert!(node.is_removed(), "Child {:?} should be marked as removed", child_id);
        }
    }

    assert!(app.tree.get(root).is_some());
    assert!(!app.tree.get(root).unwrap().is_removed());
    assert_eq!(app.active_node_id, Some(root));
}

#[test]
fn actions_test_move_node_up() {
    let mut app = create_test_app();
    let root = app.root_id.unwrap();
    let children: Vec<_> = root.children(&app.tree).collect();
    let child2 = children[1];

    app.active_node_id = Some(child2);

    move_node_up(&mut app);

    let new_children: Vec<_> = root.children(&app.tree).collect();
    assert_eq!(new_children[0], child2);
    assert_eq!(new_children[1], children[0]);
}

#[test]
fn actions_test_move_node_down() {
    let mut app = create_test_app();
    let root = app.root_id.unwrap();
    let children: Vec<_> = root.children(&app.tree).collect();
    let child1 = children[0];

    app.active_node_id = Some(child1);

    move_node_down(&mut app);

    let new_children: Vec<_> = root.children(&app.tree).collect();
    assert_eq!(new_children[0], children[1]);
    assert_eq!(new_children[1], child1);
}

#[test]
fn actions_test_export_text() {
    let mut app = create_test_app();
    let root = app.root_id.unwrap();

    let children: Vec<_> = root.children(&app.tree).collect();
    let child2 = children[1];
    app.tree.get_mut(child2).unwrap().get_mut().is_collapsed = true;

    export_text(&mut app);

    assert!(app.clipboard.is_some());
    let exported = app.clipboard.as_ref().unwrap();

    assert!(exported.contains("Root"));
    assert!(exported.contains("Child 1"));
    assert!(exported.contains("Child 2"));
    assert!(!exported.contains("Grandchild"));
}

#[test]
fn actions_test_paste_as_children() {
    let mut app = create_test_app();
    let root = app.root_id.unwrap();

    app.clipboard = Some("New Node 1\n\tSubnode 1\n\tSubnode 2\nNew Node 2".to_string());

    paste_as_children(&mut app);

    let children: Vec<_> = root.children(&app.tree).collect();
    assert!(children.len() > 2);

    let mut found_new_node1 = false;
    let mut found_new_node2 = false;
    for child in root.children(&app.tree) {
        let node = app.tree.get(child).unwrap().get();
        if node.title == "New Node 1" {
            found_new_node1 = true;
            let subnodes: Vec<_> = child.children(&app.tree).collect();
            assert_eq!(subnodes.len(), 2);
        }
        if node.title == "New Node 2" {
            found_new_node2 = true;
        }
    }
    assert!(found_new_node1);
    assert!(found_new_node2);
}

#[test]
fn actions_test_paste_as_siblings() {
    let mut app = create_test_app();
    let root = app.root_id.unwrap();
    let child1 = root.children(&app.tree).next().unwrap();

    app.active_node_id = Some(child1);
    app.clipboard = Some("Sibling 1\nSibling 2".to_string());

    paste_as_siblings(&mut app);

    let children: Vec<_> = root.children(&app.tree).collect();
    assert!(children.len() >= 4);

    let mut found_sibling1 = false;
    let mut found_sibling2 = false;
    for child in root.children(&app.tree) {
        let node = app.tree.get(child).unwrap().get();
        if node.title == "Sibling 1" {
            found_sibling1 = true;
        }
        if node.title == "Sibling 2" {
            found_sibling2 = true;
        }
    }
    assert!(found_sibling1);
    assert!(found_sibling2);
}

#[test]
fn test_rank_operations() {
    let mut app = create_test_app();
    let root = app.root_id.unwrap();
    app.active_node_id = Some(root);

    increase_positive_rank(&mut app);
    assert!(title_of(&app, root).starts_with("(1+,0-) "));

    increase_negative_rank(&mut app);
    assert!(title_of(&app, root).starts_with("(1+,1-) "));

    decrease_positive_rank(&mut app);
    assert!(title_of(&app, root).starts_with("(0+,1-) "));

    decrease_negative_rank(&mut app);
    let title = title_of(&app, root);
    assert!(!title.contains('+'));
    assert!(!title.contains('-'));
}

#[test]
fn test_star_operations() {
    let mut app = create_test_app();
    let root = app.root_id.unwrap();
    app.active_node_id = Some(root);

    add_star(&mut app);
    let title = title_of(&app, root);
    assert!(title.contains('★'));
    assert!(title.contains("☆☆☆☆"));

    add_star(&mut app);
    add_star(&mut app);
    let title = title_of(&app, root);
    assert!(title.contains("★★★"));
    assert!(title.contains("☆☆"));

    add_star(&mut app);
    add_star(&mut app);
    add_star(&mut app);
    let title = title_of(&app, root);
    assert!(title.contains("★★★★★"));
    assert!(!title.contains('☆'));

    remove_star(&mut app);
    let title = title_of(&app, root);
    assert!(title.contains("★★★★"));
    assert!(title.contains('☆'));
}

#[test]
fn actions_test_go_to_bottom() {
    let mut app = create_test_app();
    let root = app.root_id.unwrap();

    expand_all(&mut app);

    go_to_bottom(&mut app);

    let child2 = root.children(&app.tree).nth(1).unwrap();
    let grandchild = child2.children(&app.tree).next().unwrap();
    assert_eq!(app.active_node_id, Some(grandchild));
}

#[test]
fn actions_test_collapse_children() {
    let mut app = create_test_app();
    let root = app.root_id.unwrap();

    let children: Vec<_> = root.children(&app.tree).collect();
    for child_id in &children {
        app.tree.get_mut(*child_id).unwrap().get_mut().is_collapsed = false;
    }

    collapse_children(&mut app);

    for child_id in root.children(&app.tree) {
        let child = app.tree.get(child_id).unwrap().get();
        assert!(child.is_collapsed);
    }

    assert!(!app.tree.get(root).unwrap().get().is_collapsed);
}

#[test]
fn actions_test_collapse_other_branches() {
    let mut app = create_test_app();
    let root = app.root_id.unwrap();
    let child1 = root.children(&app.tree).next().unwrap();

    app.active_node_id = Some(child1);

    expand_all(&mut app);

    collapse_other_branches(&mut app);

    assert!(!app.tree.get(child1).unwrap().get().is_collapsed);
    assert!(!app.tree.get(root).unwrap().get().is_collapsed);

    let child2 = root.children(&app.tree).nth(1).unwrap();
    assert!(app.tree.get(child2).unwrap().get().is_collapsed);
}

#[test]
fn actions_test_yank_children() {
    let mut app = create_test_app();

    yank_children(&mut app);

    assert!(app.clipboard.is_some());
    let clipboard = app.clipboard.as_ref().unwrap();
    assert!(clipboard.contains("Child 1"));
    assert!(clipboard.contains("Child 2"));
    assert!(!clipboard.contains("Root"));
}

#[test]
fn spatial_go_down_from_root_leaves_it() {
    let mut app = create_test_app();
    let root = app.root_id.unwrap();
    assert!(go_down(&mut app));
    assert_ne!(app.active_node_id, Some(root));
}

