use hmm_rs::actions::{save, save_as};
use hmm_rs::actions::file::{written, WriteKind};
use hmm_rs::parser::parse_hmm_content;
use hmm_rs::outline::map_to_list;
use hmm_rs::{AppConfig, AppState, Node};
use indextree::NodeId;

#[test]
fn test_app_state_initialization() {
    let config = AppConfig::default();
    let mut app = AppState::new(config);

    let root = app.tree.new_node(Node::new("Root".to_string()));
    app.root_id = Some(root);
    app.active_node_id = Some(root);

    assert!(app.running);
    assert_eq!(app.root_id, Some(root));
    assert_eq!(app.active_node_id, Some(root));
}

#[test]
fn test_tree_manipulation() {
    let config = AppConfig::default();
    let mut app = AppState::new(config);

    let root = app.tree.new_node(Node::new("Root".to_string()));
    let child1 = app.tree.new_node(Node::new("Child 1".to_string()));
    let child2 = app.tree.new_node(Node::new("Child 2".to_string()));

    root.append(child1, &mut app.tree);
    root.append(child2, &mut app.tree);

    app.root_id = Some(root);

    let children: Vec<NodeId> = root.children(&app.tree).collect();
    assert_eq!(children.len(), 2);
    assert_eq!(children[0], child1);
    assert_eq!(children[1], child2);
}

#[test]
fn test_history_management() {
    let config = AppConfig::default();
    let mut app = AppState::new(config);

    let root = app.tree.new_node(Node::new("Root".to_string()));
    app.root_id = Some(root);
    app.push_history();

    app.tree.get_mut(root).unwrap().get_mut().title = "Modified".to_string();
    app.push_history();

    assert!(app.history.len() >= 2);
    assert!(app.history_index > 0);

    let initial_index = app.history_index;
    let undo_result = app.undo();
    assert!(undo_result);
    assert!(app.history_index < initial_index);
}

#[test]
fn test_message_system() {
    let config = AppConfig::default();
    let mut app = AppState::new(config);

    app.set_message("Test message".to_string());
    assert_eq!(app.message, Some("Test message".to_string()));

    assert!(app.message.is_some());
}

#[test]
fn test_config_defaults() {
    let config = AppConfig::default();

    assert_eq!(config.max_parent_node_width, 25);
    assert_eq!(config.max_leaf_node_width, 55);
    assert_eq!(config.line_spacing, 1);
    assert!(!config.show_hidden);
    assert!(!config.center_lock);
    assert!(!config.focus_lock);
    assert_eq!(config.max_undo_steps, 24);
}

#[test]
fn test_node_hidden_state() {
    let mut node = Node::new("Test".to_string());
    assert!(!node.is_hidden());

    node.title = "[HIDDEN] Test".to_string();
    assert!(node.is_hidden());

    node.title = "Test".to_string();
    node.is_hidden = true;
    assert!(node.is_hidden());
}

#[test]
fn test_clipboard_functionality() {
    let config = AppConfig::default();
    let mut app = AppState::new(config);

    let clipboard_text = "Node 1\n\tChild 1\n\tChild 2";
    app.clipboard = Some(clipboard_text.to_string());

    assert_eq!(app.clipboard, Some(clipboard_text.to_string()));
}

#[test]
fn test_complex_tree_operations() {
    let config = AppConfig::default();
    let mut app = AppState::new(config);

    let root = app.tree.new_node(Node::new("Project".to_string()));
    let frontend = app.tree.new_node(Node::new("Frontend".to_string()));
    let backend = app.tree.new_node(Node::new("Backend".to_string()));
    let database = app.tree.new_node(Node::new("Database".to_string()));

    let react = app.tree.new_node(Node::new("React".to_string()));
    let vue = app.tree.new_node(Node::new("Vue".to_string()));
    let node = app.tree.new_node(Node::new("Node.js".to_string()));
    let python = app.tree.new_node(Node::new("Python".to_string()));
    let postgres = app.tree.new_node(Node::new("PostgreSQL".to_string()));
    let mongodb = app.tree.new_node(Node::new("MongoDB".to_string()));

    root.append(frontend, &mut app.tree);
    root.append(backend, &mut app.tree);
    root.append(database, &mut app.tree);

    frontend.append(react, &mut app.tree);
    frontend.append(vue, &mut app.tree);
    backend.append(node, &mut app.tree);
    backend.append(python, &mut app.tree);
    database.append(postgres, &mut app.tree);
    database.append(mongodb, &mut app.tree);

    app.root_id = Some(root);
    app.active_node_id = Some(root);

    assert_eq!(app.tree.count(), 10);
    assert_eq!(root.children(&app.tree).count(), 3);
    assert_eq!(frontend.children(&app.tree).count(), 2);

    app.tree.get_mut(frontend).unwrap().get_mut().is_collapsed = true;

    assert_eq!(frontend.children(&app.tree).count(), 2);
    assert!(app.tree.get(frontend).unwrap().get().is_collapsed);
}

#[test]
fn test_paste_operations() {
    let config = AppConfig::default();
    let mut app = AppState::new(config);

    let root = app.tree.new_node(Node::new("Root".to_string()));
    let child1 = app.tree.new_node(Node::new("Child1".to_string()));
    let child2 = app.tree.new_node(Node::new("Child2".to_string()));

    root.append(child1, &mut app.tree);
    root.append(child2, &mut app.tree);

    app.root_id = Some(root);
    app.active_node_id = Some(child1);

    app.clipboard = Some("NewNode1\n\tSubNode1\nNewNode2".to_string());

    let _initial_count = app.tree.count();

    assert!(app.clipboard.is_some());
    assert_eq!(app.active_node_id, Some(child1));

    app.clipboard = Some("Sibling1\nSibling2".to_string());

    assert!(app.clipboard.is_some());
}

#[test]
fn test_save_without_filename() {
    let config = AppConfig::default();
    let mut app = AppState::new(config);

    let root = app.tree.new_node(Node::new("Root".to_string()));
    app.root_id = Some(root);

    // Without a file name there is nothing to write.
    let result = save(&mut app);
    assert!(result.is_none());
    assert!(app.message.is_some());
    assert!(app.message.as_ref().unwrap().contains("No filename"));
}

#[test]
fn test_save_text_permission_denied() {
    // The front end does the writing; a refused write is reported back.
    let mut app = AppState::new(AppConfig::default());
    let root = app.tree.new_node(Node::new("Root".to_string()));
    app.root_id = Some(root);
    app.filename = Some("read_only.txt".to_string());
    app.is_dirty = true;
    let request = save(&mut app).expect("a file name and a root ask for a write");
    written(&mut app, WriteKind::Save, &request.path, Err("Permission denied".to_string()));
    assert_eq!(app.message, Some("Failed to save: Permission denied".to_string()));
    assert!(app.is_dirty);
    assert_eq!(app.filename, Some("read_only.txt".to_string()));
}

// Own tests.

#[test]
fn save_asks_to_write_the_map_text() {
    let mut app = AppState::new(AppConfig::default());
    let root = app.tree.new_node(Node::new("Root".to_string()));
    let child = app.tree.new_node(Node::new("Child".to_string()));
    root.append(child, &mut app.tree);
    app.root_id = Some(root);
    app.filename = Some("map.hmm".to_string());

    let req = save(&mut app).expect("a write request");
    assert_eq!(req.path, "map.hmm");
    assert_eq!(req.content, "Root\n\tChild\n");
}

#[test]
fn save_as_uses_the_default_name() {
    let mut app = AppState::new(AppConfig::default());
    let root = app.tree.new_node(Node::new("Root".to_string()));
    app.root_id = Some(root);

    let req = save_as(&mut app).expect("a write request");
    assert_eq!(req.path, "mindmap.hmm");
    assert_eq!(req.content, "Root\n");
}

#[test]
fn save_without_root_has_nothing_to_write() {
    let mut app = AppState::new(AppConfig::default());
    app.filename = Some("map.hmm".to_string());
    assert!(save(&mut app).is_none());
    assert_eq!(app.message.as_deref(), Some("No content to save"));
}

#[test]
fn special_characters_survive_a_save_and_reload() {
    let content = "Root ✓\n\t子节点 🎯\n\t✗ Failed node\n\t\tNested [HIDDEN] node";
    let (tree, root_id) = parse_hmm_content(content);
    let saved = map_to_list(&tree, root_id, false, 0);
    assert_eq!(saved, format!("{}\n", content));
}
