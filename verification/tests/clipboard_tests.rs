use hmm_rs::actions::clipboard::{paste_as_children, paste_as_siblings, yank_children, yank_node};
use hmm_rs::app::AppState;
use hmm_rs::config::AppConfig;
use hmm_rs::model::Node;

fn create_test_app() -> AppState {
    let config = AppConfig::default();
    let mut app = AppState::new(config);

    let root = app.tree.new_node(Node::new("Root".to_string()));
    let child1 = app.tree.new_node(Node::new("Child 1".to_string()));
    let child2 = app.tree.new_node(Node::new("Child 2".to_string()));
    let grandchild = app.tree.new_node(Node::new("Grandchild".to_string()));

    root.append(child1, &mut app.tree);
    root.append(child2, &mut app.tree);
    child2.append(grandchild, &mut app.tree);

    app.root_id = Some(root);
    app.active_node_id = Some(root);

    app
}

fn titles(app: &AppState, ids: &[indextree::NodeId]) -> Vec<String> {
    ids.iter().map(|id| app.tree.get(*id).unwrap().get().title.clone()).collect()
}

#[test]
fn clipboard_test_yank_node() {
    let mut app = create_test_app();

    yank_node(&mut app);
    assert!(app.clipboard.is_some());
    assert!(app.message.is_some());
}

#[test]
fn clipboard_test_yank_children() {
    let mut app = create_test_app();

    yank_children(&mut app);

    assert!(app.clipboard.is_some());
    let clipboard = app.clipboard.as_ref().unwrap();
    assert!(clipboard.contains("Child 1"));
    assert!(clipboard.contains("Child 2"));
    assert!(!clipboard.contains("Root"));
}

#[test]
fn clipboard_test_paste_as_children() {
    let mut app = create_test_app();
    let root = app.root_id.unwrap();

    app.clipboard = Some("New Node 1\n\tSubnode 1\n\tSubnode 2\nNew Node 2".to_string());

    paste_as_children(&mut app);

    let children: Vec<_> = root.children(&app.tree).collect();
    assert!(children.len() > 2);

    let mut found_new_node1 = false;
    let mut found_new_node2 = false;
    for child in root.children(&app.tree) {
        let node = app.tree.get(child).unwrap().get();
        if node.title == "New Node 1" {
            found_new_node1 = true;
            let subnodes: Vec<_> = child.children(&app.tree).collect();
            assert_eq!(subnodes.len(), 2);
        }
        if node.title == "New Node 2" {
            found_new_node2 = true;
        }
    }
    assert!(found_new_node1);
    assert!(found_new_node2);
}

#[test]
fn clipboard_test_paste_as_siblings() {
    let mut app = create_test_app();
    let root = app.root_id.unwrap();
    let child1 = root.children(&app.tree).next().unwrap();

    app.active_node_id = Some(child1);
    app.clipboard = Some("Sibling 1\nSibling 2".to_string());

    paste_as_siblings(&mut app);

    let children: Vec<_> = root.children(&app.tree).collect();
    assert!(children.len() >= 4);

    let mut found_sibling1 = false;
    let mut found_sibling2 = false;
    for child in root.children(&app.tree) {
        let node = app.tree.get(child).unwrap().get();
        if node.title == "Sibling 1" {
            found_sibling1 = true;
        }
        if node.title == "Sibling 2" {
            found_sibling2 = true;
        }
    }
    assert!(found_sibling1);
    assert!(found_sibling2);
}

// Own tests.

#[test]
fn yank_node_text_is_the_subtree() {
    let mut app = create_test_app();
    yank_node(&mut app);
    assert_eq!(app.clipboard.as_deref(), Some("Root\n\tChild 1\n\tChild 2\n\t\tGrandchild\n"));
    assert_eq!(app.message.as_deref(), Some("Node yanked"));
}

#[test]
fn paste_children_order_and_history() {
    let mut app = create_test_app();
    let root = app.root_id.unwrap();
    app.clipboard = Some("X\n\tY\nZ".to_string());
    paste_as_children(&mut app);
    let children: Vec<_> = root.children(&app.tree).collect();
    assert_eq!(titles(&app, &children), vec!["Child 1", "Child 2", "X", "Z"]);
    let ys: Vec<_> = children[2].children(&app.tree).collect();
    assert_eq!(titles(&app, &ys), vec!["Y"]);
    assert_eq!(app.message.as_deref(), Some("Pasted as children"));
    assert_eq!(app.history.len(), 1);
    assert_eq!(app.history_index, 1);
}

#[test]
fn paste_single_line_root_is_added_itself() {
    let mut app = create_test_app();
    let root = app.root_id.unwrap();
    app.clipboard = Some("Only\n\tInner".to_string());
    paste_as_children(&mut app);
    let children: Vec<_> = root.children(&app.tree).collect();
    assert_eq!(titles(&app, &children), vec!["Child 1", "Child 2", "Only"]);
    let inner: Vec<_> = children[2].children(&app.tree).collect();
    assert_eq!(titles(&app, &inner), vec!["Inner"]);
}

#[test]
fn paste_siblings_come_after_the_active_node_last_first() {
    let mut app = create_test_app();
    let root = app.root_id.unwrap();
    let child1 = root.children(&app.tree).next().unwrap();
    app.active_node_id = Some(child1);
    app.clipboard = Some("S1\nS2".to_string());
    paste_as_siblings(&mut app);
    let children: Vec<_> = root.children(&app.tree).collect();
    assert_eq!(titles(&app, &children), vec!["Child 1", "S2", "S1", "Child 2"]);
    assert_eq!(app.message.as_deref(), Some("Pasted as siblings"));
}

#[test]
fn paste_siblings_at_root_is_refused() {
    let mut app = create_test_app();
    let root = app.root_id.unwrap();
    app.clipboard = Some("S1".to_string());
    paste_as_siblings(&mut app);
    assert_eq!(root.children(&app.tree).count(), 2);
    assert_eq!(app.message.as_deref(), Some("Cannot paste siblings at root level"));
}

#[test]
fn paste_with_empty_clipboard_says_so() {
    let mut app = create_test_app();
    paste_as_children(&mut app);
    assert_eq!(app.message.as_deref(), Some("Clipboard is empty"));
    assert_eq!(app.tree.count(), 4);
}
