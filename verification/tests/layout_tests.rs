use hmm_rs::app::AppState;
use hmm_rs::config::AppConfig;
use hmm_rs::layout::{LayoutEngine, LayoutNode, LEFT_PADDING};
use indextree::Arena;
use hmm_rs::model::Node;
use hmm_rs::ui::text::TextWrapper;

fn create_test_app() -> AppState {
    let config = AppConfig::default();
    let mut app = AppState::new(config);

    let root = app.tree.new_node(Node::new("Root".to_string()));
    let child1 = app.tree.new_node(Node::new("Child 1".to_string()));
    let child2 = app.tree.new_node(Node::new("Child 2".to_string()));
    let grandchild = app.tree.new_node(Node::new("Grandchild".to_string()));

    root.append(child1, &mut app.tree);
    root.append(child2, &mut app.tree);
    child2.append(grandchild, &mut app.tree);

    app.root_id = Some(root);
    app.active_node_id = Some(root);

    app
}

fn create_test_app_with_tree() -> AppState {
    let config = AppConfig::default();
    let mut app = AppState::new(config);

    let root = app.tree.new_node(Node::new("Root".to_string()));
    let child1 = app.tree.new_node(Node::new("Child 1".to_string()));
    let child2 = app.tree.new_node(Node::new("Child 2".to_string()));
    let grandchild1 = app.tree.new_node(Node::new("Grandchild 1".to_string()));
    let grandchild2 = app.tree.new_node(Node::new("Grandchild 2".to_string()));

    root.append(child1, &mut app.tree);
    root.append(child2, &mut app.tree);
    child1.append(grandchild1, &mut app.tree);
    child2.append(grandchild2, &mut app.tree);

    app.root_id = Some(root);
    app.active_node_id = Some(root);

    app
}

fn layout_of(app: &AppState) -> LayoutEngine {
    LayoutEngine::calculate_layout(app).expect("the layout fits")
}

#[test]
fn test_layout_engine_creation() {
    let engine = LayoutEngine::new();
    assert_eq!(engine.map_width, 0);
    assert_eq!(engine.map_height, 0);
    assert_eq!(engine.map_top, 0);
    assert_eq!(engine.map_bottom, 0);
    assert!(engine.nodes.is_empty());
}

#[test]
fn test_calculate_layout_simple_tree() {
    let app = create_test_app();
    let layout = layout_of(&app);

    assert_eq!(layout.nodes.len(), 4);

    if let Some(root_id) = app.root_id {
        let root_layout = layout.get(root_id).expect("Root node should have a layout");
        assert_eq!(root_layout.x, LEFT_PADDING);
    }

    assert!(layout.map_width > 0);
}

#[test]
fn test_calculate_layout_with_collapsed_node() {
    let mut app = create_test_app();

    let root_id = app.root_id.unwrap();
    let child2_id = root_id.children(&app.tree).nth(1).unwrap();
    app.tree.get_mut(child2_id).unwrap().get_mut().is_collapsed = true;

    let layout = layout_of(&app);

    assert_eq!(layout.nodes.len(), 3);
}

#[test]
fn test_text_wrapping_via_textwrapper() {
    let text = "This is a very long line that should be wrapped";
    let lines = TextWrapper::wrap(text, 15);

    assert!(lines.len() > 1);
    for line in &lines {
        assert!(unicode_width::UnicodeWidthStr::width(line.as_str()) <= 15);
    }
}

#[test]
fn test_layout_with_hidden_nodes() {
    let mut app = create_test_app();

    let root_id = app.root_id.unwrap();
    let child1_id = root_id.children(&app.tree).next().unwrap();
    app.tree.get_mut(child1_id).unwrap().get_mut().title = "[HIDDEN] Child 1".to_string();

    app.config.show_hidden = false;

    let layout = layout_of(&app);

    assert!(!layout.nodes.is_empty());
    assert!(layout.get(root_id).is_some());
}

#[test]
fn test_node_spacing_consistency() {
    let app = create_test_app();
    let layout = layout_of(&app);

    let root_id = app.root_id.expect("Test app should have a root");
    let child1_id = root_id.children(&app.tree).next().expect("Root should have at least one child");

    let root_layout = layout.get(root_id).expect("Root should have a layout");
    let child_layout = layout.get(child1_id).expect("Child should have a layout");

    let expected_child_x = root_layout.exit_point.0 + 4 + 3;
    assert_eq!(child_layout.x, expected_child_x, "Child node should be positioned based on spine geometry");
}

#[test]
fn test_multiple_children_spacing() {
    let app = create_test_app();
    let layout = layout_of(&app);

    let root_id = app.root_id.expect("Test app should have a root");
    let children: Vec<_> = root_id.children(&app.tree).collect();
    assert!(children.len() >= 2, "Test requires at least 2 children");

    let child1_layout = layout.get(children[0]).expect("First child should have a layout");
    let child2_layout = layout.get(children[1]).expect("Second child should have a layout");

    assert_eq!(child1_layout.x, child2_layout.x, "Sibling nodes should be aligned at the same x position");
}

#[test]
fn test_deep_tree_spacing() {
    let config = AppConfig::default();
    let mut app = AppState::new(config);

    let root = app.tree.new_node(Node::new("Root".to_string()));
    let child = app.tree.new_node(Node::new("Child".to_string()));
    let grandchild = app.tree.new_node(Node::new("Grandchild".to_string()));

    root.append(child, &mut app.tree);
    child.append(grandchild, &mut app.tree);

    app.root_id = Some(root);

    let layout = layout_of(&app);

    let root_layout = layout.get(root).expect("Root should have a layout");
    let child_layout = layout.get(child).expect("Child should have a layout");
    let grandchild_layout = layout.get(grandchild).expect("Grandchild should have a layout");

    let spacing1 = child_layout.x - (root_layout.x + root_layout.w);
    let spacing2 = grandchild_layout.x - (child_layout.x + child_layout.w);

    let expected_spacing = 7;
    assert_eq!(spacing1, expected_spacing, "Spacing between root and child should be {} units", expected_spacing);
    assert_eq!(spacing2, expected_spacing, "Spacing between child and grandchild should be {} units", expected_spacing);
}

#[test]
fn test_single_child_spacing_with_hidden_sibling() {
    let mut app = create_test_app();

    let root_id = app.root_id.expect("Test app should have a root");
    let mut children_iter = root_id.children(&app.tree);
    let hidden_child = children_iter.next().expect("Root should have a first child");
    let visible_child = children_iter.next().expect("Root should have a second child");

    app.tree.get_mut(hidden_child).unwrap().get_mut().title = "[HIDDEN] Child 1".to_string();

    app.config.show_hidden = false;

    let layout = layout_of(&app);

    let root_layout = layout.get(root_id).expect("Root should have a layout entry");
    let visible_child_layout = layout.get(visible_child).expect("Visible child should have a layout entry");

    let expected_x = root_layout.exit_point.0 + 7;
    assert_eq!(
        visible_child_layout.x, expected_x,
        "Single visible child should be positioned with standard single-child spacing"
    );
}

#[test]
fn test_grandchild_spacing_with_hidden_sibling() {
    let config = AppConfig::default();
    let mut app = AppState::new(config);

    let root = app.tree.new_node(Node::new("Root".to_string()));
    let parent = app.tree.new_node(Node::new("Parent".to_string()));
    let hidden_child = app.tree.new_node(Node::new("Hidden".to_string()));
    let visible_child = app.tree.new_node(Node::new("Visible".to_string()));

    root.append(parent, &mut app.tree);
    parent.append(hidden_child, &mut app.tree);
    parent.append(visible_child, &mut app.tree);

    app.root_id = Some(root);

    app.tree.get_mut(hidden_child).unwrap().get_mut().title = "[HIDDEN] Hidden".to_string();

    app.config.show_hidden = false;

    let layout = layout_of(&app);

    let parent_layout = layout.get(parent).expect("Parent should have a layout entry");
    let visible_child_layout = layout.get(visible_child).expect("Visible child should have a layout entry");

    let expected_x = parent_layout.exit_point.0 + 7;
    assert_eq!(
        visible_child_layout.x, expected_x,
        "Nested single visible child should be positioned with standard single-child spacing"
    );
}

#[test]
fn test_collapsed_nodes_not_in_layout() {
    let mut app = create_test_app_with_tree();
    let root = app.root_id.unwrap();
    let child1 = root.children(&app.tree).next().unwrap();

    app.tree.get_mut(child1).unwrap().get_mut().is_collapsed = true;

    let layout = layout_of(&app);

    assert!(layout.get(root).is_some());
    assert!(layout.get(child1).is_some());

    let child2 = root.children(&app.tree).nth(1).unwrap();
    assert!(layout.get(child2).is_some());

    let grandchild1 = child1.children(&app.tree).next().unwrap();
    assert!(layout.get(grandchild1).is_none());

    let grandchild2 = child2.children(&app.tree).next().unwrap();
    assert!(layout.get(grandchild2).is_some());
}

#[test]
fn test_collapsed_node_height() {
    let mut app = create_test_app_with_tree();
    let root = app.root_id.unwrap();
    let child1 = root.children(&app.tree).next().unwrap();

    let layout_expanded = layout_of(&app);
    let root_expanded_height = layout_expanded.get(root).unwrap().h;

    app.tree.get_mut(child1).unwrap().get_mut().is_collapsed = true;

    let layout_collapsed = layout_of(&app);
    let root_collapsed_height = layout_collapsed.get(root).unwrap().h;

    assert!(root_collapsed_height <= root_expanded_height);

    let child1_collapsed_h = layout_collapsed.get(child1).unwrap().h;
    let child1_expanded_h = layout_expanded.get(child1).unwrap().h;
    assert!(child1_collapsed_h <= child1_expanded_h);
}

#[test]
fn test_all_collapsed_layout() {
    let mut app = create_test_app_with_tree();

    for node in app.tree.iter_mut() {
        if node.get().title != "Root" {
            node.get_mut().is_collapsed = true;
        }
    }

    let layout = layout_of(&app);

    let root = app.root_id.unwrap();
    assert!(layout.get(root).is_some());

    for child_id in root.children(&app.tree) {
        assert!(layout.get(child_id).is_some());
        for grandchild_id in child_id.children(&app.tree) {
            assert!(layout.get(grandchild_id).is_none());
        }
    }
}

// Own tests.

#[test]
fn layout_without_root_is_empty() {
    let app = AppState::new(AppConfig::default());
    let layout = layout_of(&app);
    assert!(layout.nodes.is_empty());
}

#[test]
fn single_node_sits_at_the_left_padding() {
    let mut app = AppState::new(AppConfig::default());
    let root = app.tree.new_node(Node::new("Solo".to_string()));
    app.root_id = Some(root);
    let layout = layout_of(&app);
    let n = layout.get(root).unwrap();
    assert_eq!(n.x, LEFT_PADDING);
    assert_eq!(n.w, 4);
    assert_eq!(n.entry_point, (n.x, n.y + n.yo));
    assert_eq!(n.exit_point, (n.x + n.w, n.y + n.yo));
}

#[test]
fn wrapper_breaks_at_spaces() {
    let lines = TextWrapper::wrap("aaa bbb ccc", 7);
    assert_eq!(lines, vec!["aaa bbb".to_string(), "ccc".to_string()]);
}

#[test]
fn test_get_visible_nodes() {
    let mut engine = LayoutEngine::new();

    let mut arena = Arena::<Node>::new();
    let node1 = arena.new_node(Node::new("test1".to_string()));
    let node2 = arena.new_node(Node::new("test2".to_string()));

    engine.nodes.push(LayoutNode {
        id: node1,
        x: 10,
        y: 10,
        w: 20,
        h: 10,
        lh: 1,
        yo: 0,
        entry_point: (10, 10),
        exit_point: (30, 10),
        child_spine_x: None,
    });
    engine.nodes.push(LayoutNode {
        id: node2,
        x: 50,
        y: 50,
        w: 20,
        h: 10,
        lh: 1,
        yo: 0,
        entry_point: (50, 50),
        exit_point: (70, 50),
        child_spine_x: None,
    });

    // A viewport that holds the first node only.
    let visible = engine.get_visible_nodes((0, 0, 40, 40));
    assert_eq!(visible.len(), 1);
    assert_eq!(visible[0], node1);

    // A viewport that holds both.
    let visible = engine.get_visible_nodes((0, 0, 100, 100));
    assert_eq!(visible.len(), 2);
}

#[test]
fn visible_nodes_touching_edges_count() {
    let mut engine = LayoutEngine::new();
    let mut arena = Arena::<Node>::new();
    let node = arena.new_node(Node::new("edge".to_string()));
    engine.nodes.push(LayoutNode {
        id: node,
        x: 40,
        y: 40,
        w: 5,
        h: 1,
        lh: 1,
        yo: 0,
        entry_point: (40, 40),
        exit_point: (45, 40),
        child_spine_x: None,
    });
    assert_eq!(engine.get_visible_nodes((0, 0, 40, 40)), vec![node]);
    assert_eq!(engine.get_visible_nodes((46, 0, 100, 100)).len(), 0);
    assert_eq!(engine.get_visible_nodes((45, 41, 100, 100)), vec![node]);
    assert_eq!(engine.get_visible_nodes((0, 0, 39, 100)).len(), 0);
}
