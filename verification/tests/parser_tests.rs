use hmm_rs::model::Node;
use hmm_rs::outline::map_to_list;
use hmm_rs::parser::parse_hmm_content;
use indextree::Arena;

#[test]
fn test_parse_empty_content() {
    let (tree, root_id) = parse_hmm_content("");

    assert_eq!(tree.count(), 1);
    assert_eq!(tree.get(root_id).unwrap().get().title, "New Mind Map");
}

#[test]
fn test_parse_single_node() {
    let content = "Root Node";
    let (tree, root_id) = parse_hmm_content(content);

    assert_eq!(tree.count(), 2);
    assert_eq!(tree.get(root_id).unwrap().get().title, "Root Node");
}

#[test]
fn test_parse_simple_tree() {
    let content = "Root\n\tChild 1\n\tChild 2\n\t\tGrandchild";
    let (tree, root_id) = parse_hmm_content(content);

    assert_eq!(tree.count(), 5);
    assert_eq!(tree.get(root_id).unwrap().get().title, "Root");

    let children: Vec<_> = root_id.children(&tree).collect();
    assert_eq!(children.len(), 2);

    let child1 = children[0];
    assert_eq!(tree.get(child1).unwrap().get().title, "Child 1");

    let child2 = children[1];
    assert_eq!(tree.get(child2).unwrap().get().title, "Child 2");

    let grandchildren: Vec<_> = child2.children(&tree).collect();
    assert_eq!(grandchildren.len(), 1);
    assert_eq!(tree.get(grandchildren[0]).unwrap().get().title, "Grandchild");
}

#[test]
fn test_parse_with_bullets() {
    let content = "Root\n\t* Child with asterisk\n\t- Child with dash";
    let (tree, root_id) = parse_hmm_content(content);

    assert_eq!(tree.count(), 4);

    let children: Vec<_> = root_id.children(&tree).collect();
    assert_eq!(children.len(), 2);
    assert_eq!(tree.get(children[0]).unwrap().get().title, "Child with asterisk");
    assert_eq!(tree.get(children[1]).unwrap().get().title, "Child with dash");
}

#[test]
fn test_parse_with_spaces_indentation() {
    let content = "Root\n  Child 1\n    Grandchild\n  Child 2";
    let (tree, root_id) = parse_hmm_content(content);

    assert_eq!(tree.count(), 5);
    assert_eq!(tree.get(root_id).unwrap().get().title, "Root");
}

#[test]
fn test_parse_multiple_roots() {
    let content = "Root 1\nRoot 2\n\tChild of Root 2";
    let (tree, root_id) = parse_hmm_content(content);

    assert_eq!(tree.get(root_id).unwrap().get().title, "root");

    let roots: Vec<_> = root_id.children(&tree).collect();
    assert_eq!(roots.len(), 2);
    assert_eq!(tree.get(roots[0]).unwrap().get().title, "Root 1");
    assert_eq!(tree.get(roots[1]).unwrap().get().title, "Root 2");
}

#[test]
fn test_round_trip() {
    let source_text = "Root\n\tChild 1\n\t\tGrandchild 1\n\tChild 2\n\t\tGrandchild 2";
    let (tree, root_id) = parse_hmm_content(source_text);

    let exported = map_to_list(&tree, root_id, false, 0);
    let (tree2, root_id2) = parse_hmm_content(&exported);

    assert_eq!(tree.count(), tree2.count());
    assert_eq!(tree.get(root_id).unwrap().get().title, tree2.get(root_id2).unwrap().get().title);
}

#[test]
fn test_parse_with_empty_lines() {
    let content = "Root\n\n\tChild 1\n\n\n\tChild 2";
    let (tree, root_id) = parse_hmm_content(content);

    assert_eq!(tree.count(), 4);
    let children: Vec<_> = root_id.children(&tree).collect();
    assert_eq!(children.len(), 2);
}

#[test]
fn test_parse_with_unicode() {
    let content = "Root ✓\n\t子节点 🎯\n\t✗ Failed node";
    let (tree, root_id) = parse_hmm_content(content);

    assert_eq!(tree.count(), 4);
    assert_eq!(tree.get(root_id).unwrap().get().title, "Root ✓");

    let children: Vec<_> = root_id.children(&tree).collect();
    assert_eq!(tree.get(children[0]).unwrap().get().title, "子节点 🎯");
    assert_eq!(tree.get(children[1]).unwrap().get().title, "✗ Failed node");
}

// Own tests.

#[test]
fn map_to_list_writes_tab_indented_lines() {
    let mut tree = Arena::new();
    let root = tree.new_node(Node::new("Root".to_string()));
    let child1 = tree.new_node(Node::new("Child 1".to_string()));
    let child2 = tree.new_node(Node::new("Child 2".to_string()));
    root.append(child1, &mut tree);
    root.append(child2, &mut tree);

    assert_eq!(map_to_list(&tree, root, false, 0), "Root\n\tChild 1\n\tChild 2\n");
    assert_eq!(map_to_list(&tree, root, true, 0), "Child 1\nChild 2\n");
    assert_eq!(map_to_list(&tree, root, false, 2), "\t\tRoot\n\t\t\tChild 1\n\t\t\tChild 2\n");
}

#[test]
fn windows_line_endings_and_bullets_are_read() {
    let (tree, root) = parse_hmm_content("Top\r\n\t• Item\r\n");
    assert_eq!(tree.get(root).unwrap().get().title, "Top");
    let children: Vec<_> = root.children(&tree).collect();
    assert_eq!(children.len(), 1);
    assert_eq!(tree.get(children[0]).unwrap().get().title, "Item");
}

#[test]
fn blank_text_gives_the_new_map() {
    let (tree, root) = parse_hmm_content("  \n\t\n");
    assert_eq!(tree.count(), 1);
    assert_eq!(tree.get(root).unwrap().get().title, "New Mind Map");
}

#[test]
fn saved_text_reads_back_with_the_same_nesting() {
    let text = "A\n\tB\n\t\tC\n\tD\n";
    let (tree, root) = parse_hmm_content(text);
    assert_eq!(map_to_list(&tree, root, false, 0), text);
}

#[test]
fn reading_then_saving_gives_the_text_back() {
    let content = "Project Plan\n\tPhase 1\n\t\tDesign\n\t\t\tUI Mockups\n\t\t\tDatabase Schema\n\t\tImplementation\n\t\t\tFrontend\n\t\t\tBackend\n\tPhase 2\n\t\tTesting\n\t\t\tUnit Tests\n\t\t\tIntegration Tests\n\t\tDeployment\n\t\t\tStaging\n\t\t\tProduction\n";
    let (tree, root_id) = parse_hmm_content(content);
    assert_eq!(map_to_list(&tree, root_id, false, 0), content);
    // The arena holds the synthetic root and one node per line, none removed.
    assert_eq!(tree.count(), 16);
}
