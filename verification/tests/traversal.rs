use scaffolder::engine::App;
use scaffolder::tree::CloneTree;
use scaffolder::tree::{NodeId, NodeIndex};
use scaffolder::nodes::LeafNodeType;
use scaffolder::parser::parse_project_yaml;

fn is_text(node: &LeafNodeType) -> bool {
    matches!(node, LeafNodeType::Text { .. })
}

#[test]
fn advance_never_rests_on_a_label() {
    // Interleave plain labels with interactive nodes at several depths.
    let yaml = "project:\n  children:\n    - t1\n    - q1:\n        options: \"v\"\n    - t2:\n        children:\n          - t3\n          - q2:\n              options: [\"x\"]\n    - t4\n";
    let tree = parse_project_yaml(yaml).unwrap();
    let total = tree.len();
    let interactive = (0..total)
        .filter(|&i| !is_text(tree.node(i)))
        .count();
    let mut app = App::new(tree);
    let mut visited = vec![0usize];
    loop {
        let before = app.vertical_index();
        let verdict = app.next_item(false);
        let now = app.vertical_index();
        if now == 0 && before != 0 || total == 1 {
            // end of tree reached; nothing resolved yet, so no finalized tree
            assert!(verdict.is_none());
            break;
        }
        assert!(now > before, "pre-order index must strictly increase");
        let node = app.data_cloned().unwrap();
        assert!(!is_text(&node), "the cursor must never rest on a label");
        visited.push(now);
    }
    // every interactive node was stopped on exactly once, in pre-order
    assert_eq!(visited.len(), interactive);
    let mut sorted = visited.clone();
    sorted.sort_unstable();
    sorted.dedup();
    assert_eq!(sorted, visited);
}

#[test]
fn retreat_after_advance_may_land_elsewhere() {
    // From a label, advancing and then retreating lands on the nearer
    // label, not the one we came from: the asymmetry is intended.
    let yaml = "project:\n  children: [\"t1\", \"t2\", {z: {options: [\"o\"]}}]\n";
    let tree = parse_project_yaml(yaml).unwrap();
    let mut app = App::new(tree);
    app.next_item(false);
    assert_eq!(app.vertical_index(), 3); // z; both labels were skipped
    app.previous_item();
    assert_eq!(app.vertical_index(), 2); // t2: retreat does not skip labels
    app.previous_item();
    assert_eq!(app.vertical_index(), 1); // t1
    app.next_item(false);
    assert_eq!(app.vertical_index(), 3); // back to z
    app.previous_item();
    assert_eq!(app.vertical_index(), 2); // t2, not the t1 we started from
}

#[test]
fn retreat_lands_on_sibling_or_parent() {
    let yaml = "project:\n  children:\n    - a:\n        children: [\"a1\"]\n    - b\n";
    // pre-order: 0 Location, 1 a, 2 a1, 3 b
    let tree = parse_project_yaml(yaml).unwrap();
    let mut app = App::new(tree);
    app.next_item(false);
    app.next_item(false);
    assert_eq!(app.vertical_index(), 0, "no interactive node remains, back at root");
    let mut app2 = App::new(parse_project_yaml(yaml).unwrap());
    // walk the cursor manually: root -> a (child), then retreat
    app2.next_item(false); // lands at end (all children are labels), cursor 0
    app2.previous_item();
    assert_eq!(app2.vertical_index(), 0, "the root has nowhere to retreat to");
}

#[test]
fn questions_follow_the_current_node() {
    let yaml = "project:\n  children: [{b: {options: [\"x\",\"y\"]}}]\n";
    let tree = parse_project_yaml(yaml).unwrap();
    let mut app = App::new(tree);
    app.set_question();
    assert_eq!(app.question(), "Type in a Location");
    app.next_item(false);
    assert_eq!(app.question(), "Choose an option for b");
}

#[test]
fn skip_child_jumps_over_the_subtree() {
    let yaml = "project:\n  children:\n    - a:\n        children:\n          - q:\n              options: \"v\"\n    - b:\n        options: \"w\"\n";
    // pre-order: 0 Location, 1 a, 2 q, 3 b
    let tree = parse_project_yaml(yaml).unwrap();
    let mut app = App::new(tree);
    app.next_item(false);
    assert_eq!(app.vertical_index(), 2); // a is a label, q is its child
    app.previous_item();
    assert_eq!(app.vertical_index(), 1); // the label a
    let verdict = app.next_item(true); // skip a's whole subtree
    assert!(verdict.is_none());
    assert_eq!(app.vertical_index(), 3); // b, q was jumped over
}

#[test]
fn node_ids_match_positions() {
    let yaml = "project:\n  children: [\"a\", \"b\"]\n";
    let tree = parse_project_yaml(yaml).unwrap();
    assert_eq!(tree.node_index(NodeId { index: 2 }), Some(2));
    assert_eq!(tree.node_index(NodeId { index: 3 }), None);
    let app = App::new(tree);
    assert_eq!(app.node_id().index, app.vertical_index());
}

#[test]
fn cloned_trees_are_independent_copies() {
    let yaml = "project:\n  children: [{b: {options: [\"x\"]}}]\n";
    let tree = parse_project_yaml(yaml).unwrap();
    let copy = tree.clone();
    assert_eq!(tree.len(), copy.len());
    for i in 0..tree.len() {
        assert_eq!(tree.depth(i), copy.depth(i));
        assert_eq!(tree.node(i).get_name(), copy.node(i).get_name());
    }
    // mutating the original through a session leaves the copy untouched
    let mut app = App::new(tree);
    app.cursor_end();
    app.enter_char('!');
    match app.data_cloned().unwrap() {
        LeafNodeType::TextInput { input, .. } => assert_eq!(input, "~/!"),
        _ => panic!("root must be a free-text node"),
    }
    match copy.node(0) {
        LeafNodeType::TextInput { input, .. } => assert_eq!(input, "~/"),
        _ => panic!("root must be a free-text node"),
    }
}

#[test]
fn text_editing_inserts_and_deletes_at_the_caret() {
    let yaml = "project:\n  default_location: \"ab\"\n";
    let tree = parse_project_yaml(yaml).unwrap();
    let mut app = App::new(tree);
    app.cursor_end();
    assert_eq!(app.cursor_position(), 2);
    app.enter_char('c'); // "abc"
    app.move_cursor_left();
    app.move_cursor_left();
    app.enter_char('x'); // "axbc"
    match app.data_cloned().unwrap() {
        LeafNodeType::TextInput { input, .. } => assert_eq!(input, "axbc"),
        _ => panic!("root must be a free-text node"),
    }
    app.delete_char(); // removes the x again
    app.reset_cursor();
    app.delete_char(); // caret at the start: nothing happens
    match app.data_cloned().unwrap() {
        LeafNodeType::TextInput { input, .. } => assert_eq!(input, "abc"),
        _ => panic!("root must be a free-text node"),
    }
}

#[test]
fn choice_navigation_wraps_and_marks() {
    let yaml = "project:\n  children: [{b: {options: [\"x\",\"y\",\"z\"]}}]\n";
    let tree = parse_project_yaml(yaml).unwrap();
    let mut app = App::new(tree);
    app.next_item(false);
    app.option_next();
    app.option_next();
    app.option_next(); // wrapped back to the first entry
    app.option_previous(); // and one back up: the last entry
    let msg = app.mark_item();
    assert!(msg.is_none());
    match app.data_cloned().unwrap() {
        LeafNodeType::Select { options, .. } => {
            assert_eq!(options.selected_index(), 2);
            assert_eq!(options.get_selected().as_deref(), Some("z"));
        }
        _ => panic!("cursor must be on the choice node"),
    }
}
