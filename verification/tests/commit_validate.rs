use scaffolder::engine::{check_tree, App};
use scaffolder::nodes::StatefulList;
use scaffolder::nodes::LeafNodeType;
use scaffolder::parser::parse_project_yaml;
use scaffolder::tree::Tree;

fn preview_names(app: &App) -> Vec<String> {
    let p: &Tree = app.preview();
    (0..p.len()).map(|i| p.node(i).get_name().to_string()).collect()
}

#[test]
fn commit_is_idempotent() {
    let yaml = "project:\n  default_location: \"/tmp\"\n  children: [\"a\"]\n";
    let tree = parse_project_yaml(yaml).unwrap();
    let mut app = App::new(tree);
    app.cursor_end();
    app.enter_char('x');
    app.update_preview_tree();
    let once = preview_names(&app);
    app.update_preview_tree();
    let twice = preview_names(&app);
    assert_eq!(once, twice);
    assert_eq!(once, vec!["/tmpx", "a"]);
}

#[test]
fn empty_input_commits_nothing() {
    let yaml = "project:\n  default_location: \"\"\n  children: [\"a\"]\n";
    let tree = parse_project_yaml(yaml).unwrap();
    let mut app = App::new(tree);
    app.update_preview_tree();
    // the result node keeps its placeholder name and stays a free-text node
    assert_eq!(preview_names(&app), vec!["Location", "a"]);
    assert!(matches!(app.preview().node(0), LeafNodeType::TextInput { .. }));
}

#[test]
fn unmarked_choice_commits_nothing() {
    let yaml = "project:\n  children: [{b: {options: [\"x\",\"y\"]}}]\n";
    let tree = parse_project_yaml(yaml).unwrap();
    let mut app = App::new(tree);
    app.next_item(false);
    app.update_preview_tree();
    assert!(matches!(app.preview().node(1), LeafNodeType::Select { .. }));
    // after marking, the first selected label is burnt in
    app.mark_item();
    app.update_preview_tree();
    match app.preview().node(1) {
        LeafNodeType::Text { name } => assert_eq!(name, "x"),
        _ => panic!("the committed node must be a plain label"),
    }
}

#[test]
fn multi_select_commits_first_selected() {
    let mut list = StatefulList::with_items(
        vec![
            ("red".to_string(), false),
            ("green".to_string(), false),
            ("blue".to_string(), false),
        ],
        true,
    );
    list.next();
    list.mark_item(); // green
    list.next();
    list.mark_item(); // blue stays too: multi-select keeps earlier marks
    assert_eq!(list.get_selected().as_deref(), Some("green"));
    let flags: Vec<bool> = list.items().iter().map(|p| p.1).collect();
    assert_eq!(flags, vec![false, true, true]);
}

#[test]
fn validation_rejects_unresolved_nodes() {
    let yaml = "project:\n  children: [{b: {options: [\"x\"]}}, \"a\"]\n";
    let tree = parse_project_yaml(yaml).unwrap();
    let app = App::new(tree);
    // the unanswered choice node is still in the result tree
    assert!(check_tree(app.preview()).is_none());
}

#[test]
fn validation_rejects_empty_names() {
    let yaml = "project:\n  children: [\"\"]\n";
    let tree = parse_project_yaml(yaml).unwrap();
    let app = App::new(tree);
    assert!(check_tree(app.preview()).is_none());
}

#[test]
fn validation_returns_the_result_tree_verbatim() {
    let yaml = "project:\n  default_location: \"/srv\"\n  children:\n    - a:\n        children: [\"a1\"]\n    - b\n";
    let tree = parse_project_yaml(yaml).unwrap();
    let mut app = App::new(tree);
    app.update_preview_tree();
    let finalized = check_tree(app.preview()).expect("every node is resolved");
    assert_eq!(finalized.len(), 4);
    let names: Vec<String> =
        (0..finalized.len()).map(|i| finalized.name(i).to_string()).collect();
    assert_eq!(names, vec!["/srv", "a", "a1", "b"]);
    let depths: Vec<usize> = (0..finalized.len()).map(|i| finalized.depth(i)).collect();
    assert_eq!(depths, vec![0, 1, 2, 1]);
}

#[test]
fn childless_template_finishes_in_one_step() {
    let yaml = "project:\n  default_location: \"~/my_project/\"\n";
    let tree = parse_project_yaml(yaml).unwrap();
    assert_eq!(tree.len(), 1);
    let mut app = App::new(tree);
    app.update_preview_tree();
    let finalized = app.next_item(false).expect("the only node is pre-filled");
    assert_eq!(finalized.len(), 1);
    assert_eq!(finalized.name(0), "~/my_project/");
}

#[test]
fn empty_choice_list_never_resolves() {
    let yaml = "project:\n  children: [{b: {options: []}}]\n";
    let tree = parse_project_yaml(yaml).unwrap();
    let mut app = App::new(tree);
    app.next_item(false);
    assert!(matches!(app.data_cloned().unwrap(), LeafNodeType::Select { .. }));
    let msg = app.mark_item();
    assert_eq!(msg.as_deref(), Some("please make a selection"));
    app.update_preview_tree();
    assert!(app.next_item(false).is_none(), "an empty choice cannot be resolved");
}

#[test]
fn end_to_end_wizard_run() {
    let yaml = "project:\n  default_location: \"/tmp\"\n  children: [\"a\", {b: {options: [\"x\",\"y\"]}}]\n";
    let tree = parse_project_yaml(yaml).unwrap();
    assert_eq!(tree.len(), 3);
    let mut app = App::new(tree);
    app.set_question();
    // the wizard stops on the root: it is a free-text node, nothing skips it
    assert_eq!(app.vertical_index(), 0);
    assert_eq!(app.question(), "Type in a Location");
    // type "/proj" at the end of the pre-filled "/tmp"
    app.cursor_end();
    for c in "/proj".chars() {
        app.enter_char(c);
    }
    app.update_preview_tree();
    let verdict = app.next_item(false);
    assert!(verdict.is_none());
    // the label "a" is auto-skipped; the cursor rests on the choice node
    assert_eq!(app.vertical_index(), 2);
    assert_eq!(app.question(), "Choose an option for b");
    // select "x" and move on: the end of the tree is reached
    assert!(app.mark_item().is_none());
    app.update_preview_tree();
    let finalized = app.next_item(false).expect("the wizard is complete");
    assert_eq!(app.vertical_index(), 0);
    let names: Vec<String> =
        (0..finalized.len()).map(|i| finalized.name(i).to_string()).collect();
    assert_eq!(names, vec!["/tmp/proj", "a", "x"]);
    let depths: Vec<usize> = (0..finalized.len()).map(|i| finalized.depth(i)).collect();
    assert_eq!(depths, vec![0, 1, 1]);
}
