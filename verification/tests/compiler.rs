use scaffolder::nodes::LeafNodeType;
use scaffolder::parser::{parse_project_yaml, TemplateError};
use scaffolder::tree::Tree;

fn kind(node: &LeafNodeType) -> &'static str {
    match node {
        LeafNodeType::Text { .. } => "text",
        LeafNodeType::Select { .. } => "select",
        LeafNodeType::TextInput { .. } => "input",
    }
}

fn describe(tree: &Tree) -> Vec<(usize, String, String)> {
    let mut out = Vec::new();
    for i in 0..tree.len() {
        let node = tree.node(i);
        let extra = match node {
            LeafNodeType::Text { .. } => String::new(),
            LeafNodeType::Select { options, .. } => options.join_names_with(", "),
            LeafNodeType::TextInput { input, .. } => input.clone(),
        };
        out.push((tree.depth(i), format!("{}:{}", kind(node), node.get_name()), extra));
    }
    out
}

#[test]
fn compiles_three_node_template() {
    let yaml = "project:\n  default_location: \"/tmp\"\n  children: [\"a\", {b: {options: [\"x\",\"y\"]}}]\n";
    let tree = parse_project_yaml(yaml).unwrap();
    assert_eq!(tree.len(), 3);
    assert_eq!(tree.depth(0), 0);
    assert_eq!(tree.depth(1), 1);
    assert_eq!(tree.depth(2), 1);
    match tree.node(0) {
        LeafNodeType::TextInput { name, input } => {
            assert_eq!(name, "Location");
            assert_eq!(input, "/tmp");
        }
        _ => panic!("root must be a free-text node"),
    }
    match tree.node(1) {
        LeafNodeType::Text { name } => assert_eq!(name, "a"),
        _ => panic!("first child must be a plain label"),
    }
    match tree.node(2) {
        LeafNodeType::Select { name, options } => {
            assert_eq!(name, "b");
            assert_eq!(options.join_names_with(", "), "x, y");
            assert!(options.get_selected().is_none());
        }
        _ => panic!("second child must be a choice node"),
    }
}

#[test]
fn compiler_is_deterministic() {
    let yaml = "project:\n  default_location: \"/srv\"\n  childoptions: [\"k\"]\n  children:\n    - one\n    - two:\n        options: \"prefill\"\n    - three:\n        childoptions: [\"p\", \"q\"]\n        children: [\"deep\"]\n";
    let t1 = parse_project_yaml(yaml).unwrap();
    let t2 = parse_project_yaml(yaml).unwrap();
    assert_eq!(describe(&t1), describe(&t2));
}

#[test]
fn option_merge_keeps_inherited_before_local() {
    let yaml = "project:\n  children:\n    - parent:\n        childoptions: [\"A\", \"B\"]\n        children:\n          - c:\n              options: [\"C\", \"D\"]\n";
    let tree = parse_project_yaml(yaml).unwrap();
    assert_eq!(tree.len(), 3);
    match tree.node(2) {
        LeafNodeType::Select { name, options } => {
            assert_eq!(name, "c");
            assert_eq!(options.join_names_with(", "), "A, B, C, D");
        }
        _ => panic!("child with options must be a choice node"),
    }
}

#[test]
fn default_location_falls_back_to_home() {
    let yaml = "project:\n  children: [\"a\"]\n";
    let tree = parse_project_yaml(yaml).unwrap();
    match tree.node(0) {
        LeafNodeType::TextInput { input, .. } => assert_eq!(input, "~/"),
        _ => panic!("root must be a free-text node"),
    }
}

#[test]
fn scalar_options_prefill_a_text_input() {
    let yaml = "project:\n  children:\n    - src:\n        options: \"lib\"\n";
    let tree = parse_project_yaml(yaml).unwrap();
    match tree.node(1) {
        LeafNodeType::TextInput { name, input } => {
            assert_eq!(name, "src");
            assert_eq!(input, "lib");
        }
        _ => panic!("scalar options must pre-fill a free-text node"),
    }
}

#[test]
fn bare_leaf_under_childoptions_becomes_choice() {
    let yaml = "project:\n  childoptions: [\"on\", \"off\"]\n  children: [\"mode\"]\n";
    let tree = parse_project_yaml(yaml).unwrap();
    match tree.node(1) {
        LeafNodeType::Select { name, options } => {
            assert_eq!(name, "mode");
            assert_eq!(options.join_names_with("|"), "on|off");
        }
        _ => panic!("leaf under childoptions must be a choice node"),
    }
}

#[test]
fn unparseable_document_is_rejected() {
    let err = parse_project_yaml("a: [1, 2").unwrap_err();
    assert_eq!(err, TemplateError::Unparseable);
}

#[test]
fn non_mapping_document_is_rejected() {
    let err = parse_project_yaml("- just\n- a\n- list\n").unwrap_err();
    assert_eq!(err, TemplateError::NotAMapping);
}

#[test]
fn missing_project_is_rejected() {
    let err = parse_project_yaml("other: {}\n").unwrap_err();
    assert_eq!(err, TemplateError::MissingProject);
    let err2 = parse_project_yaml("project: 7\n").unwrap_err();
    assert_eq!(err2, TemplateError::MissingProject);
}

#[test]
fn non_string_option_is_rejected() {
    let yaml = "project:\n  children:\n    - c:\n        options: [1, 2]\n";
    assert_eq!(parse_project_yaml(yaml).unwrap_err(), TemplateError::InvalidOption);
    let yaml2 = "project:\n  childoptions: [3]\n";
    assert_eq!(parse_project_yaml(yaml2).unwrap_err(), TemplateError::InvalidOption);
}

#[test]
fn odd_children_are_skipped() {
    let yaml = "project:\n  children:\n    - 42\n    - [\"nested\"]\n    - {two: {}, keys: {}}\n    - kept\n";
    let tree = parse_project_yaml(yaml).unwrap();
    assert_eq!(tree.len(), 2);
    match tree.node(1) {
        LeafNodeType::Text { name } => assert_eq!(name, "kept"),
        _ => panic!("the surviving child must be the plain leaf"),
    }
}

#[test]
fn nested_children_get_increasing_depths() {
    let yaml = "project:\n  children:\n    - a:\n        children:\n          - b:\n              children: [\"c\"]\n    - d\n";
    let tree = parse_project_yaml(yaml).unwrap();
    let depths: Vec<usize> = (0..tree.len()).map(|i| tree.depth(i)).collect();
    assert_eq!(depths, vec![0, 1, 2, 3, 1]);
    let names: Vec<String> =
        (0..tree.len()).map(|i| tree.node(i).get_name().to_string()).collect();
    assert_eq!(names, vec!["Location", "a", "b", "c", "d"]);
}
