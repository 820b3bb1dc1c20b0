use scaffolder::nodes::StatefulList;

fn sample(multiselect: bool) -> StatefulList {
    StatefulList::with_items(
        vec![("a".to_string(), false), ("b".to_string(), false), ("c".to_string(), false)],
        multiselect,
    )
}

#[test]
fn highlight_wraps_both_ways() {
    let mut list = sample(false);
    assert_eq!(list.selected_index(), 0);
    list.previous();
    assert_eq!(list.selected_index(), 2);
    list.next();
    assert_eq!(list.selected_index(), 0);
    list.next();
    assert_eq!(list.selected_index(), 1);
}

#[test]
fn single_select_clears_earlier_marks() {
    let mut list = sample(false);
    assert!(list.mark_item().is_none()); // a
    list.next();
    assert!(list.mark_item().is_none()); // b replaces a
    let flags: Vec<bool> = list.items().iter().map(|p| p.1).collect();
    assert_eq!(flags, vec![false, true, false]);
    assert_eq!(list.get_selected().as_deref(), Some("b"));
}

#[test]
fn marking_twice_in_multi_select_toggles_off() {
    let mut list = sample(true);
    list.mark_item();
    list.mark_item();
    assert!(list.get_selected().is_none());
}

#[test]
fn marking_an_empty_list_only_advises() {
    let mut list = StatefulList::with_items(Vec::new(), false);
    let msg = list.mark_item();
    assert_eq!(msg.as_deref(), Some("please make a selection"));
    assert!(list.get_selected().is_none());
    list.next();
    list.previous();
    assert_eq!(list.selected_index(), 0);
}

#[test]
fn get_selected_returns_the_first_mark() {
    let mut list = sample(true);
    list.next();
    list.next();
    list.mark_item(); // c
    assert_eq!(list.get_selected().as_deref(), Some("c"));
    list.previous();
    list.previous();
    list.mark_item(); // a, earlier in the list
    assert_eq!(list.get_selected().as_deref(), Some("a"));
}

#[test]
fn join_names_with_separators() {
    let list = sample(false);
    assert_eq!(list.join_names_with(", "), "a, b, c");
    assert_eq!(list.join_names_with(""), "abc");
    let empty = StatefulList::with_items(Vec::new(), false);
    assert_eq!(empty.join_names_with(", "), "");
    let one = StatefulList::with_items(vec![("x".to_string(), true)], false);
    assert_eq!(one.join_names_with(", "), "x");
}

#[test]
fn clone_copies_marks_and_mode() {
    let mut list = sample(true);
    list.next();
    list.mark_item();
    let copy = list.clone();
    assert_eq!(copy.selected_index(), 1);
    assert_eq!(copy.get_selected().as_deref(), Some("b"));
    // the copy is independent
    list.mark_item();
    assert!(list.get_selected().is_none());
    assert_eq!(copy.get_selected().as_deref(), Some("b"));
}
