use stapler::container::present;
use stapler::{Container, Entry, EntrySet, Gesture, Indicator, Pane};

fn node(id: u64, name: &str) -> Entry {
    Entry::Node {
        id,
        display: name.to_string(),
        canonical_path: format!("/{name}"),
        icon: Some(id as i32),
    }
}

fn failure(message: &str) -> Entry {
    Entry::Error { message: message.to_string() }
}

fn folder(handle: u64, name: &str, icon: Option<i32>) -> Container {
    Container::Bound {
        handle,
        display: name.to_string(),
        icon,
        canonical_path: format!("/{name}"),
    }
}

fn aggregate(entries: Vec<Entry>) -> Container {
    let mut items = EntrySet::new();
    for entry in entries {
        items.insert(entry);
    }
    Container::Aggregate { items }
}

fn listed(children: Vec<Entry>) -> Pane {
    let mut pane = Pane::new(0);
    pane.switch(Some(folder(1, "home", Some(4))), children);
    pane
}

#[test]
fn a_new_pane_shows_nothing() {
    let pane = Pane::new(4);
    assert_eq!(pane.id(), 4);
    assert!(pane.is_absent());
    assert!(pane.container().is_none());
    assert!(pane.children().is_empty());
    assert!(pane.selection().is_empty());
    let presentation = pane.presentation();
    assert_eq!(presentation.indicator, Indicator::Hidden);
    assert_eq!(presentation.report, None);
}

#[test]
fn switch_to_a_folder_lists_its_children_in_order() {
    let mut pane = Pane::new(2);
    let presentation =
        pane.switch(Some(folder(1, "home", Some(4))), vec![node(2, "b"), node(1, "a")]);
    assert_eq!(presentation.indicator, Indicator::Icon(4));
    assert_eq!(presentation.report, None);
    assert_eq!(pane.id(), 2);
    assert!(!pane.is_absent());
    assert!(matches!(pane.container(), Some(Container::Bound { handle: 1, .. })));
    assert_eq!(pane.children(), &vec![node(2, "b"), node(1, "a")]);
    assert!(pane.selection().is_empty());
}

#[test]
fn a_folder_without_icon_hides_the_indicator() {
    let mut pane = Pane::new(0);
    let presentation = pane.switch(Some(folder(1, "home", None)), vec![node(1, "a")]);
    assert_eq!(presentation.indicator, Indicator::Hidden);
    assert_eq!(pane.presentation().indicator, Indicator::Hidden);
    assert_eq!(pane.children().len(), 1);
}

#[test]
fn switch_forgets_rows_and_selection() {
    let mut pane = listed(vec![node(1, "a"), node(2, "b")]);
    pane.toggle(0, true);
    assert_eq!(pane.selection().len(), 1);
    pane.switch(Some(folder(5, "other", None)), vec![node(9, "z")]);
    assert_eq!(pane.children(), &vec![node(9, "z")]);
    assert!(pane.selection().is_empty());
    pane.toggle(0, true);
    pane.switch(None, vec![node(3, "dropped")]);
    assert!(pane.is_absent());
    assert!(pane.children().is_empty());
    assert!(pane.selection().is_empty());
}

#[test]
fn switch_to_an_error_reports_the_message_and_lists_nothing() {
    let mut pane = listed(vec![node(1, "a")]);
    let presentation = pane.switch(
        Some(Container::Error { message: "access denied".to_string() }),
        vec![node(3, "dropped")],
    );
    assert_eq!(presentation.indicator, Indicator::Hidden);
    assert_eq!(presentation.report, Some("access denied".to_string()));
    assert!(pane.children().is_empty());
    assert!(matches!(pane.container(), Some(Container::Error { .. })));
    assert_eq!(pane.presentation().report, Some("access denied".to_string()));
}

#[test]
fn switch_to_an_aggregate_shows_the_multiple_icon_and_lists_nothing() {
    let mut pane = Pane::new(0);
    let presentation = pane.switch(
        Some(aggregate(vec![node(1, "a"), node(2, "b")])),
        vec![node(3, "dropped")],
    );
    assert_eq!(presentation.indicator, Indicator::Multiple);
    assert_eq!(presentation.report, None);
    assert!(pane.children().is_empty());
    assert!(pane.selection().is_empty());
}

#[test]
fn an_empty_aggregate_hides_the_indicator() {
    let mut pane = Pane::new(0);
    let presentation = pane.switch(Some(aggregate(vec![])), vec![]);
    assert_eq!(presentation.indicator, Indicator::Hidden);
    assert_eq!(present(&Some(aggregate(vec![]))).indicator, Indicator::Hidden);
    assert_eq!(present(&None).indicator, Indicator::Hidden);
}

#[test]
fn toggle_selects_and_deselects_rows() {
    let mut pane = listed(vec![node(1, "a"), node(2, "b"), node(3, "c")]);
    pane.toggle(2, true);
    pane.toggle(0, true);
    assert_eq!(pane.selection().entries(), &vec![node(3, "c"), node(1, "a")]);
    pane.toggle(2, true);
    assert_eq!(pane.selection().len(), 2);
    pane.toggle(2, false);
    assert_eq!(pane.selection().entries(), &vec![node(1, "a")]);
    pane.toggle(1, false);
    assert_eq!(pane.selection().entries(), &vec![node(1, "a")]);
    pane.toggle(0, false);
    assert!(pane.selection().is_empty());
}

#[test]
fn toggle_of_a_row_that_is_not_there_changes_nothing() {
    let mut pane = listed(vec![node(1, "a")]);
    pane.toggle(0, true);
    pane.toggle(1, true);
    pane.toggle(7, false);
    assert_eq!(pane.selection().entries(), &vec![node(1, "a")]);
    let mut empty = Pane::new(0);
    empty.toggle(0, true);
    assert!(empty.selection().is_empty());
}

#[test]
fn toggled_selection_leaves_the_pane_alone() {
    let mut pane = listed(vec![node(1, "a"), node(2, "b")]);
    pane.toggle(0, true);
    let next = pane.toggled_selection(1, true);
    assert_eq!(next.entries(), &vec![node(1, "a"), node(2, "b")]);
    let fewer = pane.toggled_selection(0, false);
    assert!(fewer.is_empty());
    assert_eq!(pane.selection().entries(), &vec![node(1, "a")]);
}

#[test]
fn the_selection_stays_within_the_rows() {
    let rows = vec![node(1, "a"), node(2, "b"), node(3, "c")];
    let mut pane = listed(rows.clone());
    for (row, selected) in [(0, true), (5, true), (2, true), (0, false), (1, true), (9, false)] {
        pane.toggle(row, selected);
        for entry in pane.selection().entries() {
            assert!(rows.contains(entry));
        }
    }
}

#[test]
fn equal_rows_are_selected_as_one() {
    let mut pane = listed(vec![node(1, "a"), node(1, "a")]);
    pane.toggle(0, true);
    pane.toggle(1, true);
    assert_eq!(pane.selection().len(), 1);
    pane.toggle(1, false);
    assert!(pane.selection().is_empty());
}

#[test]
fn a_double_click_on_a_row_opens_the_selected_nodes() {
    let mut pane = Pane::new(0);
    pane.switch(
        Some(folder(1, "home", None)),
        vec![node(1, "a"), failure("unreadable"), node(2, "b")],
    );
    assert!(pane.activation(Gesture::RowDoubleClick).is_empty());
    pane.toggle(2, true);
    pane.toggle(1, true);
    pane.toggle(0, true);
    assert_eq!(
        pane.activation(Gesture::RowDoubleClick),
        vec!["/b".to_string(), "/a".to_string()]
    );
}

#[test]
fn a_double_click_on_the_indicator_opens_the_folder() {
    let mut pane = listed(vec![node(1, "a"), node(2, "b")]);
    pane.toggle(0, true);
    assert_eq!(pane.activation(Gesture::ProxyIndicator), vec!["/home".to_string()]);
}

#[test]
fn a_double_click_on_the_indicator_opens_the_nodes_of_an_aggregate() {
    let mut pane = Pane::new(0);
    pane.switch(
        Some(aggregate(vec![node(1, "a"), failure("unreadable"), node(2, "b")])),
        vec![],
    );
    assert_eq!(
        pane.activation(Gesture::ProxyIndicator),
        vec!["/a".to_string(), "/b".to_string()]
    );
    assert!(pane.activation(Gesture::RowDoubleClick).is_empty());
}

#[test]
fn errors_and_empty_panes_open_nothing() {
    let mut pane = Pane::new(0);
    assert!(pane.activation(Gesture::ProxyIndicator).is_empty());
    assert!(pane.activation(Gesture::RowDoubleClick).is_empty());
    pane.switch(Some(Container::Error { message: "gone".to_string() }), vec![]);
    assert!(pane.activation(Gesture::ProxyIndicator).is_empty());
    assert!(pane.activation(Gesture::RowDoubleClick).is_empty());
}

#[test]
fn a_pane_holds_the_nodes_it_lists_and_the_folder_it_shows() {
    let mut pane = listed(vec![node(1, "a"), node(2, "b")]);
    assert!(pane.holds_node(1));
    assert!(pane.holds_node(2));
    assert!(!pane.holds_node(3));
    assert!(pane.holds_folder(1));
    assert!(!pane.holds_folder(2));
    pane.switch(Some(aggregate(vec![node(7, "x")])), vec![]);
    assert!(pane.holds_node(7));
    assert!(!pane.holds_node(1));
    assert!(!pane.holds_folder(1));
    pane.switch(None, vec![]);
    assert!(!pane.holds_node(7));
}
