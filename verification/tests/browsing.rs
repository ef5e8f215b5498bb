use std::collections::HashMap;

use stapler::manager::CascadeError;
use stapler::{
    calculate_column_count, BindOutcome, BindRequest, Container, Entry, Gesture, Indicator,
    PaneManager,
};

/// A namespace of nested folders, which hands out numbers as the library
/// expects them of a provider.
#[derive(Default)]
struct Tree {
    /// Path of each folder that was bound, by handle.
    folders: HashMap<u64, String>,
    /// Path of each child that was enumerated, by id.
    items: HashMap<u64, String>,
    /// The children of each folder, by path. A path without an entry here
    /// cannot be bound.
    listing: HashMap<String, Vec<String>>,
    next: u64,
}

impl Tree {
    fn with(folders: &[(&str, &[&str])]) -> Tree {
        let mut tree = Tree::default();
        for (path, names) in folders {
            tree.listing.insert(path.to_string(), names.iter().map(|n| n.to_string()).collect());
        }
        tree
    }

    fn number(&mut self) -> u64 {
        self.next += 1;
        self.next
    }

    fn root(&mut self) -> Container {
        let handle = self.number();
        self.folders.insert(handle, String::new());
        Container::Bound {
            handle,
            display: "Desktop".to_string(),
            icon: Some(0),
            canonical_path: String::new(),
        }
    }

    fn enumerate(&mut self, handle: u64) -> Vec<Entry> {
        let parent = self.folders[&handle].clone();
        let names = self.listing.get(&parent).cloned().unwrap_or_default();
        let mut children = Vec::new();
        for name in names {
            let path = format!("{parent}/{name}");
            let id = self.number();
            self.items.insert(id, path.clone());
            children.push(Entry::Node {
                id,
                display: name,
                canonical_path: path,
                icon: Some(id as i32),
            });
        }
        children
    }

    fn bind(&mut self, request: &BindRequest) -> BindOutcome {
        if let Some(parent) = request.parent {
            assert!(self.folders.contains_key(&parent));
        }
        let path = self.items[&request.child].clone();
        if self.listing.contains_key(&path) {
            let handle = self.number();
            self.folders.insert(handle, path);
            let children = self.enumerate(handle);
            BindOutcome::Bound { handle, children }
        } else {
            BindOutcome::Failed { message: format!("{path} is not a folder") }
        }
    }

    fn release_unused(&mut self, panes: &PaneManager) {
        self.folders.retain(|handle, _| panes.holds_folder(*handle));
        self.items.retain(|id, _| panes.holds_node(*id));
    }
}

/// What a viewer would draw for one pane.
#[derive(Debug, PartialEq)]
struct Drawn {
    indicator: Indicator,
    rows: Vec<String>,
}

#[derive(Default)]
struct Viewer {
    panes: PaneManager,
    tree: Tree,
    drawn: HashMap<usize, Drawn>,
    reported: Vec<String>,
    launched: Vec<String>,
}

impl Viewer {
    fn new(tree: Tree, width: i32) -> Viewer {
        let mut viewer = Viewer { tree, ..Viewer::default() };
        viewer.resize(width);
        let root = viewer.tree.root();
        let listing = match &root {
            Container::Bound { handle, .. } => viewer.tree.enumerate(*handle),
            _ => Vec::new(),
        };
        viewer.panes.switch_column(0, Some(root), listing);
        viewer.show(0);
        viewer
    }

    fn resize(&mut self, width: i32) {
        let outcome = self.panes.reconcile(calculate_column_count(width));
        for destroyed in &outcome.destroyed {
            assert!(self.drawn.remove(&destroyed.id()).is_some());
        }
        let count = self.panes.len();
        for slot in count - outcome.created..count {
            let id = self.panes.pane(slot).unwrap().id();
            let fresh = self.drawn.insert(id, Drawn { indicator: Indicator::Hidden, rows: vec![] });
            assert!(fresh.is_none());
        }
        self.tree.release_unused(&self.panes);
    }

    fn show(&mut self, slot: usize) {
        let pane = self.panes.pane(slot).unwrap();
        let presentation = pane.presentation();
        if let Some(message) = presentation.report {
            self.reported.push(message);
        }
        let rows = pane
            .children()
            .iter()
            .map(|child| match child {
                Entry::Node { display, .. } => display.clone(),
                Entry::Error { message } => format!("{message:?}"),
            })
            .collect();
        self.drawn.insert(pane.id(), Drawn { indicator: presentation.indicator, rows });
    }

    fn toggle(&mut self, id: usize, row: usize, selected: bool) -> Result<bool, CascadeError> {
        let slot = self.panes.slot_of(id).unwrap();
        let outcome =
            self.panes.bind_request(slot, row, selected).map(|request| self.tree.bind(&request));
        let result = self.panes.cascade(slot, row, selected, outcome);
        match result {
            Ok(true) => self.show(self.panes.len() - 1),
            Ok(false) => {
                for right in slot + 1..self.panes.len() {
                    self.show(right);
                }
            }
            Err(_) => {}
        }
        self.tree.release_unused(&self.panes);
        result
    }

    fn open(&mut self, id: usize, gesture: Gesture) {
        let slot = self.panes.slot_of(id).unwrap();
        for path in self.panes.activation(slot, gesture) {
            self.launched.push(path);
        }
    }

    fn rows(&self, slot: usize) -> Vec<String> {
        self.drawn[&self.panes.pane(slot).unwrap().id()].rows.clone()
    }

    fn indicator(&self, slot: usize) -> Indicator {
        self.drawn[&self.panes.pane(slot).unwrap().id()].indicator
    }

    fn ids(&self) -> Vec<usize> {
        (0..self.panes.len()).map(|slot| self.panes.pane(slot).unwrap().id()).collect()
    }
}

fn home() -> Tree {
    Tree::with(&[
        ("", &["docs", "music", "notes.txt"]),
        ("/docs", &["letters", "todo.txt"]),
        ("/docs/letters", &["one.txt", "two.txt"]),
        ("/music", &[]),
    ])
}

#[test]
fn a_viewer_walks_down_the_tree() {
    let mut viewer = Viewer::new(home(), 800);
    assert_eq!(viewer.ids(), vec![0, 1, 2]);
    assert_eq!(viewer.rows(0), vec!["docs", "music", "notes.txt"]);
    assert_eq!(viewer.indicator(0), Indicator::Icon(0));

    assert_eq!(viewer.toggle(0, 0, true), Ok(false));
    assert_eq!(viewer.rows(1), vec!["letters", "todo.txt"]);
    assert!(viewer.rows(2).is_empty());
    assert_eq!(viewer.indicator(2), Indicator::Hidden);

    assert_eq!(viewer.toggle(1, 0, true), Ok(false));
    assert_eq!(viewer.rows(2), vec!["one.txt", "two.txt"]);

    // The last pane has no pane to its right: the first one is recycled.
    assert_eq!(viewer.toggle(2, 1, true), Ok(true));
    assert_eq!(viewer.ids(), vec![1, 2, 0]);
    assert_eq!(viewer.rows(0), vec!["letters", "todo.txt"]);
    assert_eq!(viewer.rows(1), vec!["one.txt", "two.txt"]);
    assert!(viewer.rows(2).is_empty());
    assert_eq!(viewer.indicator(2), Indicator::Hidden);
    assert_eq!(viewer.reported, vec!["/docs/letters/two.txt is not a folder".to_string()]);
}

#[test]
fn a_viewer_shows_the_multiple_icon_for_several_rows() {
    let mut viewer = Viewer::new(home(), 800);
    viewer.toggle(0, 0, true).unwrap();
    viewer.toggle(0, 1, true).unwrap();
    assert_eq!(viewer.indicator(1), Indicator::Multiple);
    assert!(viewer.rows(1).is_empty());
    viewer.open(1, Gesture::ProxyIndicator);
    assert_eq!(viewer.launched, vec!["/docs".to_string(), "/music".to_string()]);
    viewer.toggle(0, 0, false).unwrap();
    assert_eq!(viewer.indicator(1), Indicator::Icon(viewer_icon(&viewer, 0, 1)));
    assert!(viewer.rows(1).is_empty());
}

fn viewer_icon(viewer: &Viewer, slot: usize, row: usize) -> i32 {
    match &viewer.panes.pane(slot).unwrap().children()[row] {
        Entry::Node { icon: Some(icon), .. } => *icon,
        other => panic!("no icon: {other:?}"),
    }
}

#[test]
fn a_viewer_opens_rows_and_folders() {
    let mut viewer = Viewer::new(home(), 800);
    viewer.toggle(0, 2, true).unwrap();
    viewer.open(0, Gesture::RowDoubleClick);
    assert_eq!(viewer.launched, vec!["/notes.txt".to_string()]);
    viewer.toggle(0, 2, false).unwrap();
    viewer.toggle(0, 0, true).unwrap();
    viewer.open(1, Gesture::ProxyIndicator);
    assert_eq!(viewer.launched, vec!["/notes.txt".to_string(), "/docs".to_string()]);
    viewer.open(2, Gesture::ProxyIndicator);
    viewer.open(2, Gesture::RowDoubleClick);
    assert_eq!(viewer.launched.len(), 2);
}

#[test]
fn a_viewer_releases_what_no_pane_refers_to() {
    let mut viewer = Viewer::new(home(), 800);
    viewer.toggle(0, 0, true).unwrap();
    viewer.toggle(1, 0, true).unwrap();
    assert_eq!(viewer.tree.folders.len(), 3);
    assert_eq!(viewer.tree.items.len(), 7);
    viewer.toggle(0, 0, false).unwrap();
    assert_eq!(viewer.tree.folders.len(), 1);
    assert_eq!(viewer.tree.items.len(), 3);
    viewer.toggle(0, 0, true).unwrap();
    viewer.toggle(0, 1, true).unwrap();
    assert_eq!(viewer.tree.folders.len(), 1);
    assert_eq!(viewer.tree.items.len(), 3);
}

#[test]
fn a_viewer_keeps_the_deepest_panes_when_the_window_shrinks() {
    let mut viewer = Viewer::new(home(), 800);
    viewer.toggle(0, 0, true).unwrap();
    viewer.toggle(1, 0, true).unwrap();
    viewer.resize(400);
    assert_eq!(viewer.ids(), vec![1, 2]);
    assert_eq!(viewer.rows(0), vec!["letters", "todo.txt"]);
    assert_eq!(viewer.rows(1), vec!["one.txt", "two.txt"]);
    assert_eq!(viewer.drawn.len(), 2);
    viewer.resize(1000);
    assert_eq!(viewer.ids(), vec![1, 2, 0, 3]);
    assert!(viewer.rows(2).is_empty());
    // The pane with the id 2 stands in the second slot and lists the letters.
    assert_eq!(viewer.toggle(2, 0, true), Ok(false));
    assert_eq!(viewer.indicator(2), Indicator::Hidden);
    assert_eq!(viewer.reported, vec!["/docs/letters/one.txt is not a folder".to_string()]);
    // The pane with the id 1 stands in the first slot; `letters` is selected
    // in it already.
    assert_eq!(viewer.toggle(1, 1, true), Ok(false));
    assert_eq!(viewer.indicator(1), Indicator::Multiple);
    assert!(viewer.rows(1).is_empty());
    assert_eq!(viewer.indicator(2), Indicator::Hidden);
    assert_eq!(viewer.reported.len(), 1);
}

#[test]
fn a_viewer_with_one_pane_browses_in_place() {
    let mut viewer = Viewer::new(home(), 100);
    assert_eq!(viewer.ids(), vec![0]);
    assert_eq!(viewer.toggle(0, 0, true), Ok(true));
    assert_eq!(viewer.rows(0), vec!["letters", "todo.txt"]);
    assert_eq!(viewer.toggle(0, 0, true), Ok(true));
    assert_eq!(viewer.rows(0), vec!["one.txt", "two.txt"]);
    assert_eq!(viewer.tree.folders.len(), 1);
}
