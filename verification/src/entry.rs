//! One row of a pane: a reference to a tree node, or an error sentinel.

use vstd::prelude::*;
use vstd::std_specs::cmp::PartialEqSpecImpl;

verus! {

/// The mathematical value of an [`Entry`].
pub enum EntryView {
    Node { id: u64, display: Seq<char>, canonical_path: Seq<char>, icon: Option<i32> },
    Error { message: Seq<char> },
}

impl EntryView {
    /// Whether this is the node with the child identifier `id`.
    pub open spec fn is_node_with(self, id: u64) -> bool {
        self is Node && self->id == id
    }
}

/// One child row shown in a pane.
///
/// `id` stands for the child identifier that the namespace provider handed
/// out when the row was enumerated; two rows are the same entry exactly when
/// all their fields agree.
#[derive(Debug)]
pub enum Entry {
    Node { id: u64, display: String, canonical_path: String, icon: Option<i32> },
    Error { message: String },
}

impl View for Entry {
    type V = EntryView;

    open spec fn view(&self) -> EntryView {
        match self {
            Entry::Node { id, display, canonical_path, icon } => EntryView::Node {
                id: *id,
                display: display@,
                canonical_path: canonical_path@,
                icon: *icon,
            },
            Entry::Error { message } => EntryView::Error { message: message@ },
        }
    }
}

impl DeepView for Entry {
    type V = EntryView;

    open spec fn deep_view(&self) -> EntryView {
        self@
    }
}

impl Clone for Entry {
    fn clone(&self) -> (copy: Self)
        ensures
            copy@ == self@,
    {
        match self {
            Entry::Node { id, display, canonical_path, icon } => Entry::Node {
                id: *id,
                display: display.clone(),
                canonical_path: canonical_path.clone(),
                icon: *icon,
            },
            Entry::Error { message } => Entry::Error { message: message.clone() },
        }
    }
}

impl PartialEq for Entry {
    fn eq(&self, other: &Self) -> (same: bool) {
        match (self, other) {
            (
                Entry::Node { id: a, display: b, canonical_path: c, icon: d },
                Entry::Node { id: p, display: q, canonical_path: r, icon: s },
            ) => *a == *p && *b == *q && *c == *r && same_icon(*d, *s),
            (Entry::Error { message: a }, Entry::Error { message: p }) => *a == *p,
            _ => false,
        }
    }
}

impl PartialEqSpecImpl for Entry {
    open spec fn obeys_eq_spec() -> bool {
        true
    }

    open spec fn eq_spec(&self, other: &Self) -> bool {
        self@ == other@
    }
}

impl Eq for Entry {

}

fn same_icon(a: Option<i32>, b: Option<i32>) -> (same: bool)
    ensures
        same == (a == b),
{
    match (a, b) {
        (Some(x), Some(y)) => x == y,
        (None, None) => true,
        _ => false,
    }
}

/// Whether one of `entries` is the node with the child identifier `id`.
pub open spec fn names_node(entries: Seq<EntryView>, id: u64) -> bool {
    exists|k: int| 0 <= k < entries.len() && (#[trigger] entries[k]).is_node_with(id)
}

/// Says whether one of `entries` is the node with the child identifier `id`.
pub fn find_node(entries: &Vec<Entry>, id: u64) -> (found: bool)
    ensures
        found == names_node(entries.deep_view(), id),
{
    let mut k: usize = 0;
    while k < entries.len()
        invariant
            k <= entries.len(),
            forall|j: int| 0 <= j < k ==> !(#[trigger] entries.deep_view()[j]).is_node_with(id),
        decreases entries.len() - k,
    {
        match &entries[k] {
            Entry::Node { id: held, .. } => {
                if *held == id {
                    assert(entries.deep_view()[k as int] == entries@[k as int]@);
                    return true;
                }
            },
            Entry::Error { .. } => {},
        }
        assert(entries.deep_view()[k as int] == entries@[k as int]@);
        k += 1;
    }
    false
}

/// Copies a list of entries.
pub fn clone_entries(entries: &Vec<Entry>) -> (copy: Vec<Entry>)
    ensures
        copy.deep_view() == entries.deep_view(),
{
    let mut copy: Vec<Entry> = Vec::new();
    let mut k: usize = 0;
    while k < entries.len()
        invariant
            k <= entries.len(),
            copy@.len() == k,
            forall|j: int| 0 <= j < k ==> copy@[j]@ == entries@[j]@,
        decreases entries.len() - k,
    {
        copy.push(entries[k].clone());
        k += 1;
    }
    assert(copy.deep_view() =~= entries.deep_view());
    copy
}

impl Entry {
    /// Whether the entry refers to a tree node.
    pub fn is_node(&self) -> (node: bool)
        ensures
            node == (self@ is Node),
    {
        match self {
            Entry::Node { .. } => true,
            Entry::Error { .. } => false,
        }
    }
}

} // verus!
