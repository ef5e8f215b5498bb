//! One slot of the column view: the container it shows, the rows listed for
//! it, and the rows that are selected.

use crate::container::{
    indicator_of, present, report_of, shown_wf, Container, ContainerView, Presentation,
};
use crate::entry::{find_node, names_node, Entry, EntryView};
use crate::entry_set::{
    lemma_with_entry, lemma_without_entry, with_entry, without_entry, EntrySet,
};
use crate::resolve::Target;
use vstd::prelude::*;

verus! {

/// The user's gesture that opens what a pane stands for.
#[derive(Clone, Copy, Debug, PartialEq, Eq, Structural)]
pub enum Gesture {
    /// A double click on a row of the pane.
    RowDoubleClick,
    /// A double click on the proxy indicator of the pane.
    ProxyIndicator,
}

/// The canonical paths of the nodes among `entries`, in their order. Error
/// entries have no path and are left out.
pub open spec fn node_paths(entries: Seq<EntryView>) -> Seq<Seq<char>> {
    entries.filter(|e: EntryView| e is Node).map_values(|e: EntryView| e->canonical_path)
}

/// Adding one entry adds its path if it is a node, and nothing if it is not.
pub proof fn lemma_node_paths_push(entries: Seq<EntryView>, e: EntryView)
    ensures
        node_paths(entries.push(e)) == if e is Node {
            node_paths(entries).push(e->canonical_path)
        } else {
            node_paths(entries)
        },
{
    let keep = |e: EntryView| e is Node;
    let path = |e: EntryView| e->canonical_path;
    entries.lemma_filter_push(e, keep);
    if e is Node {
        entries.filter(keep).lemma_push_map_commute(path, e);
    }
}

/// The mathematical value of a [`Pane`].
pub struct PaneView {
    /// The token by which the viewer knows the widgets of this pane.
    pub id: usize,
    /// The container shown, or `None` while the pane shows nothing.
    pub container: Option<ContainerView>,
    /// The rows of the pane, in the order in which they were enumerated.
    pub children: Seq<EntryView>,
    /// The selected rows, in the order in which they were selected.
    pub selection: Seq<EntryView>,
}

impl PaneView {
    /// What holds of every pane: the selection is a set of rows of the pane,
    /// and only a bound container has rows.
    pub open spec fn wf(self) -> bool {
        &&& shown_wf(self.container)
        &&& self.selection.no_duplicates()
        &&& forall|e: EntryView| self.selection.contains(e) ==> self.children.contains(e)
        &&& self.children.len() > 0 ==> self.container matches Some(ContainerView::Bound { .. })
    }

    /// A pane that was created and never filled.
    pub open spec fn empty(id: usize) -> PaneView {
        PaneView { id, container: None, children: Seq::empty(), selection: Seq::empty() }
    }

    /// The pane `id` after it was switched to `target`: it shows the target's
    /// container, lists the target's children if that container is bound and
    /// nothing otherwise, and has nothing selected.
    pub open spec fn switched(id: usize, target: Target) -> PaneView {
        PaneView {
            id,
            container: target.container,
            children: if target.container matches Some(ContainerView::Bound { .. }) {
                target.children
            } else {
                Seq::empty()
            },
            selection: Seq::empty(),
        }
    }

    /// The selection after the row `row` was selected or deselected. A row
    /// that the pane does not have changes nothing.
    pub open spec fn toggled_selection(self, row: int, selected: bool) -> Seq<EntryView> {
        if 0 <= row < self.children.len() {
            if selected {
                with_entry(self.selection, self.children[row])
            } else {
                without_entry(self.selection, self.children[row])
            }
        } else {
            self.selection
        }
    }

    /// The pane after the row `row` was selected or deselected.
    pub open spec fn toggled(self, row: int, selected: bool) -> PaneView {
        PaneView { selection: self.toggled_selection(row, selected), ..self }
    }

    /// Whether the pane refers to the node with the child identifier `id`: as
    /// a row, or as an entry of the aggregate it shows. While it does, the
    /// provider must keep that child alive.
    pub open spec fn holds_node(self, id: u64) -> bool {
        ||| names_node(self.children, id)
        ||| names_node(self.selection, id)
        ||| (self.container matches Some(ContainerView::Aggregate { items }) && names_node(
            items,
            id,
        ))
    }

    /// Whether the pane shows the folder with the handle `handle`.
    pub open spec fn holds_folder(self, handle: u64) -> bool {
        self.container is Some && self.container->0 is Bound && self.container->0->handle
            == handle
    }

    /// The canonical paths to launch on `gesture`, in order.
    ///
    /// A double click on a row launches the selected nodes. A double click on
    /// the proxy indicator launches a bound container itself and the nodes of
    /// an aggregate; an error or an empty pane launches nothing.
    pub open spec fn activation(self, gesture: Gesture) -> Seq<Seq<char>> {
        match gesture {
            Gesture::RowDoubleClick => node_paths(self.selection),
            Gesture::ProxyIndicator => match self.container {
                Some(ContainerView::Bound { canonical_path, .. }) => seq![canonical_path],
                Some(ContainerView::Aggregate { items }) => node_paths(items),
                _ => Seq::empty(),
            },
        }
    }
}

/// Selecting or deselecting a row keeps a pane well formed.
pub proof fn lemma_toggled_wf(pane: PaneView, row: int, selected: bool)
    requires
        pane.wf(),
    ensures
        pane.toggled(row, selected).wf(),
{
    if 0 <= row < pane.children.len() {
        let e = pane.children[row];
        lemma_with_entry(pane.selection, e);
        lemma_without_entry(pane.selection, e);
        assert(pane.children.contains(e));
    }
}

/// The selected rows of a well-formed pane are rows of the pane.
pub proof fn lemma_selection_within_children(pane: PaneView)
    requires
        pane.wf(),
    ensures
        pane.selection.to_set().subset_of(pane.children.to_set()),
{
}

/// One slot of the column view.
#[derive(Debug)]
pub struct Pane {
    id: usize,
    container: Option<Container>,
    children: Vec<Entry>,
    selection: EntrySet,
}

impl View for Pane {
    type V = PaneView;

    closed spec fn view(&self) -> PaneView {
        PaneView {
            id: self.id,
            container: self.container.deep_view(),
            children: self.children.deep_view(),
            selection: self.selection@,
        }
    }
}

impl DeepView for Pane {
    type V = PaneView;

    open spec fn deep_view(&self) -> PaneView {
        self@
    }
}

/// The canonical paths of the nodes among `entries`, in their order.
fn paths_of_nodes(entries: &Vec<Entry>) -> (paths: Vec<String>)
    ensures
        paths.deep_view() == node_paths(entries.deep_view()),
{
    let ghost all = entries.deep_view();
    let mut paths: Vec<String> = Vec::new();
    let mut k: usize = 0;
    assert(all.take(0) =~= Seq::<EntryView>::empty());
    assert(node_paths(Seq::<EntryView>::empty()) =~= Seq::<Seq<char>>::empty()) by {
        reveal(Seq::filter);
    }
    assert(paths.deep_view() =~= Seq::<Seq<char>>::empty());
    while k < entries.len()
        invariant
            k <= entries.len(),
            all == entries.deep_view(),
            paths.deep_view() == node_paths(all.take(k as int)),
        decreases entries.len() - k,
    {
        proof {
            all.lemma_take_succ_push(k as int);
            lemma_node_paths_push(all.take(k as int), all[k as int]);
        }
        let ghost before = paths.deep_view();
        match &entries[k] {
            Entry::Node { canonical_path, .. } => {
                paths.push(canonical_path.clone());
                assert(paths.deep_view() =~= before.push(canonical_path@));
            },
            Entry::Error { .. } => {},
        }
        k += 1;
    }
    assert(all.take(k as int) =~= all);
    paths
}

impl Pane {
    /// The selection is a set of rows of the pane, and only a bound container
    /// has rows. This holds of every pane at all times.
    #[verifier::type_invariant]
    pub open spec fn wf(&self) -> bool {
        self@.wf()
    }

    /// A pane that shows nothing.
    pub fn new(id: usize) -> (pane: Self)
        ensures
            pane@ == PaneView::empty(id),
            pane.wf(),
    {
        let pane = Pane { id, container: None, children: Vec::new(), selection: EntrySet::new() };
        assert(pane.children.deep_view() =~= Seq::<EntryView>::empty());
        pane
    }

    /// The token by which the viewer knows the widgets of this pane.
    pub fn id(&self) -> (id: usize)
        ensures
            id == self@.id,
    {
        self.id
    }

    /// The container shown, or `None` while the pane shows nothing.
    pub fn container(&self) -> (container: &Option<Container>)
        ensures
            container.deep_view() == self@.container,
    {
        &self.container
    }

    /// The rows of the pane; the row with index `i` in the list widget is
    /// `children()[i]`.
    pub fn children(&self) -> (children: &Vec<Entry>)
        ensures
            children.deep_view() == self@.children,
    {
        &self.children
    }

    /// The selected rows.
    pub fn selection(&self) -> (selection: &EntrySet)
        ensures
            selection@ == self@.selection,
    {
        &self.selection
    }

    /// Whether the pane shows nothing.
    pub fn is_absent(&self) -> (absent: bool)
        ensures
            absent == (self@.container is None),
    {
        self.container.is_none()
    }

    /// Says how the viewer presents the pane beside its rows.
    pub fn presentation(&self) -> (presentation: Presentation)
        ensures
            presentation.indicator == indicator_of(self@.container),
            presentation.report.deep_view() == report_of(self@.container),
    {
        present(&self.container)
    }

    /// Replaces the content of the pane: forgets rows and selection, shows
    /// `container`, and lists `listing` if `container` is bound. `listing` is
    /// what the provider enumerated for `container`; for any other container
    /// it is dropped.
    pub fn switch(
        &mut self,
        container: Option<Container>,
        listing: Vec<Entry>,
    ) -> (presentation: Presentation)
        ensures
            final(self)@ == PaneView::switched(
                old(self)@.id,
                Target { container: container.deep_view(), children: listing.deep_view() },
            ),
            final(self).wf(),
            presentation.indicator == indicator_of(container.deep_view()),
            presentation.report.deep_view() == report_of(container.deep_view()),
    {
        let presentation = present(&container);
        let children = match &container {
            Some(Container::Bound { .. }) => listing,
            _ => {
                let none: Vec<Entry> = Vec::new();
                assert(none.deep_view() =~= Seq::<EntryView>::empty());
                none
            },
        };
        *self = Pane { id: self.id, container, children, selection: EntrySet::new() };
        presentation
    }

    /// The selection as it is after the row `row` was selected or deselected.
    pub fn toggled_selection(&self, row: usize, selected: bool) -> (selection: EntrySet)
        ensures
            selection@ == self@.toggled_selection(row as int, selected),
    {
        let mut selection = self.selection.clone();
        if row < self.children.len() {
            if selected {
                selection.insert(self.children[row].clone());
            } else {
                selection.remove(&self.children[row]);
            }
        }
        selection
    }

    /// Selects or deselects the row `row`. A row that the pane does not have
    /// changes nothing.
    pub fn toggle(&mut self, row: usize, selected: bool)
        ensures
            final(self)@ == old(self)@.toggled(row as int, selected),
            final(self).wf(),
    {
        proof {
            use_type_invariant(&*self);
            lemma_toggled_wf(self@, row as int, selected);
        }
        self.selection = self.toggled_selection(row, selected);
    }

    /// Says whether the pane refers to the node with the child identifier
    /// `id`.
    pub fn holds_node(&self, id: u64) -> (held: bool)
        ensures
            held == self@.holds_node(id),
    {
        if find_node(&self.children, id) || find_node(self.selection.entries(), id) {
            true
        } else {
            match &self.container {
                Some(Container::Aggregate { items }) => find_node(items.entries(), id),
                _ => false,
            }
        }
    }

    /// Says whether the pane shows the folder with the handle `handle`.
    pub fn holds_folder(&self, handle: u64) -> (held: bool)
        ensures
            held == self@.holds_folder(handle),
    {
        match &self.container {
            Some(Container::Bound { handle: held, .. }) => *held == handle,
            _ => false,
        }
    }

    /// The canonical paths that the provider is to launch on `gesture`, in
    /// order; empty when the gesture opens nothing.
    pub fn activation(&self, gesture: Gesture) -> (paths: Vec<String>)
        ensures
            paths.deep_view() == self@.activation(gesture),
    {
        match gesture {
            Gesture::RowDoubleClick => paths_of_nodes(self.selection.entries()),
            Gesture::ProxyIndicator => match &self.container {
                Some(Container::Bound { canonical_path, .. }) => {
                    let mut paths: Vec<String> = Vec::new();
                    paths.push(canonical_path.clone());
                    assert(paths.deep_view() =~= seq![canonical_path@]);
                    paths
                },
                Some(Container::Aggregate { items }) => paths_of_nodes(items.entries()),
                _ => {
                    let paths: Vec<String> = Vec::new();
                    assert(paths.deep_view() =~= Seq::<Seq<char>>::empty());
                    paths
                },
            },
        }
    }
}

} // verus!
