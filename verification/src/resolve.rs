//! Turning the one selected entry of a pane into what the next pane shows.
//!
//! Binding a child and enumerating a folder are the namespace provider's
//! work. The library says which bind it needs ([`bind_request`]), the caller
//! has the provider do it, and hands the answer in as a [`BindOutcome`].

use crate::container::{clone_shown, Container, ContainerView};
use crate::entry::{Entry, EntryView};
use crate::entry_set::EntrySet;
use vstd::prelude::*;

verus! {

/// A bind that the namespace provider is asked for.
#[derive(Clone, Copy, Debug, PartialEq, Eq, Structural)]
pub struct BindRequest {
    /// The handle of the folder to bind in; `None` stands for the root of
    /// the namespace.
    pub parent: Option<u64>,
    /// The identifier of the child to bind.
    pub child: u64,
}

/// The mathematical value of a [`BindOutcome`].
pub enum BindOutcomeView {
    Bound { handle: u64, children: Seq<EntryView> },
    Failed { message: Seq<char> },
}

/// The namespace provider's answer to a [`BindRequest`].
#[derive(Debug)]
pub enum BindOutcome {
    /// The child was bound: its handle, and its children as the provider
    /// enumerated them.
    Bound { handle: u64, children: Vec<Entry> },
    /// The provider could not bind the child.
    Failed { message: String },
}

impl View for BindOutcome {
    type V = BindOutcomeView;

    open spec fn view(&self) -> BindOutcomeView {
        match self {
            BindOutcome::Bound { handle, children } => BindOutcomeView::Bound {
                handle: *handle,
                children: children.deep_view(),
            },
            BindOutcome::Failed { message } => BindOutcomeView::Failed { message: message@ },
        }
    }
}

impl DeepView for BindOutcome {
    type V = BindOutcomeView;

    open spec fn deep_view(&self) -> BindOutcomeView {
        self@
    }
}

/// What a pane is switched to: a container, or nothing, and the children
/// enumerated for it.
pub struct Target {
    pub container: Option<ContainerView>,
    pub children: Seq<EntryView>,
}

impl Target {
    /// The target that clears a pane.
    pub open spec fn absent() -> Target {
        Target { container: None, children: Seq::empty() }
    }

    /// A container that has no children to show.
    pub open spec fn childless(container: ContainerView) -> Target {
        Target { container: Some(container), children: Seq::empty() }
    }
}

/// The bind on which the resolution of `entry` under `parent` rests, if any:
/// a node is bound in the folder of a bound parent, or in the root when the
/// pane shows nothing. An error entry, and a parent that is an aggregate or
/// an error, need none.
pub open spec fn bind_needed(
    entry: EntryView,
    parent: Option<ContainerView>,
) -> Option<BindRequest> {
    match entry {
        EntryView::Error { .. } => None,
        EntryView::Node { id, .. } => match parent {
            None => Some(BindRequest { parent: None, child: id }),
            Some(ContainerView::Bound { handle, .. }) => Some(
                BindRequest { parent: Some(handle), child: id },
            ),
            Some(_) => None,
        },
    }
}

/// What the next pane shows when `entry` alone is selected in a pane that
/// shows `parent`, given the provider's answer to the bind it rests on.
///
/// An error entry gives an error with its message. Under an aggregate or an
/// error the parent itself is passed on. Otherwise the entry is bound: on
/// success the bound folder, named and drawn as the entry is, with the
/// children enumerated for it; on failure an error with the provider's
/// message. The result is `None` only while a needed answer is missing.
pub open spec fn resolved(
    entry: EntryView,
    parent: Option<ContainerView>,
    outcome: Option<BindOutcomeView>,
) -> Option<Target> {
    match entry {
        EntryView::Error { message } => Some(Target::childless(ContainerView::Error { message })),
        EntryView::Node { display, canonical_path, icon, .. } => match parent {
            Some(ContainerView::Aggregate { .. }) | Some(ContainerView::Error { .. }) => Some(
                Target { container: parent, children: Seq::empty() },
            ),
            _ => match outcome {
                None => None,
                Some(BindOutcomeView::Bound { handle, children }) => Some(
                    Target {
                        container: Some(
                            ContainerView::Bound { handle, display, icon, canonical_path },
                        ),
                        children,
                    },
                ),
                Some(BindOutcomeView::Failed { message }) => Some(
                    Target::childless(ContainerView::Error { message }),
                ),
            },
        },
    }
}

/// Says which bind the resolution of `entry` under `parent` rests on.
pub fn bind_request(entry: &Entry, parent: &Option<Container>) -> (request: Option<BindRequest>)
    ensures
        request == bind_needed(entry@, parent.deep_view()),
{
    match entry {
        Entry::Error { .. } => None,
        Entry::Node { id, .. } => match parent {
            None => Some(BindRequest { parent: None, child: *id }),
            Some(Container::Bound { handle, .. }) => Some(
                BindRequest { parent: Some(*handle), child: *id },
            ),
            Some(_) => None,
        },
    }
}

/// Resolves the one selected `entry` of a pane that shows `parent` into the
/// container for the next pane, and the children to list in it.
///
/// `outcome` is the provider's answer to `bind_request(entry, parent)`; it is
/// not looked at where no bind is needed. The result is `None` exactly when a
/// bind is needed and `outcome` is `None`.
pub fn resolve_selected_entry(
    entry: &Entry,
    parent: &Option<Container>,
    outcome: Option<BindOutcome>,
) -> (resolution: Option<(Container, Vec<Entry>)>)
    ensures
        resolution is None <==> bind_needed(entry@, parent.deep_view()) is Some && outcome is None,
        match resolution {
            Some((container, children)) => resolved(
                entry@,
                parent.deep_view(),
                outcome.deep_view(),
            ) == Some(Target { container: Some(container@), children: children.deep_view() }),
            None => resolved(entry@, parent.deep_view(), outcome.deep_view()) is None,
        },
{
    match entry {
        Entry::Error { message } => {
            let children: Vec<Entry> = Vec::new();
            assert(children.deep_view() =~= Seq::<EntryView>::empty());
            Some((Container::Error { message: message.clone() }, children))
        },
        Entry::Node { display, canonical_path, icon, .. } => match parent {
            Some(Container::Aggregate { .. }) | Some(Container::Error { .. }) => {
                let children: Vec<Entry> = Vec::new();
                assert(children.deep_view() =~= Seq::<EntryView>::empty());
                Some((clone_shown(parent).unwrap(), children))
            },
            _ => match outcome {
                None => None,
                Some(BindOutcome::Bound { handle, children }) => Some(
                    (
                        Container::Bound {
                            handle,
                            display: display.clone(),
                            icon: *icon,
                            canonical_path: canonical_path.clone(),
                        },
                        children,
                    ),
                ),
                Some(BindOutcome::Failed { message }) => {
                    let children: Vec<Entry> = Vec::new();
                    assert(children.deep_view() =~= Seq::<EntryView>::empty());
                    Some((Container::Error { message }, children))
                },
            },
        },
    }
}

/// The bind that a pane showing `parent` waits for when `selection` is what
/// is selected in it: that of its one entry, if it has exactly one.
pub open spec fn selection_awaits(
    selection: Seq<EntryView>,
    parent: Option<ContainerView>,
) -> Option<BindRequest> {
    if selection.len() == 1 {
        bind_needed(selection[0], parent)
    } else {
        None
    }
}

/// What `selection`, made in a pane that shows `parent`, pushes into the next
/// pane: nothing when it is empty, the resolution of its entry when it has
/// one, and an aggregate of its entries when it has more.
pub open spec fn selection_target(
    selection: Seq<EntryView>,
    parent: Option<ContainerView>,
    outcome: Option<BindOutcomeView>,
) -> Option<Target> {
    if selection.len() == 0 {
        Some(Target::absent())
    } else if selection.len() == 1 {
        resolved(selection[0], parent, outcome)
    } else {
        Some(Target::childless(ContainerView::Aggregate { items: selection }))
    }
}

/// Says which bind `selection`, made in a pane that shows `parent`, waits for.
pub fn pending_bind(
    selection: &EntrySet,
    parent: &Option<Container>,
) -> (request: Option<BindRequest>)
    ensures
        request == selection_awaits(selection@, parent.deep_view()),
{
    if selection.len() == 1 {
        bind_request(selection.get(0).unwrap(), parent)
    } else {
        None
    }
}

/// Computes what `selection`, made in a pane that shows `parent`, pushes into
/// the next pane: the container, or `None` to clear the pane, and the children
/// to list in it.
///
/// The outer `None` is returned exactly when a bind is needed and `outcome`
/// is `None`.
pub fn resolve_selection(
    selection: &EntrySet,
    parent: &Option<Container>,
    outcome: Option<BindOutcome>,
) -> (target: Option<(Option<Container>, Vec<Entry>)>)
    ensures
        target is None <==> selection_awaits(selection@, parent.deep_view()) is Some
            && outcome is None,
        match target {
            Some((container, children)) => selection_target(
                selection@,
                parent.deep_view(),
                outcome.deep_view(),
            ) == Some(
                Target { container: container.deep_view(), children: children.deep_view() },
            ),
            None => selection_target(selection@, parent.deep_view(), outcome.deep_view()) is None,
        },
{
    if selection.len() == 0 {
        let children: Vec<Entry> = Vec::new();
        assert(children.deep_view() =~= Seq::<EntryView>::empty());
        Some((None, children))
    } else if selection.len() == 1 {
        let only = selection.get(0).unwrap();
        match resolve_selected_entry(only, parent, outcome) {
            Some((container, children)) => Some((Some(container), children)),
            None => None,
        }
    } else {
        let children: Vec<Entry> = Vec::new();
        assert(children.deep_view() =~= Seq::<EntryView>::empty());
        Some((Some(Container::Aggregate { items: selection.clone() }), children))
    }
}

/// Under an aggregate every node resolves to that aggregate, whatever the
/// provider would have answered.
pub proof fn lemma_aggregate_passes_through(
    entry: EntryView,
    items: Seq<EntryView>,
    outcome: Option<BindOutcomeView>,
)
    requires
        entry is Node,
    ensures
        resolved(entry, Some(ContainerView::Aggregate { items }), outcome) == Some(
            Target::childless(ContainerView::Aggregate { items }),
        ),
        bind_needed(entry, Some(ContainerView::Aggregate { items })) is None,
{
}

/// An error entry resolves to an error with its message under every parent.
pub proof fn lemma_error_entry_stays_error(
    message: Seq<char>,
    parent: Option<ContainerView>,
    outcome: Option<BindOutcomeView>,
)
    ensures
        resolved(EntryView::Error { message }, parent, outcome) == Some(
            Target::childless(ContainerView::Error { message }),
        ),
{
}

/// Under an error every node resolves to that error.
pub proof fn lemma_error_parent_stays_error(
    entry: EntryView,
    message: Seq<char>,
    outcome: Option<BindOutcomeView>,
)
    requires
        entry is Node,
    ensures
        resolved(entry, Some(ContainerView::Error { message }), outcome) == Some(
            Target::childless(ContainerView::Error { message }),
        ),
{
}

} // verus!
