//! What a pane displays: a bound namespace node, an aggregate of several
//! selected entries, or an error.

use crate::entry::EntryView;
use crate::entry_set::EntrySet;
use vstd::prelude::*;

verus! {

/// The mathematical value of a [`Container`].
pub enum ContainerView {
    Bound { handle: u64, display: Seq<char>, icon: Option<i32>, canonical_path: Seq<char> },
    Aggregate { items: Seq<EntryView> },
    Error { message: Seq<char> },
}

impl ContainerView {
    /// The entries of an aggregate form a set.
    pub open spec fn wf(self) -> bool {
        self matches ContainerView::Aggregate { items } ==> items.no_duplicates()
    }
}

/// What a pane holds when it shows a container, or nothing.
pub open spec fn shown_wf(shown: Option<ContainerView>) -> bool {
    shown matches Some(container) ==> container.wf()
}

/// The content of a pane.
///
/// `handle` stands for the folder that the namespace provider bound; the
/// library hands it back to the provider and never looks inside.
#[derive(Debug)]
pub enum Container {
    /// A namespace node whose children can be enumerated.
    Bound { handle: u64, display: String, icon: Option<i32>, canonical_path: String },
    /// Several entries selected in the pane to the left. It cannot be
    /// enumerated and has no canonical path of its own.
    Aggregate { items: EntrySet },
    /// A failure of the provider, kept as data.
    Error { message: String },
}

impl View for Container {
    type V = ContainerView;

    open spec fn view(&self) -> ContainerView {
        match self {
            Container::Bound { handle, display, icon, canonical_path } => ContainerView::Bound {
                handle: *handle,
                display: display@,
                icon: *icon,
                canonical_path: canonical_path@,
            },
            Container::Aggregate { items } => ContainerView::Aggregate { items: items@ },
            Container::Error { message } => ContainerView::Error { message: message@ },
        }
    }
}

impl DeepView for Container {
    type V = ContainerView;

    open spec fn deep_view(&self) -> ContainerView {
        self@
    }
}

impl Clone for Container {
    fn clone(&self) -> (copy: Self)
        ensures
            copy@ == self@,
    {
        match self {
            Container::Bound { handle, display, icon, canonical_path } => Container::Bound {
                handle: *handle,
                display: display.clone(),
                icon: *icon,
                canonical_path: canonical_path.clone(),
            },
            Container::Aggregate { items } => Container::Aggregate { items: items.clone() },
            Container::Error { message } => Container::Error { message: message.clone() },
        }
    }
}

/// Copies what a pane shows.
pub fn clone_shown(shown: &Option<Container>) -> (copy: Option<Container>)
    ensures
        copy.deep_view() == shown.deep_view(),
{
    match shown {
        Some(container) => Some(container.clone()),
        None => None,
    }
}

/// The proxy indicator beside a pane.
#[derive(Clone, Copy, Debug, PartialEq, Eq, Structural)]
pub enum Indicator {
    /// No indicator is shown.
    Hidden,
    /// The icon with this index in the system image list.
    Icon(i32),
    /// The icon that stands for a selection of several entries.
    Multiple,
}

/// The proxy indicator that goes with what a pane shows.
pub open spec fn indicator_of(shown: Option<ContainerView>) -> Indicator {
    match shown {
        Some(ContainerView::Bound { icon: Some(index), .. }) => Indicator::Icon(index),
        Some(ContainerView::Aggregate { items }) if items.len() > 0 => Indicator::Multiple,
        _ => Indicator::Hidden,
    }
}

/// The message to report for what a pane shows: that of an error container.
pub open spec fn report_of(shown: Option<ContainerView>) -> Option<Seq<char>> {
    match shown {
        Some(ContainerView::Error { message }) => Some(message),
        _ => None,
    }
}

/// What the viewer presents beside the rows of a pane.
#[derive(Debug)]
pub struct Presentation {
    /// The state of the proxy indicator.
    pub indicator: Indicator,
    /// A message for the error reporter, if the pane shows an error.
    pub report: Option<String>,
}

/// Says how the viewer presents a pane that shows `shown`.
pub fn present(shown: &Option<Container>) -> (presentation: Presentation)
    ensures
        presentation.indicator == indicator_of(shown.deep_view()),
        presentation.report.deep_view() == report_of(shown.deep_view()),
        shown_wf(shown.deep_view()),
{
    match shown {
        Some(Container::Bound { icon: Some(index), .. }) => Presentation {
            indicator: Indicator::Icon(*index),
            report: None,
        },
        Some(Container::Bound { icon: None, .. }) => Presentation {
            indicator: Indicator::Hidden,
            report: None,
        },
        Some(Container::Aggregate { items }) => {
            proof {
                use_type_invariant(items);
            }
            if items.is_empty() {
                Presentation { indicator: Indicator::Hidden, report: None }
            } else {
                Presentation { indicator: Indicator::Multiple, report: None }
            }
        },
        Some(Container::Error { message }) => Presentation {
            indicator: Indicator::Hidden,
            report: Some(message.clone()),
        },
        None => Presentation { indicator: Indicator::Hidden, report: None },
    }
}

} // verus!
