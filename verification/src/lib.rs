//! Pane lifecycle and selection cascade of a column-view browser.
//!
//! A column view shows a tree-shaped namespace in a row of panes: each pane
//! lists the children of what is selected in the pane to its left. This
//! library is the state behind such a view. It decides how many panes there
//! are ([`PaneManager::reconcile`]), what each of them shows
//! ([`Pane::switch`]), and how a selection made in one pane is carried into
//! the panes to its right ([`PaneManager::cascade`]), sliding the whole row
//! one level deeper when the selection is made in the last pane.
//!
//! The library draws nothing and reaches no namespace. A viewer owns the
//! widgets and knows each pane by its id. A provider binds folders and
//! enumerates their children; the library knows folders and children by the
//! numbers that the provider gave them. Where a cascade rests on a bind, the
//! caller asks [`PaneManager::bind_request`] first, has the provider make
//! the bind, and hands the [`BindOutcome`] to `cascade`.
//!
//! Every type has a mathematical view, and every function says over those
//! views what it returns and changes. The laws that relate several calls are
//! proved in [`columns`] and [`resolve`].

pub mod columns;
pub mod container;
pub mod entry;
pub mod entry_set;
pub mod manager;
pub mod pane;
pub mod resolve;
pub mod sizing;

pub use container::{Container, ContainerView, Indicator, Presentation};
pub use entry::{Entry, EntryView};
pub use entry_set::EntrySet;
pub use manager::{CascadeError, PaneManager, Reconciled};
pub use pane::{Gesture, Pane, PaneView};
pub use resolve::{bind_request, resolve_selected_entry, BindOutcome, BindRequest};
pub use sizing::calculate_column_count;
