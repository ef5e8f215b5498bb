//! The owner of the panes: it keeps their number in step with the viewport
//! and carries a selection made in one pane into the panes to its right.

use crate::columns::{
    absent_only_at_tail, cascade_awaits, cascade_target, cascaded, created_by, destroyed_by,
    destroyed_by_shrinking, first_free_id, grown, id_in_use, is_first_free_id,
    lemma_cascaded_keeps_absent_at_tail, lemma_cascaded_wf, lemma_first_free_id,
    lemma_ids_below_in_use, lemma_reconciled_keeps_absent_at_tail,
    lemma_trailing_absent_at_least, lemma_trailing_absent_is, pane_count, panes_hold_folder,
    panes_hold_node, panes_wf, reconciled, shrunk,
};
use crate::container::{indicator_of, report_of, Container, Presentation};
use crate::entry::{Entry, EntryView};
use crate::pane::{Gesture, Pane, PaneView};
use crate::resolve::{pending_bind, resolve_selection, BindOutcome, BindRequest, Target};
use std::collections::VecDeque;
use vstd::prelude::*;

verus! {

/// Why a toggle was not cascaded.
#[derive(Clone, Copy, Debug, PartialEq, Eq, Structural)]
pub enum CascadeError {
    /// There is no pane in the slot named.
    NoSuchPane,
    /// The cascade rests on a bind, and the provider's answer was not given.
    Unanswered,
}

/// What a call of [`PaneManager::reconcile`] did to the panes.
#[derive(Debug)]
pub struct Reconciled {
    /// The panes that were removed, in the order of their removal. The viewer
    /// unbinds their handlers and releases their widgets.
    pub destroyed: Vec<Pane>,
    /// The number of panes appended; they are the last panes of the sequence.
    pub created: usize,
    /// Whether a pane was removed, so that the widgets of the remaining panes
    /// are to be placed anew, in the order of the sequence.
    pub renumbered: bool,
}

/// The panes of the column view, from left to right.
#[derive(Debug)]
pub struct PaneManager {
    panes: VecDeque<Pane>,
}

impl View for PaneManager {
    type V = Seq<PaneView>;

    closed spec fn view(&self) -> Seq<PaneView> {
        self.panes.deep_view()
    }
}

impl Default for PaneManager {
    fn default() -> (manager: Self)
        ensures
            manager@ == Seq::<PaneView>::empty(),
            manager.wf(),
    {
        PaneManager::new()
    }
}

/// The slot of the pane with the id `id`: the leftmost, should several panes
/// have that id.
fn slot_in(panes: &VecDeque<Pane>, id: usize) -> (slot: Option<usize>)
    ensures
        match slot {
            Some(i) => {
                &&& i < panes.deep_view().len()
                &&& panes.deep_view()[i as int].id == id
                &&& forall|j: int| 0 <= j < i ==> panes.deep_view()[j].id != id
            },
            None => !id_in_use(panes.deep_view(), id),
        },
{
    let mut i: usize = 0;
    while i < panes.len()
        invariant
            i <= panes.len(),
            forall|j: int| 0 <= j < i ==> panes.deep_view()[j].id != id,
        decreases panes.len() - i,
    {
        if panes[i].id() == id {
            return Some(i);
        }
        i += 1;
    }
    None
}

/// The least id that none of the panes has.
fn fresh_id(panes: &VecDeque<Pane>) -> (id: usize)
    ensures
        is_first_free_id(panes.deep_view(), id),
        id == first_free_id(panes.deep_view()),
{
    let mut candidate: usize = 0;
    loop
        invariant
            forall|below: usize| below < candidate ==> id_in_use(panes.deep_view(), below),
        decreases usize::MAX - candidate,
    {
        if slot_in(panes, candidate).is_none() {
            proof {
                lemma_first_free_id(panes.deep_view(), candidate);
            }
            return candidate;
        }
        proof {
            lemma_ids_below_in_use(panes.deep_view(), candidate + 1);
            assert(panes.deep_view().len() == panes.len());
        }
        candidate += 1;
    }
}

/// Removes panes until `count` are left: the last pane while it shows
/// nothing, the first pane otherwise.
fn shrink(panes: &mut VecDeque<Pane>, count: usize) -> (destroyed: Vec<Pane>)
    requires
        panes_wf(old(panes).deep_view()),
        1 <= count < old(panes).deep_view().len(),
    ensures
        panes_wf(final(panes).deep_view()),
        final(panes).deep_view() == shrunk(old(panes).deep_view(), count as int),
        destroyed.deep_view() == destroyed_by_shrinking(old(panes).deep_view(), count as int),
        destroyed@.len() + count == old(panes).deep_view().len(),
{
    let ghost before = panes.deep_view();
    let ghost mut head: int = 0;
    let ghost mut tail: int = 0;
    let mut destroyed: Vec<Pane> = Vec::new();
    assert(panes.deep_view() =~= before.subrange(0, before.len() as int));
    assert(destroyed.deep_view() =~= before.subrange(
        before.len() as int,
        before.len() as int,
    ).reverse() + before.subrange(0, 0));
    while panes.len() > count
        invariant
            1 <= count,
            0 <= head,
            0 <= tail,
            head + tail <= before.len() - count,
            panes.deep_view() == before.subrange(head, before.len() - tail),
            forall|j: int|
                before.len() - tail <= j < before.len() ==> (#[trigger] before[j]).container is None,
            head > 0 ==> before[before.len() - tail - 1].container is Some,
            destroyed.deep_view() == before.subrange(
                before.len() - tail,
                before.len() as int,
            ).reverse() + before.subrange(0, head),
            destroyed@.len() == head + tail,
            panes@.len() == before.len() - head - tail,
        decreases panes.len(),
    {
        let ghost now = panes.deep_view();
        let ghost gone = destroyed.deep_view();
        let last = panes.len() - 1;
        assert(now.len() == before.len() - tail - head);
        assert(now[last as int] == before[before.len() - tail - 1]);
        if panes[last].is_absent() {
            let pane = panes.pop_back().unwrap();
            destroyed.push(pane);
            proof {
                tail = tail + 1;
                assert(panes.deep_view() =~= before.subrange(head, before.len() - tail));
                assert(destroyed.deep_view() =~= gone.push(now[last as int]));
                assert(destroyed.deep_view() =~= before.subrange(
                    before.len() - tail,
                    before.len() as int,
                ).reverse() + before.subrange(0, head));
            }
        } else {
            let pane = panes.pop_front().unwrap();
            destroyed.push(pane);
            proof {
                head = head + 1;
                assert forall|k: int| 0 <= k < panes.deep_view().len() implies panes.deep_view()[k]
                    == before[head + k] by {
                    assert(panes.deep_view()[k] == now[k + 1]);
                }
                assert(panes.deep_view() =~= before.subrange(head, before.len() - tail));
                assert(destroyed.deep_view() =~= gone.push(now[0]));
                assert(destroyed.deep_view() =~= before.subrange(
                    before.len() - tail,
                    before.len() as int,
                ).reverse() + before.subrange(0, head));
            }
        }
    }
    proof {
        if head > 0 {
            lemma_trailing_absent_is(before, tail);
        } else {
            lemma_trailing_absent_at_least(before, tail);
        }
    }
    destroyed
}

/// Appends empty panes until there are `count`.
fn grow(panes: &mut VecDeque<Pane>, count: usize)
    requires
        panes_wf(old(panes).deep_view()),
    ensures
        panes_wf(final(panes).deep_view()),
        final(panes).deep_view() == grown(old(panes).deep_view(), count as int),
        final(panes).deep_view().len() == if old(panes).deep_view().len() < count {
            count as int
        } else {
            old(panes).deep_view().len() as int
        },
        forall|j: int|
            0 <= j < old(panes).deep_view().len() ==> final(panes).deep_view()[j] == old(
                panes,
            ).deep_view()[j],
        forall|j: int|
            old(panes).deep_view().len() <= j < final(panes).deep_view().len() ==> (
            #[trigger] final(panes).deep_view()[j]) == PaneView::empty(
                final(panes).deep_view()[j].id,
            ),
{
    let ghost before = panes.deep_view();
    while panes.len() < count
        invariant
            panes_wf(panes.deep_view()),
            before.len() <= panes.deep_view().len(),
            panes.deep_view().len() <= count || panes.deep_view() == before,
            grown(panes.deep_view(), count as int) == grown(before, count as int),
            forall|j: int| 0 <= j < before.len() ==> panes.deep_view()[j] == before[j],
            forall|j: int|
                before.len() <= j < panes.deep_view().len() ==> (#[trigger] panes.deep_view()[j])
                    == PaneView::empty(panes.deep_view()[j].id),
        decreases count - panes.len(),
    {
        let ghost now = panes.deep_view();
        let id = fresh_id(panes);
        panes.push_back(Pane::new(id));
        assert(panes.deep_view() =~= now.push(PaneView::empty(id)));
    }
}

/// Switches the pane in slot `i` to `container`, with `listing` as the
/// children enumerated for it.
fn switch_at(
    panes: &mut VecDeque<Pane>,
    i: usize,
    container: Option<Container>,
    listing: Vec<Entry>,
) -> (presentation: Presentation)
    requires
        panes_wf(old(panes).deep_view()),
        i < old(panes).deep_view().len(),
    ensures
        panes_wf(final(panes).deep_view()),
        final(panes).deep_view() == old(panes).deep_view().update(
            i as int,
            PaneView::switched(
                old(panes).deep_view()[i as int].id,
                Target { container: container.deep_view(), children: listing.deep_view() },
            ),
        ),
        presentation.indicator == indicator_of(container.deep_view()),
        presentation.report.deep_view() == report_of(container.deep_view()),
{
    let ghost before = panes.deep_view();
    let mut pane = panes.remove(i).unwrap();
    let presentation = pane.switch(container, listing);
    let ghost after = pane@;
    panes.insert(i, pane);
    assert(panes.deep_view() =~= before.update(i as int, after));
    presentation
}

/// Selects or deselects row `row` in the pane of slot `i`.
fn toggle_at(panes: &mut VecDeque<Pane>, i: usize, row: usize, selected: bool)
    requires
        panes_wf(old(panes).deep_view()),
        i < old(panes).deep_view().len(),
    ensures
        panes_wf(final(panes).deep_view()),
        final(panes).deep_view() == old(panes).deep_view().update(
            i as int,
            old(panes).deep_view()[i as int].toggled(row as int, selected),
        ),
{
    let ghost before = panes.deep_view();
    let mut pane = panes.remove(i).unwrap();
    pane.toggle(row, selected);
    let ghost after = pane@;
    panes.insert(i, pane);
    assert(panes.deep_view() =~= before.update(i as int, after));
}

impl PaneManager {
    /// Each pane is well formed, and no two panes share an id. This holds of
    /// every manager at all times.
    #[verifier::type_invariant]
    pub open spec fn wf(&self) -> bool {
        panes_wf(self@)
    }

    /// A manager without panes. The first call of `reconcile` creates them.
    pub fn new() -> (manager: Self)
        ensures
            manager@ == Seq::<PaneView>::empty(),
            manager.wf(),
    {
        let manager = PaneManager { panes: VecDeque::new() };
        assert(manager@ =~= Seq::<PaneView>::empty());
        manager
    }

    /// The number of panes.
    pub fn len(&self) -> (n: usize)
        ensures
            n == self@.len(),
    {
        self.panes.len()
    }

    /// The pane in slot `i`, counted from the left.
    pub fn pane(&self, i: usize) -> (pane: Option<&Pane>)
        ensures
            match pane {
                Some(pane) => i < self@.len() && pane@ == self@[i as int],
                None => i >= self@.len(),
            },
    {
        if i < self.panes.len() {
            Some(&self.panes[i])
        } else {
            None
        }
    }

    /// The slot of the pane with the id `id`.
    pub fn slot_of(&self, id: usize) -> (slot: Option<usize>)
        ensures
            match slot {
                Some(i) => {
                    &&& i < self@.len()
                    &&& self@[i as int].id == id
                    &&& forall|j: int| 0 <= j < self@.len() && j != i ==> self@[j].id != id
                },
                None => !id_in_use(self@, id),
            },
    {
        proof {
            use_type_invariant(self);
        }
        slot_in(&self.panes, id)
    }

    /// Says whether a pane refers to the node with the child identifier `id`.
    /// A child that no pane refers to can be released.
    pub fn holds_node(&self, id: u64) -> (held: bool)
        ensures
            held == panes_hold_node(self@, id),
    {
        let mut i: usize = 0;
        while i < self.panes.len()
            invariant
                i <= self.panes.len(),
                forall|j: int| 0 <= j < i ==> !(#[trigger] self@[j]).holds_node(id),
            decreases self.panes.len() - i,
        {
            if self.panes[i].holds_node(id) {
                assert(self@[i as int].holds_node(id));
                return true;
            }
            i += 1;
        }
        false
    }

    /// Says whether a pane shows the folder with the handle `handle`. A
    /// folder that no pane shows can be released.
    pub fn holds_folder(&self, handle: u64) -> (held: bool)
        ensures
            held == panes_hold_folder(self@, handle),
    {
        let mut i: usize = 0;
        while i < self.panes.len()
            invariant
                i <= self.panes.len(),
                forall|j: int| 0 <= j < i ==> !(#[trigger] self@[j]).holds_folder(handle),
            decreases self.panes.len() - i,
        {
            if self.panes[i].holds_folder(handle) {
                assert(self@[i as int].holds_folder(handle));
                return true;
            }
            i += 1;
        }
        false
    }

    /// Brings the number of panes to `target_count`, and to one where less is
    /// asked for.
    ///
    /// Panes in excess are removed: the last pane while it shows nothing, the
    /// first pane otherwise, so that the deepest panes in use stay. Missing
    /// panes are appended, empty.
    pub fn reconcile(&mut self, target_count: i32) -> (outcome: Reconciled)
        ensures
            final(self).wf(),
            final(self)@ == reconciled(old(self)@, target_count as int),
            final(self)@.len() == pane_count(target_count as int),
            outcome.destroyed.deep_view() == destroyed_by(old(self)@, target_count as int),
            outcome.destroyed@.len() + final(self)@.len() == old(self)@.len() + outcome.created,
            outcome.created == created_by(old(self)@, target_count as int),
            outcome.renumbered == (old(self)@.len() > pane_count(target_count as int)),
            old(self)@.len() == pane_count(target_count as int) ==> final(self)@ == old(self)@,
            old(self)@.len() <= pane_count(target_count as int) ==> {
                &&& forall|j: int| 0 <= j < old(self)@.len() ==> final(self)@[j] == old(self)@[j]
                &&& forall|j: int|
                    old(self)@.len() <= j < final(self)@.len() ==> (#[trigger] final(self)@[j])
                        == PaneView::empty(final(self)@[j].id)
            },
            absent_only_at_tail(old(self)@) ==> absent_only_at_tail(final(self)@),
    {
        proof {
            use_type_invariant(&*self);
            if absent_only_at_tail(self@) {
                lemma_reconciled_keeps_absent_at_tail(self@, target_count as int);
            }
        }
        let count: usize = if target_count < 1 {
            1
        } else {
            target_count as usize
        };
        let mut panes = VecDeque::new();
        std::mem::swap(&mut panes, &mut self.panes);
        let before = panes.len();
        let outcome = if before > count {
            let destroyed = shrink(&mut panes, count);
            Reconciled { destroyed, created: 0, renumbered: true }
        } else {
            grow(&mut panes, count);
            let destroyed: Vec<Pane> = Vec::new();
            assert(destroyed.deep_view() =~= Seq::<PaneView>::empty());
            Reconciled { destroyed, created: count - before, renumbered: false }
        };
        self.panes = panes;
        outcome
    }

    /// Switches the pane in slot `i` to `container`, with `listing` as the
    /// children that the provider enumerated for it. Where there is no slot
    /// `i`, nothing changes and the result is `None`.
    pub fn switch_column(
        &mut self,
        i: usize,
        container: Option<Container>,
        listing: Vec<Entry>,
    ) -> (presentation: Option<Presentation>)
        ensures
            final(self).wf(),
            match presentation {
                Some(presentation) => {
                    &&& i < old(self)@.len()
                    &&& final(self)@ == old(self)@.update(
                        i as int,
                        PaneView::switched(
                            old(self)@[i as int].id,
                            Target {
                                container: container.deep_view(),
                                children: listing.deep_view(),
                            },
                        ),
                    )
                    &&& presentation.indicator == indicator_of(container.deep_view())
                    &&& presentation.report.deep_view() == report_of(container.deep_view())
                },
                None => i >= old(self)@.len() && final(self)@ == old(self)@,
            },
            absent_only_at_tail(old(self)@) && container is Some && (i == 0 || old(self)@[i
                - 1].container is Some) ==> absent_only_at_tail(final(self)@),
    {
        proof {
            use_type_invariant(&*self);
        }
        if i >= self.panes.len() {
            return None;
        }
        let ghost before = self@;
        let mut panes = VecDeque::new();
        std::mem::swap(&mut panes, &mut self.panes);
        let presentation = switch_at(&mut panes, i, container, listing);
        self.panes = panes;
        proof {
            if absent_only_at_tail(before) && container is Some && (i == 0 || before[i
                - 1].container is Some) {
                let after = self@;
                assert forall|a: int, b: int|
                    0 <= a <= b < after.len() && (#[trigger] after[a]).container is None implies (
                #[trigger] after[b]).container is None by {
                    if a < i {
                        assert(after[a] == before[a]);
                        assert(before[i - 1].container is None);
                    } else {
                        assert(after[a] == before[a]);
                        assert(after[b] == before[b]);
                    }
                }
            }
        }
        Some(presentation)
    }

    /// Says which bind the provider is to make before the toggle of row `row`
    /// in the pane of slot `i` can be cascaded, if any.
    pub fn bind_request(
        &self,
        i: usize,
        row: usize,
        selected: bool,
    ) -> (request: Option<BindRequest>)
        ensures
            request == cascade_awaits(self@, i as int, row as int, selected),
    {
        if i < self.panes.len() {
            let pane = &self.panes[i];
            let selection = pane.toggled_selection(row, selected);
            pending_bind(&selection, pane.container())
        } else {
            None
        }
    }

    /// Carries the toggle of row `row` in the pane of slot `i` through the
    /// panes: the row is selected or deselected, and what the selection then
    /// resolves to is pushed to the right.
    ///
    /// The pane to the right of slot `i` is switched to the target and all
    /// panes beyond it are cleared. If slot `i` is the last one, the first
    /// pane is recycled instead: it is switched to the target and moved to
    /// the end. The result says whether that rotation took place; after one
    /// the viewer places the widgets of all panes anew.
    ///
    /// `outcome` is the provider's answer to `bind_request(i, row, selected)`.
    /// Where a needed answer is missing, or there is no slot `i`, nothing
    /// changes.
    pub fn cascade(
        &mut self,
        i: usize,
        row: usize,
        selected: bool,
        outcome: Option<BindOutcome>,
    ) -> (result: Result<bool, CascadeError>)
        ensures
            final(self).wf(),
            match result {
                Ok(rotated) => {
                    &&& i < old(self)@.len()
                    &&& cascade_target(
                        old(self)@,
                        i as int,
                        row as int,
                        selected,
                        outcome.deep_view(),
                    ) matches Some(target)
                    &&& final(self)@ == cascaded(old(self)@, i as int, row as int, selected, target)
                    &&& rotated == (i + 1 == old(self)@.len())
                },
                Err(CascadeError::NoSuchPane) => {
                    &&& i >= old(self)@.len()
                    &&& final(self)@ == old(self)@
                },
                Err(CascadeError::Unanswered) => {
                    &&& i < old(self)@.len()
                    &&& cascade_awaits(old(self)@, i as int, row as int, selected) is Some
                    &&& outcome is None
                    &&& final(self)@ == old(self)@
                },
            },
            result is Err <==> i >= old(self)@.len() || (cascade_awaits(
                old(self)@,
                i as int,
                row as int,
                selected,
            ) is Some && outcome is None),
            final(self)@.len() == old(self)@.len(),
            result is Ok && i + 1 < old(self)@.len() ==> {
                &&& final(self)@[i + 1].container == cascade_target(
                    old(self)@,
                    i as int,
                    row as int,
                    selected,
                    outcome.deep_view(),
                )->0.container
                &&& forall|j: int|
                    i + 1 < j < final(self)@.len() ==> (
                    #[trigger] final(self)@[j]).container is None
            },
            result is Ok && i + 1 == old(self)@.len() ==> {
                &&& final(self)@.last().id == old(self)@[0].id
                &&& final(self)@.last().container == cascade_target(
                    old(self)@,
                    i as int,
                    row as int,
                    selected,
                    outcome.deep_view(),
                )->0.container
                &&& forall|j: int|
                    0 <= j < i ==> (#[trigger] final(self)@[j]).id == old(self)@[j + 1].id
            },
            absent_only_at_tail(old(self)@) ==> absent_only_at_tail(final(self)@),
    {
        let ghost before = self@;
        proof {
            use_type_invariant(&*self);
            if i < before.len() && absent_only_at_tail(before) && cascade_target(
                before,
                i as int,
                row as int,
                selected,
                outcome.deep_view(),
            ) is Some {
                lemma_cascaded_keeps_absent_at_tail(
                    before,
                    i as int,
                    row as int,
                    selected,
                    outcome.deep_view(),
                );
            }
        }
        let count = self.panes.len();
        if i >= count {
            return Err(CascadeError::NoSuchPane);
        }
        let pane = &self.panes[i];
        let selection = pane.toggled_selection(row, selected);
        let (container, listing) = match resolve_selection(&selection, pane.container(), outcome) {
            Some(target) => target,
            None => {
                return Err(CascadeError::Unanswered);
            },
        };
        let ghost target = Target {
            container: container.deep_view(),
            children: listing.deep_view(),
        };
        let mut panes = VecDeque::new();
        std::mem::swap(&mut panes, &mut self.panes);
        toggle_at(&mut panes, i, row, selected);
        let ghost toggled = panes.deep_view();
        assert(panes@.len() == toggled.len() == count);
        let rotated = i + 1 == count;
        if rotated {
            let mut recycled = panes.pop_front().unwrap();
            let ghost rest = panes.deep_view();
            assert(recycled@ == toggled[0]);
            assert(toggled[0].id == before[0].id);
            recycled.switch(container, listing);
            let ghost arrived = recycled@;
            panes.push_back(recycled);
            assert(rest =~= toggled.drop_first());
            assert(panes.deep_view() =~= rest.push(arrived));
        } else {
            switch_at(&mut panes, i + 1, container, listing);
            let mut j: usize = i + 2;
            while j < count
                invariant
                    panes_wf(panes.deep_view()),
                    i + 2 <= j <= count,
                    count == before.len(),
                    panes.deep_view().len() == count,
                    forall|k: int| 0 <= k < j ==> panes.deep_view()[k] == cascaded(
                        before,
                        i as int,
                        row as int,
                        selected,
                        target,
                    )[k],
                    forall|k: int| j <= k < count ==> panes.deep_view()[k] == before[k],
                decreases count - j,
            {
                let nothing: Vec<Entry> = Vec::new();
                assert(nothing.deep_view() =~= Seq::<EntryView>::empty());
                switch_at(&mut panes, j, None, nothing);
                j += 1;
            }
        }
        assert(panes.deep_view() =~= cascaded(before, i as int, row as int, selected, target));
        proof {
            lemma_cascaded_wf(before, i as int, row as int, selected, target);
        }
        self.panes = panes;
        Ok(rotated)
    }

    /// The canonical paths that the provider is to launch when `gesture` is
    /// made on the pane of slot `i`; none where there is no such slot.
    pub fn activation(&self, i: usize, gesture: Gesture) -> (paths: Vec<String>)
        ensures
            paths.deep_view() == if i < self@.len() {
                self@[i as int].activation(gesture)
            } else {
                Seq::empty()
            },
    {
        if i < self.panes.len() {
            self.panes[i].activation(gesture)
        } else {
            let paths: Vec<String> = Vec::new();
            assert(paths.deep_view() =~= Seq::<Seq<char>>::empty());
            paths
        }
    }
}

} // verus!
