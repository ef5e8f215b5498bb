//! The sequence of panes as a mathematical value: what reconciling it with a
//! pane count and cascading a selection through it give.

use crate::container::shown_wf;
use crate::entry::EntryView;
use crate::pane::{lemma_selection_within_children, lemma_toggled_wf, PaneView};
use crate::resolve::{selection_awaits, selection_target, BindOutcomeView, BindRequest, Target};
use vstd::prelude::*;

verus! {

/// What holds of the panes at all times: each is well formed, and no two
/// share an id.
pub open spec fn panes_wf(panes: Seq<PaneView>) -> bool {
    &&& forall|i: int| 0 <= i < panes.len() ==> (#[trigger] panes[i]).wf()
    &&& forall|i: int, j: int|
        0 <= i < j < panes.len() ==> (#[trigger] panes[i]).id != (#[trigger] panes[j]).id
}

/// Panes that show nothing stand to the right of all panes that show
/// something.
pub open spec fn absent_only_at_tail(panes: Seq<PaneView>) -> bool {
    forall|i: int, j: int|
        0 <= i <= j < panes.len() && (#[trigger] panes[i]).container is None ==> (
        #[trigger] panes[j]).container is None
}

/// Whether one of the panes has the id `id`.
pub open spec fn id_in_use(panes: Seq<PaneView>, id: usize) -> bool {
    exists|i: int| 0 <= i < panes.len() && (#[trigger] panes[i]).id == id
}

/// Whether one of the panes refers to the node with the child identifier
/// `id`.
pub open spec fn panes_hold_node(panes: Seq<PaneView>, id: u64) -> bool {
    exists|i: int| 0 <= i < panes.len() && (#[trigger] panes[i]).holds_node(id)
}

/// Whether one of the panes shows the folder with the handle `handle`.
pub open spec fn panes_hold_folder(panes: Seq<PaneView>, handle: u64) -> bool {
    exists|i: int| 0 <= i < panes.len() && (#[trigger] panes[i]).holds_folder(handle)
}

/// Whether `id` is the least id that none of the panes has.
pub open spec fn is_first_free_id(panes: Seq<PaneView>, id: usize) -> bool {
    &&& !id_in_use(panes, id)
    &&& forall|below: usize| below < id ==> id_in_use(panes, below)
}

/// The least id that none of the panes has: the id of the next pane created.
pub open spec fn first_free_id(panes: Seq<PaneView>) -> usize {
    choose|id: usize| is_first_free_id(panes, id)
}

/// The number of panes kept for a requested count: the count itself, and one
/// where less than one is asked for.
pub open spec fn pane_count(target_count: int) -> int {
    if target_count < 1 {
        1
    } else {
        target_count
    }
}

/// The number of panes at the right end that show nothing.
pub open spec fn trailing_absent(panes: Seq<PaneView>) -> nat
    decreases panes.len(),
{
    if panes.len() > 0 && panes.last().container is None {
        1 + trailing_absent(panes.drop_last())
    } else {
        0
    }
}

/// Of the panes that are in excess of `count`, the number removed at the
/// right end: panes that show nothing go first, as far as there are any.
pub open spec fn removed_at_tail(panes: Seq<PaneView>, count: int) -> int {
    let excess = panes.len() - count;
    if excess <= 0 {
        0
    } else if trailing_absent(panes) < excess {
        trailing_absent(panes) as int
    } else {
        excess
    }
}

/// Of the panes that are in excess of `count`, the number removed at the left
/// end: those for which no unused pane was left at the right end.
pub open spec fn removed_at_head(panes: Seq<PaneView>, count: int) -> int {
    let excess = panes.len() - count;
    if excess <= 0 {
        0
    } else {
        excess - removed_at_tail(panes, count)
    }
}

/// The panes that remain when all in excess of `count` are removed.
pub open spec fn shrunk(panes: Seq<PaneView>, count: int) -> Seq<PaneView> {
    panes.subrange(removed_at_head(panes, count), panes.len() - removed_at_tail(panes, count))
}

/// The panes removed by shrinking to `count`, in the order of their removal:
/// those at the right end from the last one leftwards, then those at the left
/// end from the first one rightwards.
pub open spec fn destroyed_by_shrinking(panes: Seq<PaneView>, count: int) -> Seq<PaneView> {
    panes.subrange(panes.len() - removed_at_tail(panes, count), panes.len() as int).reverse()
        + panes.subrange(0, removed_at_head(panes, count))
}

/// The panes with new, empty ones appended until there are `count`. Each new
/// pane takes the least id that is free when it is created.
pub open spec fn grown(panes: Seq<PaneView>, count: int) -> Seq<PaneView>
    decreases count - panes.len(),
{
    if panes.len() >= count {
        panes
    } else {
        grown(panes.push(PaneView::empty(first_free_id(panes))), count)
    }
}

/// The panes after they were reconciled with the requested count.
pub open spec fn reconciled(panes: Seq<PaneView>, target_count: int) -> Seq<PaneView> {
    let count = pane_count(target_count);
    if panes.len() > count {
        shrunk(panes, count)
    } else {
        grown(panes, count)
    }
}

/// The panes that reconciling with the requested count destroys, in the order
/// of their destruction.
pub open spec fn destroyed_by(panes: Seq<PaneView>, target_count: int) -> Seq<PaneView> {
    let count = pane_count(target_count);
    if panes.len() > count {
        destroyed_by_shrinking(panes, count)
    } else {
        Seq::empty()
    }
}

/// The number of panes that reconciling with the requested count creates.
pub open spec fn created_by(panes: Seq<PaneView>, target_count: int) -> int {
    let count = pane_count(target_count);
    if panes.len() < count {
        count - panes.len()
    } else {
        0
    }
}

/// The bind that the provider is asked for before the toggle of row `row` in
/// pane `i` can be cascaded.
pub open spec fn cascade_awaits(
    panes: Seq<PaneView>,
    i: int,
    row: int,
    selected: bool,
) -> Option<BindRequest> {
    if 0 <= i < panes.len() {
        selection_awaits(panes[i].toggled_selection(row, selected), panes[i].container)
    } else {
        None
    }
}

/// What the toggle of row `row` in pane `i` pushes to the right; `None` while
/// the answer to a needed bind is missing.
pub open spec fn cascade_target(
    panes: Seq<PaneView>,
    i: int,
    row: int,
    selected: bool,
    outcome: Option<BindOutcomeView>,
) -> Option<Target> {
    selection_target(panes[i].toggled_selection(row, selected), panes[i].container, outcome)
}

/// The panes after row `row` of pane `i` was toggled and `target` was pushed
/// to the right of it.
///
/// Where a pane stands to the right of pane `i`, that pane is switched to
/// `target` and all panes beyond it are cleared. Where pane `i` is the last
/// one, the first pane is taken out, switched to `target`, and put at the
/// end, so that all other panes move one slot to the left.
pub open spec fn cascaded(
    panes: Seq<PaneView>,
    i: int,
    row: int,
    selected: bool,
    target: Target,
) -> Seq<PaneView>
    recommends
        0 <= i < panes.len(),
{
    let here = panes[i].toggled(row, selected);
    if i + 1 < panes.len() {
        Seq::new(
            panes.len(),
            |j: int|
                if j < i {
                    panes[j]
                } else if j == i {
                    here
                } else if j == i + 1 {
                    PaneView::switched(panes[j].id, target)
                } else {
                    PaneView::empty(panes[j].id)
                },
        )
    } else {
        panes.update(i, here).drop_first().push(PaneView::switched(panes[0].id, target))
    }
}

/// The trailing panes that show nothing are as many as `trailing_absent`
/// says, and the pane before them shows something.
pub proof fn lemma_trailing_absent(panes: Seq<PaneView>)
    ensures
        trailing_absent(panes) <= panes.len(),
        forall|j: int|
            panes.len() - trailing_absent(panes) <= j < panes.len() ==> (
            #[trigger] panes[j]).container is None,
        trailing_absent(panes) < panes.len() ==> panes[panes.len() - trailing_absent(panes)
            - 1].container is Some,
    decreases panes.len(),
{
    if panes.len() > 0 && panes.last().container is None {
        let rest = panes.drop_last();
        lemma_trailing_absent(rest);
        assert forall|j: int|
            panes.len() - trailing_absent(panes) <= j < panes.len() implies (
        #[trigger] panes[j]).container is None by {
            if j < panes.len() - 1 {
                assert(rest[j] == panes[j]);
            }
        }
        if trailing_absent(panes) < panes.len() {
            assert(rest[rest.len() - trailing_absent(rest) - 1] == panes[panes.len()
                - trailing_absent(panes) - 1]);
        }
    }
}

/// `tail` panes at the right end show nothing, and the one before them shows
/// something or there is none: then `tail` is the number of trailing panes
/// that show nothing.
pub proof fn lemma_trailing_absent_is(panes: Seq<PaneView>, tail: int)
    requires
        0 <= tail <= panes.len(),
        forall|j: int|
            panes.len() - tail <= j < panes.len() ==> (#[trigger] panes[j]).container is None,
        tail < panes.len() ==> panes[panes.len() - tail - 1].container is Some,
    ensures
        trailing_absent(panes) == tail,
{
    lemma_trailing_absent(panes);
    let found = trailing_absent(panes) as int;
    if found < tail {
        assert(panes[panes.len() - found - 1].container is None);
    } else if found > tail {
        assert(panes[panes.len() - tail - 1].container is None);
    }
}

/// `tail` panes at the right end show nothing: then at least `tail` trailing
/// panes show nothing.
pub proof fn lemma_trailing_absent_at_least(panes: Seq<PaneView>, tail: int)
    requires
        0 <= tail <= panes.len(),
        forall|j: int|
            panes.len() - tail <= j < panes.len() ==> (#[trigger] panes[j]).container is None,
    ensures
        trailing_absent(panes) >= tail,
{
    lemma_trailing_absent(panes);
    let found = trailing_absent(panes) as int;
    if found < tail {
        assert(panes[panes.len() - found - 1].container is None);
    }
}

/// Where every id below `bound` is in use, there are at least `bound` panes.
pub proof fn lemma_ids_below_in_use(panes: Seq<PaneView>, bound: int)
    requires
        0 <= bound <= usize::MAX + 1,
        forall|below: usize| below < bound ==> id_in_use(panes, below),
    ensures
        bound <= panes.len(),
    decreases bound,
{
    if bound > 0 {
        let top = (bound - 1) as usize;
        assert(id_in_use(panes, top));
        let at = choose|i: int| 0 <= i < panes.len() && (#[trigger] panes[i]).id == top;
        let rest = panes.remove(at);
        assert forall|below: usize| below < bound - 1 implies id_in_use(rest, below) by {
            assert(id_in_use(panes, below));
            let k = choose|i: int| 0 <= i < panes.len() && (#[trigger] panes[i]).id == below;
            if k < at {
                assert(rest[k].id == below);
            } else {
                assert(rest[k - 1].id == below);
            }
        }
        lemma_ids_below_in_use(rest, bound - 1);
    }
}

/// An id that is free, while every id below it is in use, is the one that
/// `first_free_id` names.
pub proof fn lemma_first_free_id(panes: Seq<PaneView>, id: usize)
    requires
        is_first_free_id(panes, id),
    ensures
        first_free_id(panes) == id,
{
    let chosen = first_free_id(panes);
    assert(is_first_free_id(panes, chosen));
    if chosen < id {
        assert(id_in_use(panes, chosen));
    } else if id < chosen {
        assert(id_in_use(panes, id));
    }
}

/// Some id at or above `from` is free, given that every id below `from` is in
/// use and the panes are not so many that they could use up all ids.
proof fn lemma_free_id_from(panes: Seq<PaneView>, from: usize)
    requires
        panes.len() <= usize::MAX,
        forall|below: usize| below < from ==> id_in_use(panes, below),
    ensures
        exists|id: usize| is_first_free_id(panes, id),
    decreases usize::MAX - from,
{
    if id_in_use(panes, from) {
        lemma_ids_below_in_use(panes, from + 1);
        lemma_free_id_from(panes, (from + 1) as usize);
    } else {
        assert(is_first_free_id(panes, from));
    }
}

/// The id given to the next pane is free, provided the panes are not so many
/// that they could use up all ids.
pub proof fn lemma_first_free_id_is_free(panes: Seq<PaneView>)
    requires
        panes.len() <= usize::MAX,
    ensures
        is_first_free_id(panes, first_free_id(panes)),
{
    lemma_free_id_from(panes, 0);
}

/// Growing keeps the panes well formed.
pub proof fn lemma_grown_wf(panes: Seq<PaneView>, count: int)
    requires
        panes_wf(panes),
        count <= usize::MAX,
    ensures
        panes_wf(grown(panes, count)),
    decreases count - panes.len(),
{
    if panes.len() < count {
        lemma_first_free_id_is_free(panes);
        let next = panes.push(PaneView::empty(first_free_id(panes)));
        assert forall|i: int, j: int| 0 <= i < j < next.len() implies (#[trigger] next[i]).id != (
        #[trigger] next[j]).id by {
            if j == panes.len() {
                assert(next[i] == panes[i]);
            }
        }
        lemma_grown_wf(next, count);
    }
}

/// Reconciling keeps the panes well formed, for every count that a machine
/// can hold.
pub proof fn lemma_reconciled_wf(panes: Seq<PaneView>, target_count: int)
    requires
        panes_wf(panes),
        target_count <= usize::MAX,
    ensures
        panes_wf(reconciled(panes, target_count)),
{
    let count = pane_count(target_count);
    if panes.len() > count {
        lemma_trailing_absent(panes);
    } else {
        lemma_grown_wf(panes, count);
    }
}

/// In well-formed panes the selected rows of each pane are rows of that pane.
pub proof fn lemma_selections_within_children(panes: Seq<PaneView>)
    requires
        panes_wf(panes),
    ensures
        forall|i: int|
            0 <= i < panes.len() ==> (#[trigger] panes[i]).selection.to_set().subset_of(
                panes[i].children.to_set(),
            ),
{
    assert forall|i: int| 0 <= i < panes.len() implies (
    #[trigger] panes[i]).selection.to_set().subset_of(panes[i].children.to_set()) by {
        lemma_selection_within_children(panes[i]);
    }
}

/// Growing to `count` gives `count` panes, keeps the panes that were there,
/// and appends panes that are empty.
pub proof fn lemma_grown(panes: Seq<PaneView>, count: int)
    ensures
        grown(panes, count).len() == if panes.len() < count {
            count
        } else {
            panes.len() as int
        },
        forall|j: int| 0 <= j < panes.len() ==> grown(panes, count)[j] == panes[j],
        forall|j: int|
            panes.len() <= j < grown(panes, count).len() ==> (#[trigger] grown(panes, count)[j])
                == PaneView::empty(grown(panes, count)[j].id),
    decreases count - panes.len(),
{
    if panes.len() < count {
        let next = panes.push(PaneView::empty(first_free_id(panes)));
        lemma_grown(next, count);
        assert forall|j: int| 0 <= j < panes.len() implies grown(panes, count)[j] == panes[j] by {
            assert(next[j] == panes[j]);
        }
        assert forall|j: int| panes.len() <= j < grown(panes, count).len() implies (
        #[trigger] grown(panes, count)[j]) == PaneView::empty(grown(panes, count)[j].id) by {
            if j == panes.len() {
                assert(grown(next, count)[j] == next[j]);
            }
        }
    }
}

/// Reconciling leaves as many panes as were asked for, and at least one.
pub proof fn lemma_reconciled_len(panes: Seq<PaneView>, target_count: int)
    ensures
        reconciled(panes, target_count).len() == pane_count(target_count),
{
    let count = pane_count(target_count);
    if panes.len() > count {
        lemma_trailing_absent(panes);
    } else {
        lemma_grown(panes, count);
    }
}

/// Reconciling twice with the same count does no more than reconciling once:
/// the second time the panes stay as they are, none is destroyed and none
/// created.
pub proof fn lemma_reconcile_idempotent(panes: Seq<PaneView>, target_count: int)
    ensures
        reconciled(reconciled(panes, target_count), target_count) == reconciled(
            panes,
            target_count,
        ),
        destroyed_by(reconciled(panes, target_count), target_count) == Seq::<PaneView>::empty(),
        created_by(reconciled(panes, target_count), target_count) == 0,
{
    lemma_reconciled_len(panes, target_count);
}

/// Reconciling keeps the panes that show nothing at the right end.
pub proof fn lemma_reconciled_keeps_absent_at_tail(panes: Seq<PaneView>, target_count: int)
    requires
        absent_only_at_tail(panes),
    ensures
        absent_only_at_tail(reconciled(panes, target_count)),
{
    let count = pane_count(target_count);
    let after = reconciled(panes, target_count);
    if panes.len() > count {
        lemma_trailing_absent(panes);
        let head = removed_at_head(panes, count);
        assert forall|i: int, j: int|
            0 <= i <= j < after.len() && (#[trigger] after[i]).container is None implies (
        #[trigger] after[j]).container is None by {
            assert(after[i] == panes[head + i]);
            assert(after[j] == panes[head + j]);
        }
    } else {
        lemma_grown(panes, count);
        assert forall|i: int, j: int|
            0 <= i <= j < after.len() && (#[trigger] after[i]).container is None implies (
        #[trigger] after[j]).container is None by {
            if j < panes.len() {
                assert(after[i] == panes[i]);
                assert(after[j] == panes[j]);
            }
        }
    }
}

/// A cascade out of a pane that has a pane to its right reaches that pane and
/// no other: that pane shows the target, every pane beyond it shows nothing,
/// and the panes up to the one toggled keep what they show.
pub proof fn lemma_cascade_single_hop(
    panes: Seq<PaneView>,
    i: int,
    row: int,
    selected: bool,
    target: Target,
)
    requires
        0 <= i,
        i + 2 <= panes.len(),
    ensures
        cascaded(panes, i, row, selected, target).len() == panes.len(),
        cascaded(panes, i, row, selected, target)[i + 1].container == target.container,
        forall|j: int|
            i + 1 < j < panes.len() ==> (#[trigger] cascaded(
                panes,
                i,
                row,
                selected,
                target,
            )[j]).container is None,
        forall|j: int|
            0 <= j <= i ==> (#[trigger] cascaded(panes, i, row, selected, target)[j]).container
                == panes[j].container,
        forall|j: int|
            0 <= j < panes.len() ==> (#[trigger] cascaded(panes, i, row, selected, target)[j]).id
                == panes[j].id,
{
}

/// A cascade out of the last pane rotates the panes: their number stays, the
/// pane that was first stands last and shows the target, and every other pane
/// stands one slot further left, the toggled one with its new selection.
pub proof fn lemma_cascade_rotation(
    panes: Seq<PaneView>,
    i: int,
    row: int,
    selected: bool,
    target: Target,
)
    requires
        0 <= i,
        i + 1 == panes.len(),
    ensures
        cascaded(panes, i, row, selected, target).len() == panes.len(),
        cascaded(panes, i, row, selected, target).last().id == panes[0].id,
        cascaded(panes, i, row, selected, target).last().container == target.container,
        forall|j: int|
            0 <= j < i - 1 ==> (#[trigger] cascaded(panes, i, row, selected, target)[j]) == panes[j
                + 1],
        i > 0 ==> cascaded(panes, i, row, selected, target)[i - 1] == panes[i].toggled(
            row,
            selected,
        ),
        forall|j: int|
            0 <= j < i ==> (#[trigger] cascaded(panes, i, row, selected, target)[j]).id == panes[j
                + 1].id,
{
}

/// A cascade keeps the panes well formed.
pub proof fn lemma_cascaded_wf(
    panes: Seq<PaneView>,
    i: int,
    row: int,
    selected: bool,
    target: Target,
)
    requires
        panes_wf(panes),
        0 <= i < panes.len(),
        shown_wf(target.container),
    ensures
        panes_wf(cascaded(panes, i, row, selected, target)),
{
    let after = cascaded(panes, i, row, selected, target);
    lemma_toggled_wf(panes[i], row, selected);
    if i + 1 == panes.len() {
        assert forall|a: int, b: int| 0 <= a < b < after.len() implies (#[trigger] after[a]).id != (
        #[trigger] after[b]).id by {
            assert(after[a].id == panes[a + 1].id);
            if b + 1 < panes.len() {
                assert(after[b].id == panes[b + 1].id);
            } else {
                assert(after[b].id == panes[0].id);
            }
        }
    }
}

/// In a well-formed pane that shows nothing no row can be toggled, and
/// nothing is selected.
pub proof fn lemma_absent_pane_selects_nothing(pane: PaneView, row: int, selected: bool)
    requires
        pane.wf(),
        pane.container is None,
    ensures
        pane.toggled_selection(row, selected) == Seq::<EntryView>::empty(),
{
    if pane.selection.len() > 0 {
        assert(pane.selection.contains(pane.selection[0]));
        assert(pane.children.contains(pane.selection[0]));
    }
    assert(pane.selection =~= Seq::<EntryView>::empty());
}

/// A cascade keeps the panes that show nothing at the right end.
pub proof fn lemma_cascaded_keeps_absent_at_tail(
    panes: Seq<PaneView>,
    i: int,
    row: int,
    selected: bool,
    outcome: Option<BindOutcomeView>,
)
    requires
        panes_wf(panes),
        absent_only_at_tail(panes),
        0 <= i < panes.len(),
        cascade_target(panes, i, row, selected, outcome) is Some,
    ensures
        absent_only_at_tail(
            cascaded(panes, i, row, selected, cascade_target(panes, i, row, selected, outcome)->0),
        ),
{
    let target = cascade_target(panes, i, row, selected, outcome)->0;
    let after = cascaded(panes, i, row, selected, target);
    if panes[i].container is None {
        lemma_absent_pane_selects_nothing(panes[i], row, selected);
        assert(target.container is None);
    }
    if i + 1 < panes.len() {
        assert forall|a: int, b: int|
            0 <= a <= b < after.len() && (#[trigger] after[a]).container is None implies (
        #[trigger] after[b]).container is None by {
            if a <= i {
                assert(after[a].container == panes[a].container);
                assert(panes[i].container is None);
            }
        }
    } else {
        assert forall|a: int, b: int|
            0 <= a <= b < after.len() && (#[trigger] after[a]).container is None implies (
        #[trigger] after[b]).container is None by {
            if a < i {
                assert(after[a].container == panes[a + 1].container);
                assert(panes[i].container is None);
                if b < i {
                    assert(after[b].container == panes[b + 1].container);
                }
            }
        }
    }
}

} // verus!
