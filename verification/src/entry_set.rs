//! A set of entries that remembers the order in which they were added.

use crate::entry::{clone_entries, Entry, EntryView};
use vstd::prelude::*;

verus! {

/// `s` with `e` added at its end, unless `e` occurs in it already.
pub open spec fn with_entry(s: Seq<EntryView>, e: EntryView) -> Seq<EntryView> {
    if s.contains(e) {
        s
    } else {
        s.push(e)
    }
}

/// `s` without `e`; the other entries keep their order.
pub open spec fn without_entry(s: Seq<EntryView>, e: EntryView) -> Seq<EntryView> {
    if s.contains(e) {
        s.remove(s.index_of(e))
    } else {
        s
    }
}

/// Adding an entry keeps a duplicate-free sequence duplicate-free, and adds
/// nothing but that entry.
pub proof fn lemma_with_entry(s: Seq<EntryView>, e: EntryView)
    requires
        s.no_duplicates(),
    ensures
        with_entry(s, e).no_duplicates(),
        with_entry(s, e).contains(e),
        forall|x: EntryView| #[trigger] with_entry(s, e).contains(x) <==> (x == e || s.contains(x)),
{
    let t = with_entry(s, e);
    if !s.contains(e) {
        assert(t[s.len() as int] == e);
        assert forall|x: EntryView| #[trigger] t.contains(x) <==> (x == e || s.contains(x)) by {
            if s.contains(x) {
                let k = s.index_of(x);
                assert(t[k] == x);
            }
        }
    }
}

/// In a duplicate-free sequence an entry is found at one index only.
pub proof fn lemma_index_of_unique(s: Seq<EntryView>, k: int)
    requires
        s.no_duplicates(),
        0 <= k < s.len(),
    ensures
        s.contains(s[k]),
        s.index_of(s[k]) == k,
{
}

/// Removing an entry keeps a duplicate-free sequence duplicate-free, and
/// removes nothing but that entry.
pub proof fn lemma_without_entry(s: Seq<EntryView>, e: EntryView)
    requires
        s.no_duplicates(),
    ensures
        without_entry(s, e).no_duplicates(),
        !without_entry(s, e).contains(e),
        forall|x: EntryView|
            #[trigger] without_entry(s, e).contains(x) <==> (x != e && s.contains(x)),
{
    let t = without_entry(s, e);
    if s.contains(e) {
        let k = s.index_of(e);
        assert forall|x: EntryView| #[trigger] t.contains(x) <==> (x != e && s.contains(x)) by {
            if t.contains(x) {
                let j = t.index_of(x);
                if j < k {
                    assert(s[j] == x);
                } else {
                    assert(s[j + 1] == x);
                }
            }
            if x != e && s.contains(x) {
                let j = s.index_of(x);
                if j < k {
                    assert(t[j] == x);
                } else {
                    assert(t[j - 1] == x);
                }
            }
        }
    }
}

/// The entries selected in a pane, or gathered in an aggregate container.
///
/// No entry occurs twice. The entries are kept, and handed out, in the order
/// in which they were added.
#[derive(Debug)]
pub struct EntrySet {
    items: Vec<Entry>,
}

impl View for EntrySet {
    type V = Seq<EntryView>;

    closed spec fn view(&self) -> Seq<EntryView> {
        self.items.deep_view()
    }
}

impl DeepView for EntrySet {
    type V = Seq<EntryView>;

    open spec fn deep_view(&self) -> Seq<EntryView> {
        self@
    }
}

impl EntrySet {
    /// No entry occurs twice. This holds of every set at all times.
    #[verifier::type_invariant]
    pub open spec fn wf(&self) -> bool {
        self@.no_duplicates()
    }

    /// The empty set.
    pub fn new() -> (set: Self)
        ensures
            set@ == Seq::<EntryView>::empty(),
            set.wf(),
    {
        let set = EntrySet { items: Vec::new() };
        assert(set@ =~= Seq::<EntryView>::empty());
        set
    }

    /// The number of entries.
    pub fn len(&self) -> (n: usize)
        ensures
            n == self@.len(),
    {
        self.items.len()
    }

    /// Whether the set holds no entry.
    pub fn is_empty(&self) -> (empty: bool)
        ensures
            empty == (self@.len() == 0),
    {
        self.items.len() == 0
    }

    /// The entry at position `i`, counted in the order of addition.
    pub fn get(&self, i: usize) -> (entry: Option<&Entry>)
        ensures
            match entry {
                Some(entry) => i < self@.len() && entry@ == self@[i as int],
                None => i >= self@.len(),
            },
    {
        if i < self.items.len() {
            Some(&self.items[i])
        } else {
            None
        }
    }

    /// All entries, in the order of addition.
    pub fn entries(&self) -> (all: &Vec<Entry>)
        ensures
            all.deep_view() == self@,
    {
        &self.items
    }

    /// The position of `entry`, if the set holds it.
    pub fn position(&self, entry: &Entry) -> (at: Option<usize>)
        ensures
            match at {
                Some(k) => {
                    &&& k < self@.len()
                    &&& self@[k as int] == entry@
                    &&& forall|j: int| 0 <= j < self@.len() && j != k ==> self@[j] != entry@
                },
                None => !self@.contains(entry@),
            },
    {
        proof {
            use_type_invariant(self);
        }
        let mut k: usize = 0;
        while k < self.items.len()
            invariant
                k <= self.items.len(),
                self@.no_duplicates(),
                forall|j: int| 0 <= j < k ==> self@[j] != entry@,
            decreases self.items.len() - k,
        {
            if self.items[k] == *entry {
                return Some(k);
            }
            k += 1;
        }
        None
    }

    /// Whether the set holds `entry`.
    pub fn contains(&self, entry: &Entry) -> (held: bool)
        ensures
            held == self@.contains(entry@),
    {
        self.position(entry).is_some()
    }

    /// Adds `entry` unless the set holds it already; says whether it was added.
    pub fn insert(&mut self, entry: Entry) -> (added: bool)
        ensures
            final(self)@ == with_entry(old(self)@, entry@),
            added == !old(self)@.contains(entry@),
            final(self).wf(),
    {
        proof {
            use_type_invariant(&*self);
            lemma_with_entry(self@, entry@);
        }
        if self.contains(&entry) {
            false
        } else {
            let ghost before = self@;
            let mut items = Vec::new();
            std::mem::swap(&mut items, &mut self.items);
            items.push(entry);
            assert(items.deep_view() =~= before.push(entry@));
            self.items = items;
            true
        }
    }

    /// Removes `entry` if the set holds it; says whether it was removed.
    pub fn remove(&mut self, entry: &Entry) -> (removed: bool)
        ensures
            final(self)@ == without_entry(old(self)@, entry@),
            removed == old(self)@.contains(entry@),
            final(self).wf(),
    {
        proof {
            use_type_invariant(&*self);
            lemma_without_entry(self@, entry@);
        }
        match self.position(entry) {
            Some(k) => {
                proof {
                    lemma_index_of_unique(self@, k as int);
                }
                let ghost before = self@;
                let mut items = Vec::new();
                std::mem::swap(&mut items, &mut self.items);
                items.remove(k);
                assert(items.deep_view() =~= before.remove(k as int));
                self.items = items;
                true
            },
            None => false,
        }
    }
}

impl Clone for EntrySet {
    fn clone(&self) -> (copy: Self)
        ensures
            copy@ == self@,
    {
        proof {
            use_type_invariant(self);
        }
        let items = clone_entries(&self.items);
        EntrySet { items }
    }
}

} // verus!
