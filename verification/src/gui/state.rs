//! Shared state of the graphical front end: the active tab and the island
//! ledger, whose entries get fresh ids as they are added.
use vstd::prelude::*;

use crate::model::ids::{BuildingId, RecipeId};

verus! {

/// The tabs of the main window.
#[derive(Debug, Clone, Copy, PartialEq, Eq, Structural)]
pub enum Tab {
    Calculator,
    Balance,
    Settings,
    DataBrowser,
}

/// One building line of the island ledger. `C` is how the count of buildings
/// is held; the ledger never reads it.
#[derive(Debug, Clone)]
pub struct IslandEntry<C> {
    pub id: u32,
    pub building_id: BuildingId,
    pub recipe_id: RecipeId,
    pub count: C,
}

/// The island ledger: its entries in the order they were added, and the id
/// the next entry will get.
#[derive(Debug, Clone)]
pub struct IslandLedger<C> {
    pub island_entries: Vec<IslandEntry<C>>,
    pub next_entry_id: u32,
}

/// Keeps the entries whose id differs from `id`.
pub open spec fn keeps_other<C>(id: u32) -> spec_fn(IslandEntry<C>) -> bool {
    |e: IslandEntry<C>| e.id != id
}

impl<C> IslandLedger<C> {
    /// Every id is below the next one and the ids increase along the ledger,
    /// so no two entries share an id.
    pub open spec fn well_formed(&self) -> bool {
        &&& forall|i: int|
            0 <= i < self.island_entries@.len() ==> #[trigger] self.island_entries@[i].id
                < self.next_entry_id
        &&& forall|i: int, j: int|
            0 <= i < j < self.island_entries@.len() ==> #[trigger] self.island_entries@[i].id
                < #[trigger] self.island_entries@[j].id
    }

    /// Whether some entry has the given id.
    pub open spec fn has_id(&self, id: u32) -> bool {
        exists|i: int| 0 <= i < self.island_entries@.len() && #[trigger] self.island_entries@[i].id == id
    }

    /// An empty ledger whose first entry will get id 1.
    pub fn new() -> (ledger: Self)
        ensures
            ledger.island_entries@.len() == 0,
            ledger.next_entry_id == 1,
            ledger.well_formed(),
    {
        IslandLedger { island_entries: Vec::new(), next_entry_id: 1 }
    }

    /// Adds an entry at the end and returns the id it was given: the next id,
    /// which then moves on by one.
    pub fn add_island_entry(&mut self, building_id: BuildingId, recipe_id: RecipeId, count: C) -> (id: u32)
        requires
            old(self).next_entry_id < u32::MAX,
        ensures
            id == old(self).next_entry_id,
            final(self).next_entry_id == old(self).next_entry_id + 1,
            final(self).island_entries@ == old(self).island_entries@.push(
                IslandEntry { id, building_id, recipe_id, count },
            ),
            old(self).well_formed() ==> final(self).well_formed() && !old(self).has_id(id),
    {
        let id = self.next_entry_id;
        self.next_entry_id = self.next_entry_id + 1;
        self.island_entries.push(IslandEntry { id, building_id, recipe_id, count });
        id
    }

    /// Removes the entries with the given id, keeping the others in order.
    pub fn remove_island_entry(&mut self, entry_id: u32)
        ensures
            final(self).island_entries@ == old(self).island_entries@.filter(keeps_other(entry_id)),
            final(self).next_entry_id == old(self).next_entry_id,
            !final(self).has_id(entry_id),
            old(self).well_formed() ==> final(self).well_formed(),
    {
        let ghost before = self.island_entries@;
        let ghost pred = keeps_other::<C>(entry_id);
        let mut kept: Vec<IslandEntry<C>> = Vec::new();
        let mut rest: Vec<IslandEntry<C>> = Vec::new();
        std::mem::swap(&mut rest, &mut self.island_entries);
        proof {
            assert(before.take(0) =~= Seq::<IslandEntry<C>>::empty());
            assert(before.skip(0) =~= before);
            reveal(Seq::filter);
        }
        let mut i: usize = 0;
        let n = rest.len();
        while i < n
            invariant
                n == before.len(),
                i <= n,
                rest@ == before.skip(i as int),
                kept@ == before.take(i as int).filter(pred),
                pred == keeps_other::<C>(entry_id),
            decreases n - i,
        {
            let e = rest.remove(0);
            proof {
                assert(e == before[i as int]);
                assert(before.skip(i + 1) =~= before.skip(i as int).remove(0));
                assert(before.take(i + 1) =~= before.take(i as int).push(e));
                before.take(i as int).lemma_filter_push(e, pred);
            }
            if e.id != entry_id {
                kept.push(e);
            }
            i = i + 1;
        }
        proof {
            assert(before.take(i as int) =~= before);
        }
        self.island_entries = kept;
        proof {
            let after = self.island_entries@;
            before.lemma_filter_len(pred);
            assert forall|k: int| 0 <= k < after.len() implies #[trigger] after[k].id != entry_id by {
                before.lemma_filter_pred(pred, k);
            }
            if old(self).well_formed() {
                lemma_filter_keeps_order(before, pred);
                assert forall|k: int| 0 <= k < after.len() implies #[trigger] after[k].id
                    < self.next_entry_id by {
                    let a = choose|a: int| #![trigger before[a]] 0 <= a < before.len() && before[a] == after[k];
                }
                assert forall|x: int, y: int| 0 <= x < y < after.len() implies #[trigger] after[x].id
                    < #[trigger] after[y].id by {
                    let (a, b) = choose|a: int, b: int|
                        #![trigger before[a], before[b]]
                        0 <= a < b < before.len() && before[a] == after[x] && before[b] == after[y];
                }
            }
        }
    }
}

/// Removing the entry that was just added gives back the ledger's entries as
/// they were before the addition.
pub proof fn lemma_remove_undoes_add<C>(
    ledger: IslandLedger<C>,
    building_id: BuildingId,
    recipe_id: RecipeId,
    count: C,
)
    requires
        ledger.well_formed(),
    ensures
        ({
            let id = ledger.next_entry_id;
            ledger.island_entries@.push(IslandEntry { id, building_id, recipe_id, count }).filter(
                keeps_other(id),
            )
        }) == ledger.island_entries@,
{
    let id = ledger.next_entry_id;
    let e = IslandEntry { id, building_id, recipe_id, count };
    ledger.island_entries@.lemma_filter_push(e, keeps_other(id));
    lemma_filter_keeps_all(ledger.island_entries@, keeps_other(id));
}

/// A filter that every element passes keeps the sequence as it is.
proof fn lemma_filter_keeps_all<A>(s: Seq<A>, pred: spec_fn(A) -> bool)
    requires
        forall|i: int| 0 <= i < s.len() ==> pred(#[trigger] s[i]),
    ensures
        s.filter(pred) == s,
    decreases s.len(),
{
    reveal(Seq::filter);
    if s.len() > 0 {
        lemma_filter_keeps_all(s.drop_last(), pred);
        assert(s.drop_last().push(s.last()) =~= s);
    }
}

/// What a filter keeps comes from the filtered sequence, in the order it had there.
proof fn lemma_filter_keeps_order<C>(s: Seq<IslandEntry<C>>, pred: spec_fn(IslandEntry<C>) -> bool)
    ensures
        forall|i: int|
            #![trigger s.filter(pred)[i]]
            0 <= i < s.filter(pred).len() ==> exists|a: int|
                #![trigger s[a]]
                0 <= a < s.len() && s[a] == s.filter(pred)[i],
        forall|i: int, j: int|
            #![trigger s.filter(pred)[i], s.filter(pred)[j]]
            0 <= i < j < s.filter(pred).len() ==> exists|a: int, b: int|
                #![trigger s[a], s[b]]
                0 <= a < b < s.len() && s[a] == s.filter(pred)[i] && s[b] == s.filter(pred)[j],
    decreases s.len(),
{
    reveal(Seq::filter);
    if s.len() > 0 {
        let init = s.drop_last();
        lemma_filter_keeps_order(init, pred);
        let f = s.filter(pred);
        let g = init.filter(pred);
        assert(f == if pred(s.last()) { g.push(s.last()) } else { g });
        assert forall|i: int| #![trigger f[i]] 0 <= i < f.len() implies exists|a: int|
            #![trigger s[a]]
            0 <= a < s.len() && s[a] == f[i] by {
            if i == g.len() {
                assert(s[s.len() - 1] == f[i]);
            } else {
                assert(f[i] == g[i]);
                let a = choose|a: int| #![trigger init[a]] 0 <= a < init.len() && init[a] == g[i];
                assert(s[a] == f[i]);
            }
        }
        assert forall|i: int, j: int| #![trigger f[i], f[j]] 0 <= i < j < f.len() implies exists|
            a: int,
            b: int,
        |
            #![trigger s[a], s[b]]
            0 <= a < b < s.len() && s[a] == f[i] && s[b] == f[j] by {
            assert(f[i] == g[i]);
            if j == g.len() {
                let a = choose|a: int| #![trigger init[a]] 0 <= a < init.len() && init[a] == g[i];
                assert(s[a] == f[i]);
                assert(s[s.len() - 1] == f[j]);
            } else {
                assert(f[j] == g[j]);
                let (a, b) = choose|a: int, b: int|
                    #![trigger init[a], init[b]]
                    0 <= a < b < init.len() && init[a] == g[i] && init[b] == g[j];
                assert(s[a] == f[i] && s[b] == f[j]);
            }
        }
    }
}

} // verus!
