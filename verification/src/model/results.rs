//! Balance-sheet entries: the metadata each entry keeps from its creation, and
//! the index of entries by resource, one entry per resource.
use vstd::prelude::*;

use super::ids::ResourceId;
use super::resource::ResourceCategory;

verus! {

/// What a balance-sheet entry records about its resource when it is created.
#[derive(Debug, Clone)]
pub struct EntryMeta {
    pub name: String,
    pub name_en: String,
    pub category: ResourceCategory,
}

/// Entry metadata as plain values.
pub type MetaView = (Seq<char>, Seq<char>, ResourceCategory);

impl View for EntryMeta {
    type V = MetaView;

    open spec fn view(&self) -> MetaView {
        (self.name@, self.name_en@, self.category)
    }
}

/// One entry of the index: its resource, its metadata, and whether the
/// resource must be supplied from outside.
#[derive(Debug, Clone)]
pub struct IndexedEntry {
    pub resource_id: ResourceId,
    pub meta: EntryMeta,
    pub is_raw_input: bool,
}

/// An entry as plain values.
pub type EntryView = (Seq<char>, MetaView, bool);

impl View for IndexedEntry {
    type V = EntryView;

    open spec fn view(&self) -> EntryView {
        (self.resource_id@, self.meta@, self.is_raw_input)
    }
}

/// The balance sheet's entries in the order they were created, at most one
/// per resource. Rates are kept alongside, position by position.
#[derive(Debug, Clone)]
pub struct BalanceIndex {
    entries: Vec<IndexedEntry>,
}

/// Index of the first entry for resource `id`.
pub open spec fn entry_position(entries: Seq<EntryView>, id: Seq<char>) -> Option<int>
    decreases entries.len(),
{
    if entries.len() == 0 {
        None
    } else if entries[0].0 == id {
        Some(0)
    } else {
        match entry_position(entries.drop_first(), id) {
            Some(i) => Some(i + 1),
            None => None,
        }
    }
}

/// Adds `e` to `entries`: a resource seen before keeps its entry and
/// metadata, its raw-input mark or-ed with that of `e`; a new one is appended.
pub open spec fn absorb(entries: Seq<EntryView>, e: EntryView) -> Seq<EntryView> {
    match entry_position(entries, e.0) {
        Some(p) => entries.update(p, (entries[p].0, entries[p].1, entries[p].2 || e.2)),
        None => entries.push(e),
    }
}

/// The entries after absorbing `others` one by one, in order.
pub open spec fn merge_spec(entries: Seq<EntryView>, others: Seq<EntryView>) -> Seq<EntryView>
    decreases others.len(),
{
    if others.len() == 0 {
        entries
    } else {
        absorb(merge_spec(entries, others.drop_last()), others.last())
    }
}

/// No two entries are for the same resource.
pub open spec fn ids_distinct(entries: Seq<EntryView>) -> bool {
    forall|i: int, j: int|
        0 <= i < entries.len() && 0 <= j < entries.len() && i != j ==> #[trigger] entries[i].0
            != #[trigger] entries[j].0
}

pub proof fn lemma_entry_position(entries: Seq<EntryView>, id: Seq<char>)
    ensures
        match entry_position(entries, id) {
            Some(k) => 0 <= k < entries.len() && entries[k].0 == id && forall|j: int|
                0 <= j < k ==> #[trigger] entries[j].0 != id,
            None => forall|j: int| 0 <= j < entries.len() ==> #[trigger] entries[j].0 != id,
        },
    decreases entries.len(),
{
    if entries.len() > 0 {
        lemma_entry_position(entries.drop_first(), id);
        assert forall|j: int| 1 <= j < entries.len() implies entries[j] == entries.drop_first()[j - 1] by {}
    }
}

/// Absorbing an entry keeps the resources distinct.
pub proof fn lemma_absorb_distinct(entries: Seq<EntryView>, e: EntryView)
    requires
        ids_distinct(entries),
    ensures
        ids_distinct(absorb(entries, e)),
        entry_position(absorb(entries, e), e.0) is Some,
{
    lemma_entry_position(entries, e.0);
    let after = absorb(entries, e);
    lemma_entry_position(after, e.0);
    match entry_position(entries, e.0) {
        Some(p) => {
            assert(after[p].0 == e.0);
            assert forall|i: int, j: int|
                0 <= i < after.len() && 0 <= j < after.len() && i != j implies #[trigger] after[i].0
                != #[trigger] after[j].0 by {
                assert(after[i].0 == entries[i].0);
                assert(after[j].0 == entries[j].0);
            }
        },
        None => {
            assert(after[entries.len() as int].0 == e.0);
            assert forall|i: int, j: int|
                0 <= i < after.len() && 0 <= j < after.len() && i != j implies #[trigger] after[i].0
                != #[trigger] after[j].0 by {
                if i < entries.len() && j < entries.len() {
                    assert(after[i] == entries[i]);
                    assert(after[j] == entries[j]);
                }
            }
        },
    }
}

/// Booking a resource a second time changes nothing: the entry made first,
/// with its metadata, stays as it is.
pub proof fn lemma_first_meta_kept(entries: Seq<EntryView>, id: Seq<char>, first: MetaView, second: MetaView)
    requires
        ids_distinct(entries),
    ensures
        absorb(absorb(entries, (id, first, false)), (id, second, false)) == absorb(entries, (id, first, false)),
{
    let once = absorb(entries, (id, first, false));
    lemma_absorb_distinct(entries, (id, first, false));
    lemma_entry_position(once, id);
    let p = entry_position(once, id)->0;
    assert(once.update(p, (once[p].0, once[p].1, once[p].2 || false)) =~= once);
}

/// Merging never drops or moves an entry: every entry keeps its place, its
/// resource and its metadata, and new entries come after the old ones.
pub proof fn lemma_merge_keeps_existing(entries: Seq<EntryView>, others: Seq<EntryView>)
    ensures
        merge_spec(entries, others).len() >= entries.len(),
        forall|i: int|
            0 <= i < entries.len() ==> (#[trigger] merge_spec(entries, others)[i]).0 == entries[i].0
                && merge_spec(entries, others)[i].1 == entries[i].1,
    decreases others.len(),
{
    if others.len() > 0 {
        lemma_merge_keeps_existing(entries, others.drop_last());
        let m = merge_spec(entries, others.drop_last());
        let e = others.last();
        lemma_entry_position(m, e.0);
        assert forall|i: int| 0 <= i < entries.len() implies (#[trigger] merge_spec(entries, others)[i]).0
            == entries[i].0 && merge_spec(entries, others)[i].1 == entries[i].1 by {
            assert(merge_spec(entries, others)[i].0 == m[i].0);
            assert(merge_spec(entries, others)[i].1 == m[i].1);
        }
    }
}

impl BalanceIndex {
    /// The entries as plain values.
    pub closed spec fn view_entries(&self) -> Seq<EntryView> {
        self.entries@.map_values(|e: IndexedEntry| e@)
    }

    /// Each resource has at most one entry.
    pub closed spec fn well_formed(&self) -> bool {
        ids_distinct(self.view_entries())
    }

    /// An index with no entry.
    pub fn new() -> (index: Self)
        ensures
            index.view_entries() == Seq::<EntryView>::empty(),
            index.well_formed(),
    {
        let index = BalanceIndex { entries: Vec::new() };
        assert(index.view_entries() =~= Seq::<EntryView>::empty());
        index
    }

    /// The number of entries.
    pub fn len(&self) -> (n: usize)
        ensures
            n == self.view_entries().len(),
    {
        self.entries.len()
    }

    /// The entry at position `i`.
    pub fn entry(&self, i: usize) -> (e: &IndexedEntry)
        requires
            i < self.view_entries().len(),
        ensures
            e@ == self.view_entries()[i as int],
    {
        &self.entries[i]
    }

    /// The position of the entry for `id`, if there is one.
    pub fn position(&self, id: &ResourceId) -> (pos: Option<usize>)
        ensures
            match pos {
                Some(p) => entry_position(self.view_entries(), id@) == Some(p as int),
                None => entry_position(self.view_entries(), id@) is None,
            },
    {
        let ghost views = self.view_entries();
        proof {
            lemma_entry_position(views, id@);
        }
        let mut i: usize = 0;
        while i < self.entries.len()
            invariant
                i <= self.entries@.len(),
                views == self.view_entries(),
                views.len() == self.entries@.len(),
                forall|k: int| 0 <= k < i ==> #[trigger] views[k].0 != id@,
            decreases self.entries@.len() - i,
        {
            assert(views[i as int] == self.entries@[i as int]@);
            if self.entries[i].resource_id.same(id) {
                proof {
                    lemma_entry_position(views, id@);
                    assert(views[i as int].0 == id@);
                    assert(entry_position(views, id@) is Some);
                    let k = entry_position(views, id@)->0;
                    if k > i {
                        assert(views[i as int].0 != id@);
                    }
                    if k < i {
                        assert(views[k].0 != id@);
                    }
                    assert(k == i);
                }
                return Some(i);
            }
            i = i + 1;
        }
        None
    }

    /// The position of the entry for `id`, created with `meta` when the
    /// resource has none yet; an existing entry keeps its metadata.
    pub fn get_or_insert(&mut self, id: &ResourceId, meta: EntryMeta) -> (pos: usize)
        requires
            old(self).well_formed(),
        ensures
            final(self).well_formed(),
            final(self).view_entries() == absorb(old(self).view_entries(), (id@, meta@, false)),
            entry_position(final(self).view_entries(), id@) == Some(pos as int),
    {
        let ghost before = self.view_entries();
        proof {
            lemma_entry_position(before, id@);
            lemma_absorb_distinct(before, (id@, meta@, false));
        }
        match self.position(id) {
            Some(p) => {
                proof {
                    assert(before.update(p as int, (before[p as int].0, before[p as int].1, before[p as int].2 || false)) =~= before);
                }
                p
            },
            None => {
                let n = self.entries.len();
                let e = IndexedEntry { resource_id: id.duplicate(), meta, is_raw_input: false };
                self.entries.push(e);
                proof {
                    assert(self.view_entries() =~= before.push((id@, meta@, false)));
                    lemma_entry_position(self.view_entries(), id@);
                    assert(self.view_entries()[n as int].0 == id@);
                }
                n
            },
        }
    }

    /// Marks the resource as a raw input; nothing changes when it has no entry.
    pub fn mark_raw_input(&mut self, id: &ResourceId)
        requires
            old(self).well_formed(),
        ensures
            final(self).well_formed(),
            final(self).view_entries() == match entry_position(old(self).view_entries(), id@) {
                Some(p) => old(self).view_entries().update(
                    p,
                    (old(self).view_entries()[p].0, old(self).view_entries()[p].1, true),
                ),
                None => old(self).view_entries(),
            },
    {
        let ghost before = self.view_entries();
        if let Some(p) = self.position(id) {
            proof {
                lemma_entry_position(before, id@);
            }
            let old_entry = &self.entries[p];
            let e = IndexedEntry {
                resource_id: old_entry.resource_id.duplicate(),
                meta: EntryMeta {
                    name: old_entry.meta.name.clone(),
                    name_en: old_entry.meta.name_en.clone(),
                    category: old_entry.meta.category,
                },
                is_raw_input: true,
            };
            self.entries.set(p, e);
            proof {
                let after = self.view_entries();
                assert(after =~= before.update(p as int, (before[p as int].0, before[p as int].1, true)));
                assert forall|i: int, j: int|
                    0 <= i < after.len() && 0 <= j < after.len() && i != j implies #[trigger] after[i].0
                    != #[trigger] after[j].0 by {
                    assert(after[i].0 == before[i].0);
                    assert(after[j].0 == before[j].0);
                }
            }
        }
    }

    /// Adds the entries of `other`: a resource already here keeps its entry
    /// and metadata, its raw-input mark or-ed with the other's; a new one is
    /// appended. Returns, for each entry of `other`, its position here.
    pub fn merge(&mut self, other: &BalanceIndex) -> (slots: Vec<usize>)
        requires
            old(self).well_formed(),
        ensures
            final(self).well_formed(),
            final(self).view_entries() == merge_spec(old(self).view_entries(), other.view_entries()),
            slots@.len() == other.view_entries().len(),
            forall|k: int|
                0 <= k < slots@.len() ==> entry_position(final(self).view_entries(), other.view_entries()[k].0)
                    == Some(#[trigger] slots@[k] as int),
    {
        let ghost start = self.view_entries();
        let ghost theirs = other.view_entries();
        let mut slots: Vec<usize> = Vec::new();
        let mut k: usize = 0;
        assert(theirs.take(0) =~= Seq::<EntryView>::empty());
        while k < other.entries.len()
            invariant
                k <= other.entries@.len(),
                theirs == other.view_entries(),
                theirs.len() == other.entries@.len(),
                self.well_formed(),
                self.view_entries() == merge_spec(start, theirs.take(k as int)),
                slots@.len() == k,
                forall|m: int|
                    0 <= m < k ==> entry_position(self.view_entries(), theirs[m].0) == Some(#[trigger] slots@[m] as int),
            decreases other.entries@.len() - k,
        {
            let ghost before = self.view_entries();
            let e = &other.entries[k];
            assert(e@ == theirs[k as int]);
            proof {
                lemma_entry_position(before, e@.0);
                lemma_absorb_distinct(before, e@);
            }
            let p = match self.position(&e.resource_id) {
                Some(p) => {
                    let cur = &self.entries[p];
                    let merged = IndexedEntry {
                        resource_id: cur.resource_id.duplicate(),
                        meta: EntryMeta {
                            name: cur.meta.name.clone(),
                            name_en: cur.meta.name_en.clone(),
                            category: cur.meta.category,
                        },
                        is_raw_input: cur.is_raw_input || e.is_raw_input,
                    };
                    self.entries.set(p, merged);
                    assert(self.view_entries() =~= absorb(before, e@));
                    p
                },
                None => {
                    let n = self.entries.len();
                    let copy = IndexedEntry {
                        resource_id: e.resource_id.duplicate(),
                        meta: EntryMeta {
                            name: e.meta.name.clone(),
                            name_en: e.meta.name_en.clone(),
                            category: e.meta.category,
                        },
                        is_raw_input: e.is_raw_input,
                    };
                    self.entries.push(copy);
                    assert(self.view_entries() =~= absorb(before, e@));
                    n
                },
            };
            proof {
                let after = self.view_entries();
                assert(theirs.take(k + 1).drop_last() =~= theirs.take(k as int));
                lemma_entry_position(after, e@.0);
                assert(after[p as int].0 == e@.0);
                assert forall|m: int| 0 <= m < k implies entry_position(after, theirs[m].0) == Some(#[trigger] slots@[m] as int) by {
                    lemma_entry_position(before, theirs[m].0);
                    lemma_entry_position(after, theirs[m].0);
                    let q = slots@[m] as int;
                    assert(after[q].0 == before[q].0);
                }
            }
            slots.push(p);
            k = k + 1;
        }
        assert(theirs.take(k as int) =~= theirs);
        slots
    }
}

} // verus!
