//! Recipe selection for the production-chain solver: which recipes research
//! has unlocked, the player's recipe preferences, and the choice of the recipe
//! that produces a resource.
use vstd::prelude::*;

use crate::model::ids::{BuildingId, RecipeId, ResearchId, ResourceId};
use crate::text::{chars_lt, chars_of, seq_lt, SortKey, stable_order, is_stable_order, keys_view};

verus! {

/// The research unlocks and recipe preferences the solver works under.
///
/// Each research id is held once, and each resource has at most one preferred
/// recipe.
pub struct SelectionSettings {
    unlocked_research: Vec<ResearchId>,
    recipe_preferences: Vec<(ResourceId, RecipeId)>,
}

/// The views of a sequence of research ids.
pub open spec fn research_views(ids: Seq<ResearchId>) -> Seq<Seq<char>> {
    ids.map_values(|r: ResearchId| r@)
}

/// The views of the preference pairs.
pub open spec fn preference_views(prefs: Seq<(ResourceId, RecipeId)>) -> Seq<(Seq<char>, Seq<char>)> {
    prefs.map_values(|p: (ResourceId, RecipeId)| (p.0@, p.1@))
}

/// The recipe preferred for `resource` in a list of preference pairs.
pub open spec fn preference_in(prefs: Seq<(Seq<char>, Seq<char>)>, resource: Seq<char>) -> Option<
    Seq<char>,
>
    decreases prefs.len(),
{
    if prefs.len() == 0 {
        None
    } else if prefs.last().0 == resource {
        Some(prefs.last().1)
    } else {
        preference_in(prefs.drop_last(), resource)
    }
}

/// No two entries of a sequence are equal.
pub open spec fn no_duplicates<A>(s: Seq<A>) -> bool {
    forall|i: int, j: int| 0 <= i < j < s.len() ==> s[i] != s[j]
}

/// No two preference pairs are for the same resource.
pub open spec fn keys_unique(prefs: Seq<(Seq<char>, Seq<char>)>) -> bool {
    forall|i: int, j: int| 0 <= i < j < prefs.len() ==> prefs[i].0 != prefs[j].0
}

proof fn lemma_preference_found(prefs: Seq<(Seq<char>, Seq<char>)>, i: int)
    requires
        keys_unique(prefs),
        0 <= i < prefs.len(),
    ensures
        preference_in(prefs, prefs[i].0) == Some(prefs[i].1),
    decreases prefs.len(),
{
    if i < prefs.len() - 1 {
        lemma_preference_found(prefs.drop_last(), i);
    }
}

proof fn lemma_preference_absent(prefs: Seq<(Seq<char>, Seq<char>)>, r: Seq<char>)
    requires
        forall|i: int| 0 <= i < prefs.len() ==> prefs[i].0 != r,
    ensures
        preference_in(prefs, r) is None,
    decreases prefs.len(),
{
    if prefs.len() > 0 {
        lemma_preference_absent(prefs.drop_last(), r);
    }
}

proof fn lemma_preference_present(prefs: Seq<(Seq<char>, Seq<char>)>, r: Seq<char>)
    requires
        preference_in(prefs, r) is Some,
    ensures
        exists|i: int| 0 <= i < prefs.len() && prefs[i].0 == r,
    decreases prefs.len(),
{
    if prefs.last().0 != r {
        lemma_preference_present(prefs.drop_last(), r);
        let i = choose|i: int| 0 <= i < prefs.len() - 1 && prefs.drop_last()[i].0 == r;
        assert(prefs[i].0 == r);
    }
}

proof fn lemma_preference_lookup(prefs: Seq<(Seq<char>, Seq<char>)>, r: Seq<char>)
    requires
        keys_unique(prefs),
    ensures
        match preference_in(prefs, r) {
            Some(v) => exists|i: int| 0 <= i < prefs.len() && prefs[i] == (r, v),
            None => forall|i: int| 0 <= i < prefs.len() ==> prefs[i].0 != r,
        },
{
    if preference_in(prefs, r) is Some {
        lemma_preference_present(prefs, r);
        let i = choose|i: int| 0 <= i < prefs.len() && prefs[i].0 == r;
        lemma_preference_found(prefs, i);
    } else {
        assert forall|i: int| 0 <= i < prefs.len() implies prefs[i].0 != r by {
            if prefs[i].0 == r {
                lemma_preference_found(prefs, i);
            }
        }
    }
}

impl SelectionSettings {
    /// Each research id is held once and each resource has at most one preference.
    pub closed spec fn well_formed(self) -> bool {
        &&& no_duplicates(research_views(self.unlocked_research@))
        &&& keys_unique(preference_views(self.recipe_preferences@))
    }

    /// The set of unlocked research ids.
    pub closed spec fn unlocked(self) -> Set<Seq<char>> {
        research_views(self.unlocked_research@).to_set()
    }

    /// The preferred recipe of each resource that has one.
    pub closed spec fn preferences(self) -> Map<Seq<char>, Seq<char>> {
        let prefs = preference_views(self.recipe_preferences@);
        Map::new(|r: Seq<char>| preference_in(prefs, r) is Some, |r: Seq<char>| preference_in(prefs, r)->0)
    }

    /// Settings with nothing unlocked and no preferences.
    pub fn new() -> (s: Self)
        ensures
            s.well_formed(),
            s.unlocked() == Set::<Seq<char>>::empty(),
            s.preferences() == Map::<Seq<char>, Seq<char>>::empty(),
    {
        let s = SelectionSettings { unlocked_research: Vec::new(), recipe_preferences: Vec::new() };
        assert(research_views(s.unlocked_research@) =~= seq![]);
        assert(s.unlocked() =~= Set::<Seq<char>>::empty());
        assert(s.preferences() =~= Map::<Seq<char>, Seq<char>>::empty());
        s
    }

    /// Whether no research has been unlocked.
    pub fn nothing_unlocked(&self) -> (b: bool)
        ensures
            b == (self.unlocked() == Set::<Seq<char>>::empty()),
    {
        proof {
            if self.unlocked_research@.len() > 0 {
                assert(self.unlocked().contains(research_views(self.unlocked_research@)[0]));
            } else {
                assert(research_views(self.unlocked_research@) =~= seq![]);
                assert(self.unlocked() =~= Set::<Seq<char>>::empty());
            }
        }
        self.unlocked_research.len() == 0
    }

    /// Index of `id` among the unlocked research ids, if it is there.
    fn find_unlocked(&self, id: &ResearchId) -> (idx: Option<usize>)
        ensures
            match idx {
                Some(i) => i < self.unlocked_research@.len() && self.unlocked_research@[i as int]@ == id@,
                None => !self.unlocked().contains(id@),
            },
    {
        let mut i: usize = 0;
        while i < self.unlocked_research.len()
            invariant
                i <= self.unlocked_research@.len(),
                forall|k: int| 0 <= k < i ==> self.unlocked_research@[k]@ != id@,
            decreases self.unlocked_research@.len() - i,
        {
            if self.unlocked_research[i].same(id) {
                return Some(i);
            }
            i = i + 1;
        }
        proof {
            if self.unlocked().contains(id@) {
                let k = research_views(self.unlocked_research@).index_of(id@);
                assert(self.unlocked_research@[k]@ == id@);
            }
        }
        None
    }

    /// Whether research `id` is unlocked.
    pub fn is_unlocked(&self, id: &ResearchId) -> (b: bool)
        ensures
            b == self.unlocked().contains(id@),
    {
        match self.find_unlocked(id) {
            Some(i) => {
                assert(research_views(self.unlocked_research@)[i as int] == id@);
                true
            },
            None => false,
        }
    }

    /// Marks research `id` as unlocked; true when it was not unlocked before.
    pub fn unlock(&mut self, id: &ResearchId) -> (added: bool)
        requires
            old(self).well_formed(),
        ensures
            final(self).well_formed(),
            final(self).unlocked() == old(self).unlocked().insert(id@),
            final(self).preferences() == old(self).preferences(),
            added == !old(self).unlocked().contains(id@),
    {
        if self.is_unlocked(id) {
            assert(self.unlocked().insert(id@) =~= self.unlocked());
            return false;
        }
        let ghost before = research_views(self.unlocked_research@);
        self.unlocked_research.push(id.duplicate());
        proof {
            assert(research_views(self.unlocked_research@) =~= before.push(id@));
            before.lemma_push_to_set_commute(id@);
        }
        true
    }

    /// Marks research `id` as locked again; true when it had been unlocked.
    pub fn lock(&mut self, id: &ResearchId) -> (removed: bool)
        requires
            old(self).well_formed(),
        ensures
            final(self).well_formed(),
            final(self).unlocked() == old(self).unlocked().remove(id@),
            final(self).preferences() == old(self).preferences(),
            removed == old(self).unlocked().contains(id@),
    {
        match self.find_unlocked(id) {
            None => {
                assert(self.unlocked().remove(id@) =~= self.unlocked());
                false
            },
            Some(i) => {
                let ghost before = research_views(self.unlocked_research@);
                assert(before[i as int] == id@);
                self.unlocked_research.remove(i);
                proof {
                    let after = research_views(self.unlocked_research@);
                    assert(after =~= before.remove(i as int));
                    assert forall|x: Seq<char>| after.to_set().contains(x) <==> before.to_set().remove(
                        id@,
                    ).contains(x) by {
                        if after.to_set().contains(x) {
                            let k = after.index_of(x);
                            if k < i {
                                assert(before[k] == x);
                                assert(k != i);
                            } else {
                                assert(before[k + 1] == x);
                            }
                        }
                        if before.to_set().remove(id@).contains(x) {
                            let k = before.index_of(x);
                            assert(k != i);
                            if k < i {
                                assert(after[k] == x);
                            } else {
                                assert(after[k - 1] == x);
                            }
                        }
                    }
                    assert(after.to_set() =~= before.to_set().remove(id@));
                }
                true
            },
        }
    }

    /// The unlocked research ids, sorted by id.
    pub fn unlocked_sorted(&self) -> (ids: Vec<ResearchId>)
        requires
            self.well_formed(),
        ensures
            ids@.len() == self.unlocked().len(),
            research_views(ids@).to_set() == self.unlocked(),
            forall|i: int, j: int| 0 <= i < j < ids@.len() ==> seq_lt(#[trigger] ids@[i]@, #[trigger] ids@[j]@),
    {
        let mut keys: Vec<SortKey> = Vec::new();
        let mut i: usize = 0;
        while i < self.unlocked_research.len()
            invariant
                i <= self.unlocked_research@.len(),
                keys@.len() == i,
                forall|k: int| 0 <= k < i ==> #[trigger] keys_view(keys@)[k] == (0u64, self.unlocked_research@[k]@),
            decreases self.unlocked_research@.len() - i,
        {
            let text = chars_of(self.unlocked_research[i].0.as_str());
            let ghost old_keys = keys@;
            keys.push(SortKey { rank: 0, text });
            assert(keys_view(keys@) =~= keys_view(old_keys).push((0u64, self.unlocked_research@[i as int]@)));
            i = i + 1;
        }
        let order = stable_order(&keys);
        let mut ids: Vec<ResearchId> = Vec::new();
        let mut j: usize = 0;
        while j < order.len()
            invariant
                is_stable_order(keys_view(keys@), order@),
                keys@.len() == self.unlocked_research@.len(),
                forall|k: int| 0 <= k < keys@.len() ==> #[trigger] keys_view(keys@)[k] == (0u64, self.unlocked_research@[k]@),
                j <= order@.len(),
                ids@.len() == j,
                forall|k: int| 0 <= k < j ==> #[trigger] ids@[k]@ == self.unlocked_research@[order@[k] as int]@,
            decreases order@.len() - j,
        {
            ids.push(self.unlocked_research[order[j]].duplicate());
            j = j + 1;
        }
        proof {
            let kv = keys_view(keys@);
            let src = research_views(self.unlocked_research@);
            let out = research_views(ids@);
            assert forall|a: int, b: int| 0 <= a < b < ids@.len() implies seq_lt(#[trigger] ids@[a]@, #[trigger] ids@[b]@) by {
                assert(crate::text::precedes(kv, order@[a] as int, order@[b] as int));
                crate::text::lemma_stable_order_distinct(kv, order@, a, b);
                assert(src[order@[a] as int] != src[order@[b] as int]);
            }
            assert forall|x: Seq<char>| out.to_set().contains(x) <==> src.to_set().contains(x) by {
                if out.to_set().contains(x) {
                    let k = out.index_of(x);
                    assert(src[order@[k] as int] == x);
                }
                if src.to_set().contains(x) {
                    let k = src.index_of(x);
                    crate::text::lemma_stable_order_onto(kv, order@, k);
                    let p = choose|p: int| 0 <= p < order@.len() && order@[p] == k;
                    assert(out[p] == x);
                }
            }
            assert(out.to_set() =~= src.to_set());
            src.unique_seq_to_set();
        }
        ids
    }

    /// The preferences as (resource, recipe) pairs, sorted by resource id.
    pub fn preferences_sorted(&self) -> (pairs: Vec<(ResourceId, RecipeId)>)
        requires
            self.well_formed(),
        ensures
            forall|k: int|
                0 <= k < pairs@.len() ==> self.preferences().contains_key(#[trigger] pairs@[k].0@)
                    && self.preferences()[pairs@[k].0@] == pairs@[k].1@,
            forall|r: Seq<char>|
                #[trigger] self.preferences().contains_key(r) ==> exists|k: int|
                    0 <= k < pairs@.len() && #[trigger] pairs@[k].0@ == r,
            forall|i: int, j: int| 0 <= i < j < pairs@.len() ==> seq_lt(#[trigger] pairs@[i].0@, #[trigger] pairs@[j].0@),
    {
        let ghost prefs = preference_views(self.recipe_preferences@);
        let mut keys: Vec<SortKey> = Vec::new();
        let mut i: usize = 0;
        while i < self.recipe_preferences.len()
            invariant
                i <= self.recipe_preferences@.len(),
                keys@.len() == i,
                forall|k: int| 0 <= k < i ==> #[trigger] keys_view(keys@)[k] == (0u64, self.recipe_preferences@[k].0@),
            decreases self.recipe_preferences@.len() - i,
        {
            let text = chars_of(self.recipe_preferences[i].0.0.as_str());
            let ghost old_keys = keys@;
            keys.push(SortKey { rank: 0, text });
            assert(keys_view(keys@) =~= keys_view(old_keys).push((0u64, self.recipe_preferences@[i as int].0@)));
            i = i + 1;
        }
        let order = stable_order(&keys);
        let mut pairs: Vec<(ResourceId, RecipeId)> = Vec::new();
        let mut j: usize = 0;
        while j < order.len()
            invariant
                is_stable_order(keys_view(keys@), order@),
                keys@.len() == self.recipe_preferences@.len(),
                forall|k: int| 0 <= k < keys@.len() ==> #[trigger] keys_view(keys@)[k] == (0u64, self.recipe_preferences@[k].0@),
                j <= order@.len(),
                pairs@.len() == j,
                forall|k: int| 0 <= k < j ==> #[trigger] pairs@[k].0@ == self.recipe_preferences@[order@[k] as int].0@
                    && pairs@[k].1@ == self.recipe_preferences@[order@[k] as int].1@,
            decreases order@.len() - j,
        {
            let pair = &self.recipe_preferences[order[j]];
            pairs.push((pair.0.duplicate(), pair.1.duplicate()));
            j = j + 1;
        }
        proof {
            let kv = keys_view(keys@);
            assert forall|k: int|
                0 <= k < pairs@.len() implies self.preferences().contains_key(#[trigger] pairs@[k].0@)
                && self.preferences()[pairs@[k].0@] == pairs@[k].1@ by {
                let src = order@[k] as int;
                assert(prefs[src] == (self.recipe_preferences@[src].0@, self.recipe_preferences@[src].1@));
                lemma_preference_found(prefs, src);
            }
            assert forall|r: Seq<char>| #[trigger] self.preferences().contains_key(r) implies exists|k: int|
                0 <= k < pairs@.len() && #[trigger] pairs@[k].0@ == r by {
                lemma_preference_lookup(prefs, r);
                let src = choose|s: int| 0 <= s < prefs.len() && prefs[s].0 == r;
                crate::text::lemma_stable_order_onto(kv, order@, src);
                let p = choose|p: int| 0 <= p < order@.len() && order@[p] == src;
                assert(pairs@[p].0@ == r);
            }
            assert forall|a: int, b: int| 0 <= a < b < pairs@.len() implies seq_lt(#[trigger] pairs@[a].0@, #[trigger] pairs@[b].0@) by {
                assert(crate::text::precedes(kv, order@[a] as int, order@[b] as int));
                crate::text::lemma_stable_order_distinct(kv, order@, a, b);
                assert(prefs[order@[a] as int].0 != prefs[order@[b] as int].0);
            }
        }
        pairs
    }

    /// Index of the preference for `resource`, if there is one.
    fn find_preference(&self, resource: &ResourceId) -> (idx: Option<usize>)
        ensures
            match idx {
                Some(i) => i < self.recipe_preferences@.len() && self.recipe_preferences@[i as int].0@
                    == resource@,
                None => forall|k: int|
                    0 <= k < self.recipe_preferences@.len() ==> self.recipe_preferences@[k].0@
                        != resource@,
            },
    {
        let mut i: usize = 0;
        while i < self.recipe_preferences.len()
            invariant
                i <= self.recipe_preferences@.len(),
                forall|k: int| 0 <= k < i ==> self.recipe_preferences@[k].0@ != resource@,
            decreases self.recipe_preferences@.len() - i,
        {
            if self.recipe_preferences[i].0.same(resource) {
                return Some(i);
            }
            i = i + 1;
        }
        None
    }

    /// The recipe preferred for `resource`, if the player named one.
    pub fn preference_for(&self, resource: &ResourceId) -> (recipe: Option<&RecipeId>)
        requires
            self.well_formed(),
        ensures
            match recipe {
                Some(r) => self.preferences().contains_key(resource@) && self.preferences()[resource@]
                    == r@,
                None => !self.preferences().contains_key(resource@),
            },
    {
        let ghost prefs = preference_views(self.recipe_preferences@);
        match self.find_preference(resource) {
            Some(i) => {
                proof {
                    assert(prefs[i as int].0 == resource@);
                    lemma_preference_found(prefs, i as int);
                }
                Some(&self.recipe_preferences[i].1)
            },
            None => {
                proof {
                    assert forall|k: int| 0 <= k < prefs.len() implies prefs[k].0 != resource@ by {
                        assert(prefs[k].0 == self.recipe_preferences@[k].0@);
                    }
                    lemma_preference_absent(prefs, resource@);
                }
                None
            },
        }
    }

    /// Prefers `recipe` for `resource`, replacing any earlier preference.
    pub fn set_preference(&mut self, resource: &ResourceId, recipe: &RecipeId)
        requires
            old(self).well_formed(),
        ensures
            final(self).well_formed(),
            final(self).preferences() == old(self).preferences().insert(resource@, recipe@),
            final(self).unlocked() == old(self).unlocked(),
    {
        let ghost before = preference_views(self.recipe_preferences@);
        let pair = (resource.duplicate(), recipe.duplicate());
        match self.find_preference(resource) {
            Some(i) => {
                self.recipe_preferences.set(i, pair);
                proof {
                    let after = preference_views(self.recipe_preferences@);
                    assert(after =~= before.update(i as int, (resource@, recipe@)));
                    assert(before[i as int].0 == resource@);
                    assert forall|r: Seq<char>| preference_in(after, r) == (if r == resource@ {
                        Some(recipe@)
                    } else {
                        preference_in(before, r)
                    }) by {
                        lemma_preference_lookup(before, r);
                        lemma_preference_lookup(after, r);
                        if r == resource@ {
                            lemma_preference_found(after, i as int);
                        } else {
                            if preference_in(before, r) is Some {
                                let k = choose|k: int| 0 <= k < before.len() && before[k] == (r, preference_in(before, r)->0);
                                assert(after[k] == before[k]);
                                lemma_preference_found(after, k);
                            } else {
                                assert forall|k: int| 0 <= k < after.len() implies after[k].0 != r by {
                                    if k != i {
                                        assert(after[k] == before[k]);
                                    }
                                }
                                lemma_preference_absent(after, r);
                            }
                        }
                    }
                    assert(self.preferences() =~= old(self).preferences().insert(resource@, recipe@));
                }
            },
            None => {
                self.recipe_preferences.push(pair);
                proof {
                    let after = preference_views(self.recipe_preferences@);
                    assert(after =~= before.push((resource@, recipe@)));
                    assert forall|k: int| 0 <= k < before.len() implies before[k].0 != resource@ by {
                        assert(before[k].0 == old(self).recipe_preferences@[k].0@);
                    }
                    assert(after.drop_last() == before);
                    assert(self.preferences() =~= old(self).preferences().insert(resource@, recipe@));
                }
            },
        }
    }

    /// Drops the preference for `resource`, if there is one.
    pub fn remove_preference(&mut self, resource: &ResourceId)
        requires
            old(self).well_formed(),
        ensures
            final(self).well_formed(),
            final(self).preferences() == old(self).preferences().remove(resource@),
            final(self).unlocked() == old(self).unlocked(),
    {
        let ghost before = preference_views(self.recipe_preferences@);
        match self.find_preference(resource) {
            Some(i) => {
                self.recipe_preferences.remove(i);
                proof {
                    let after = preference_views(self.recipe_preferences@);
                    assert(after =~= before.remove(i as int));
                    assert(before[i as int].0 == resource@);
                    assert forall|r: Seq<char>| preference_in(after, r) == (if r == resource@ {
                        None
                    } else {
                        preference_in(before, r)
                    }) by {
                        lemma_preference_lookup(before, r);
                        lemma_preference_lookup(after, r);
                        if r == resource@ {
                            assert forall|k: int| 0 <= k < after.len() implies after[k].0 != r by {
                                if k < i {
                                    assert(after[k] == before[k]);
                                } else {
                                    assert(after[k] == before[k + 1]);
                                }
                            }
                            lemma_preference_absent(after, r);
                        } else if preference_in(before, r) is Some {
                            let k = choose|k: int| 0 <= k < before.len() && before[k] == (r, preference_in(before, r)->0);
                            if k < i {
                                assert(after[k] == before[k]);
                                lemma_preference_found(after, k);
                            } else {
                                assert(k != i);
                                assert(after[k - 1] == before[k]);
                                lemma_preference_found(after, k - 1);
                            }
                        } else {
                            assert forall|k: int| 0 <= k < after.len() implies after[k].0 != r by {
                                if k < i {
                                    assert(after[k] == before[k]);
                                } else {
                                    assert(after[k] == before[k + 1]);
                                }
                            }
                            lemma_preference_absent(after, r);
                        }
                    }
                    assert(self.preferences() =~= old(self).preferences().remove(resource@));
                }
            },
            None => {
                proof {
                    assert forall|k: int| 0 <= k < before.len() implies before[k].0 != resource@ by {
                        assert(before[k].0 == self.recipe_preferences@[k].0@);
                    }
                    lemma_preference_absent(before, resource@);
                    assert(self.preferences() =~= old(self).preferences().remove(resource@));
                }
            },
        }
    }
}


/// What recipe selection reads of a recipe.
pub struct RecipeInfo {
    pub id: RecipeId,
    /// The building that runs the recipe.
    pub building_id: BuildingId,
    /// The resources the recipe consumes, in recipe order.
    pub inputs: Vec<ResourceId>,
    /// Every resource the recipe outputs, by-products included.
    pub outputs: Vec<ResourceId>,
    /// Whether this is the building's default recipe.
    pub is_default: bool,
    /// The research that unlocks the recipe, independently of its building.
    pub research_required: Option<ResearchId>,
}

/// What recipe selection reads of a building.
pub struct BuildingInfo {
    pub id: BuildingId,
    /// The research that unlocks the building.
    pub research_required: Option<ResearchId>,
}

/// What the solver reads of a resource.
pub struct ResourceInfo {
    pub id: ResourceId,
    /// Extracted resources: the solver books them as raw inputs.
    pub is_primary: bool,
    /// Final pollution: the solver only lists it.
    pub is_pollution: bool,
}

/// The resources, recipes and buildings of the game data, as the solver sees them.
pub struct RecipeCatalog {
    pub resources: Vec<ResourceInfo>,
    pub recipes: Vec<RecipeInfo>,
    pub buildings: Vec<BuildingInfo>,
}

/// Whether a recipe lists `target` among its outputs.
pub open spec fn produces(recipe: RecipeInfo, target: Seq<char>) -> bool {
    exists|i: int| 0 <= i < recipe.outputs@.len() && #[trigger] recipe.outputs@[i]@ == target
}

/// Whether a research requirement is met by the unlocked set.
pub open spec fn research_met(required: Option<ResearchId>, unlocked: Set<Seq<char>>) -> bool {
    match required {
        None => true,
        Some(id) => unlocked.contains(id@),
    }
}

/// The research requirement of the first building with id `id`, if any building has it.
pub open spec fn building_requirement(buildings: Seq<BuildingInfo>, id: Seq<char>) -> Option<
    Option<ResearchId>,
>
    decreases buildings.len(),
{
    if buildings.len() == 0 {
        None
    } else if buildings[0].id@ == id {
        Some(buildings[0].research_required)
    } else {
        building_requirement(buildings.drop_first(), id)
    }
}

/// A recipe is available when nothing is unlocked at all (everything counts as
/// unlocked then), or when both its own research and its building's research
/// are unlocked. A building missing from the catalog asks for no research.
pub open spec fn recipe_available(
    buildings: Seq<BuildingInfo>,
    recipe: RecipeInfo,
    unlocked: Set<Seq<char>>,
) -> bool {
    ||| unlocked == Set::<Seq<char>>::empty()
    ||| {
        &&& research_met(recipe.research_required, unlocked)
        &&& match building_requirement(buildings, recipe.building_id@) {
            Some(required) => research_met(required, unlocked),
            None => true,
        }
    }
}

/// Recipe `j` ranks before recipe `i`: default recipes first, then by id.
pub open spec fn ranks_before(a: RecipeInfo, b: RecipeInfo) -> bool {
    ||| (a.is_default && !b.is_default)
    ||| (a.is_default == b.is_default && seq_lt(a.id@, b.id@))
}

impl RecipeCatalog {
    /// A recipe the solver may use to produce `target` under `unlocked`.
    pub open spec fn is_candidate(self, i: int, target: Seq<char>, unlocked: Set<Seq<char>>) -> bool {
        &&& 0 <= i < self.recipes@.len()
        &&& produces(self.recipes@[i], target)
        &&& recipe_available(self.buildings@, self.recipes@[i], unlocked)
    }

    /// The player's preferred recipe for `target` is among the candidates.
    pub open spec fn preference_usable(self, target: Seq<char>, settings: SelectionSettings) -> bool {
        &&& settings.preferences().contains_key(target)
        &&& exists|j: int|
            self.is_candidate(j, target, settings.unlocked()) && #[trigger] self.recipes@[j].id@
                == settings.preferences()[target]
    }

    /// Recipe `i` is the one the solver uses for `target`: a candidate, and the
    /// player's preference when that is usable, otherwise a candidate no other
    /// candidate ranks before.
    pub open spec fn is_best_recipe(self, i: int, target: Seq<char>, settings: SelectionSettings) -> bool {
        &&& self.is_candidate(i, target, settings.unlocked())
        &&& if self.preference_usable(target, settings) {
            self.recipes@[i].id@ == settings.preferences()[target]
        } else {
            forall|j: int|
                self.is_candidate(j, target, settings.unlocked()) ==> !ranks_before(
                    #[trigger] self.recipes@[j],
                    self.recipes@[i],
                )
        }
    }

    /// No two recipes share an id, as in the game data's recipe table.
    pub open spec fn recipe_ids_distinct(self) -> bool {
        forall|i: int, j: int|
            0 <= i < self.recipes@.len() && 0 <= j < self.recipes@.len() && i != j ==> #[trigger] self.recipes@[i].id@
                != #[trigger] self.recipes@[j].id@
    }

    /// The recipe the solver uses for `target`, if any recipe can be used.
    pub open spec fn best_recipe(self, target: Seq<char>, settings: SelectionSettings) -> Option<int> {
        if exists|i: int| self.is_best_recipe(i, target, settings) {
            Some(choose|i: int| self.is_best_recipe(i, target, settings))
        } else {
            None
        }
    }

    /// Index of the first building with id `id`.
    pub(crate) fn find_building(&self, id: &BuildingId) -> (idx: Option<usize>)
        ensures
            match idx {
                Some(i) => {
                    &&& i < self.buildings@.len()
                    &&& building_requirement(self.buildings@, id@) == Some(self.buildings@[i as int].research_required)
                    &&& self.buildings@[i as int].id@ == id@
                    &&& forall|j: int| 0 <= j < i ==> #[trigger] self.buildings@[j].id@ != id@
                },
                None => building_requirement(self.buildings@, id@) is None,
            },
    {
        let mut i: usize = 0;
        assert(self.buildings@.skip(0) == self.buildings@);
        while i < self.buildings.len()
            invariant
                i <= self.buildings@.len(),
                building_requirement(self.buildings@, id@) == building_requirement(
                    self.buildings@.skip(i as int),
                    id@,
                ),
                forall|j: int| 0 <= j < i ==> #[trigger] self.buildings@[j].id@ != id@,
            decreases self.buildings@.len() - i,
        {
            assert(self.buildings@.skip(i as int)[0] == self.buildings@[i as int]);
            if self.buildings[i].id.same(id) {
                return Some(i);
            }
            assert(self.buildings@.skip(i as int).drop_first() == self.buildings@.skip(i + 1));
            i = i + 1;
        }
        None
    }

    /// Whether `recipe` is unlocked: its own research and its building's research.
    /// With nothing unlocked at all, every recipe counts as unlocked.
    pub fn is_recipe_available(&self, recipe: &RecipeInfo, settings: &SelectionSettings) -> (b: bool)
        ensures
            b == recipe_available(self.buildings@, *recipe, settings.unlocked()),
    {
        if settings.nothing_unlocked() {
            return true;
        }
        if let Some(req) = &recipe.research_required {
            if !settings.is_unlocked(req) {
                return false;
            }
        }
        match self.find_building(&recipe.building_id) {
            Some(b) => match &self.buildings[b].research_required {
                Some(req) => settings.is_unlocked(req),
                None => true,
            },
            None => true,
        }
    }

    /// Whether recipe `i` outputs `target`.
    pub(crate) fn recipe_produces(&self, i: usize, target: &ResourceId) -> (b: bool)
        requires
            i < self.recipes@.len(),
        ensures
            b == produces(self.recipes@[i as int], target@),
    {
        let outputs = &self.recipes[i].outputs;
        let mut k: usize = 0;
        while k < outputs.len()
            invariant
                outputs@ == self.recipes@[i as int].outputs@,
                k <= outputs@.len(),
                forall|m: int| 0 <= m < k ==> outputs@[m]@ != target@,
            decreases outputs@.len() - k,
        {
            if outputs[k].same(target) {
                return true;
            }
            k = k + 1;
        }
        false
    }

    /// Whether recipe `a` ranks before recipe `b`.
    fn ranks_ahead(&self, a: usize, b: usize) -> (r: bool)
        requires
            a < self.recipes@.len(),
            b < self.recipes@.len(),
        ensures
            r == ranks_before(self.recipes@[a as int], self.recipes@[b as int]),
    {
        let ra = &self.recipes[a];
        let rb = &self.recipes[b];
        if ra.is_default != rb.is_default {
            return ra.is_default;
        }
        let ta = chars_of(ra.id.0.as_str());
        let tb = chars_of(rb.id.0.as_str());
        chars_lt(&ta, &tb)
    }

    /// The recipe the solver uses for `target`: among the recipes that output it
    /// and are unlocked, the player's preference if it is one of them, otherwise
    /// a default recipe before others and then the smallest id. `None` when no
    /// unlocked recipe outputs `target`.
    pub fn find_best_recipe(&self, target: &ResourceId, settings: &SelectionSettings) -> (best:
        Option<usize>)
        requires
            settings.well_formed(),
        ensures
            match best {
                None => forall|i: int| !self.is_candidate(i, target@, settings.unlocked()),
                Some(i) => {
                    &&& self.is_best_recipe(i as int, target@, *settings)
                    &&& self.preference_usable(target@, *settings) ==> self.recipes@[i as int].id@
                        == settings.preferences()[target@]
                    &&& !self.preference_usable(target@, *settings) ==> forall|j: int|
                        self.is_candidate(j, target@, settings.unlocked()) ==> {
                            &&& (#[trigger] self.recipes@[j]).is_default ==> self.recipes@[i as int].is_default
                            &&& self.recipes@[j].is_default == self.recipes@[i as int].is_default ==> !seq_lt(
                                self.recipes@[j].id@,
                                self.recipes@[i as int].id@,
                            )
                        }
                },
            },
    {
        let preferred = settings.preference_for(target);
        let mut best: Option<usize> = None;
        let mut i: usize = 0;
        while i < self.recipes.len()
            invariant
                i <= self.recipes@.len(),
                settings.well_formed(),
                match preferred {
                    Some(p) => settings.preferences().contains_key(target@)
                        && settings.preferences()[target@] == p@,
                    None => !settings.preferences().contains_key(target@),
                },
                forall|j: int|
                    0 <= j < i && self.is_candidate(j, target@, settings.unlocked()) ==> match preferred {
                        Some(p) => #[trigger] self.recipes@[j].id@ != p@,
                        None => true,
                    },
                match best {
                    None => forall|j: int| 0 <= j < i ==> !#[trigger] self.is_candidate(j, target@, settings.unlocked()),
                    Some(b) => {
                        &&& b < i
                        &&& self.is_candidate(b as int, target@, settings.unlocked())
                        &&& forall|j: int|
                            0 <= j < i && self.is_candidate(j, target@, settings.unlocked())
                                ==> !ranks_before(#[trigger] self.recipes@[j], self.recipes@[b as int])
                    },
                },
            decreases self.recipes@.len() - i,
        {
            let produced = self.recipe_produces(i, target);
            let available = produced && self.is_recipe_available(&self.recipes[i], settings);
            assert(available == self.is_candidate(i as int, target@, settings.unlocked()));
            if available {
                if let Some(p) = preferred {
                    if self.recipes[i].id.same(p) {
                        return Some(i);
                    }
                }
                match best {
                    None => {
                        proof {
                            lemma_ranks_order(self.recipes@[i as int], self.recipes@[i as int], self.recipes@[i as int]);
                        }
                        best = Some(i);
                    },
                    Some(b) => {
                        if self.ranks_ahead(i, b) {
                            proof {
                                assert forall|j: int|
                                    0 <= j <= i && self.is_candidate(j, target@, settings.unlocked())
                                    implies !ranks_before(#[trigger] self.recipes@[j], self.recipes@[i as int]) by {
                                    lemma_ranks_order(self.recipes@[j], self.recipes@[b as int], self.recipes@[i as int]);
                                }
                            }
                            best = Some(i);
                        }
                    },
                }
            }
            i = i + 1;
        }
        proof {
            if self.preference_usable(target@, *settings) {
                let j = choose|j: int|
                    self.is_candidate(j, target@, settings.unlocked()) && #[trigger] self.recipes@[j].id@
                        == settings.preferences()[target@];
                assert(false);
            }
        }
        best
    }
}

/// The recipe the solver uses follows the player's preference when that
/// recipe can be used. Otherwise it is a default recipe whenever some usable
/// recipe is one, and no usable recipe with the same default flag has an id
/// that comes before its id in code-point order.
pub proof fn lemma_best_recipe_choice(
    catalog: RecipeCatalog,
    target: Seq<char>,
    settings: SelectionSettings,
    best: int,
    j: int,
)
    requires
        catalog.is_best_recipe(best, target, settings),
        catalog.is_candidate(j, target, settings.unlocked()),
    ensures
        catalog.preference_usable(target, settings) ==> catalog.recipes@[best].id@
            == settings.preferences()[target],
        !catalog.preference_usable(target, settings) && catalog.recipes@[j].is_default
            ==> catalog.recipes@[best].is_default,
        !catalog.preference_usable(target, settings) && catalog.recipes@[j].is_default
            == catalog.recipes@[best].is_default ==> !seq_lt(catalog.recipes@[j].id@, catalog.recipes@[best].id@),
{
    if !catalog.preference_usable(target, settings) {
        assert(!ranks_before(catalog.recipes@[j], catalog.recipes@[best]));
    }
}

/// With distinct recipe ids, at most one recipe is the one the solver uses.
pub proof fn lemma_best_recipe_unique(
    catalog: RecipeCatalog,
    target: Seq<char>,
    settings: SelectionSettings,
    i: int,
    j: int,
)
    requires
        catalog.recipe_ids_distinct(),
        catalog.is_best_recipe(i, target, settings),
        catalog.is_best_recipe(j, target, settings),
    ensures
        i == j,
{
    if !catalog.preference_usable(target, settings) {
        let a = catalog.recipes@[i];
        let b = catalog.recipes@[j];
        assert(!ranks_before(a, b));
        assert(!ranks_before(b, a));
        crate::text::lemma_seq_lt_total(a.id@, b.id@);
    }
}

proof fn lemma_ranks_order(a: RecipeInfo, b: RecipeInfo, c: RecipeInfo)
    ensures
        !ranks_before(a, a),
        ranks_before(a, b) && ranks_before(b, c) ==> ranks_before(a, c),
        ranks_before(c, b) && !ranks_before(a, b) ==> !ranks_before(a, c),
{
    crate::text::lemma_seq_lt_irreflexive(a.id@);
    crate::text::lemma_seq_lt_total(a.id@, b.id@);
    if seq_lt(a.id@, b.id@) && seq_lt(b.id@, c.id@) {
        crate::text::lemma_seq_lt_transitive(a.id@, b.id@, c.id@);
    }
    if seq_lt(c.id@, b.id@) && seq_lt(b.id@, a.id@) {
        crate::text::lemma_seq_lt_transitive(c.id@, b.id@, a.id@);
    }
    if seq_lt(c.id@, a.id@) && seq_lt(a.id@, b.id@) {
        crate::text::lemma_seq_lt_transitive(c.id@, a.id@, b.id@);
    }
    if seq_lt(a.id@, c.id@) && seq_lt(c.id@, b.id@) {
        crate::text::lemma_seq_lt_transitive(a.id@, c.id@, b.id@);
    }
}

/// With no research unlocked, every recipe is available.
pub proof fn lemma_nothing_unlocked_all_available(buildings: Seq<BuildingInfo>, recipe: RecipeInfo)
    ensures
        recipe_available(buildings, recipe, Set::<Seq<char>>::empty()),
{
}

/// Unlocking more research never makes an available recipe unavailable, as long
/// as some research was unlocked to begin with.
pub proof fn lemma_unlocking_keeps_available(
    buildings: Seq<BuildingInfo>,
    recipe: RecipeInfo,
    smaller: Set<Seq<char>>,
    larger: Set<Seq<char>>,
)
    requires
        smaller != Set::<Seq<char>>::empty(),
        smaller.subset_of(larger),
        recipe_available(buildings, recipe, smaller),
    ensures
        recipe_available(buildings, recipe, larger),
{
    if larger == Set::<Seq<char>>::empty() {
        assert(smaller =~= Set::<Seq<char>>::empty());
    }
}

/// Locking a research that unlocking just added gives back the unlocked set
/// as it was.
pub proof fn lemma_lock_undoes_unlock(settings: SelectionSettings, id: ResearchId)
    requires
        !settings.unlocked().contains(id@),
    ensures
        settings.unlocked().insert(id@).remove(id@) == settings.unlocked(),
{
    assert(settings.unlocked().insert(id@).remove(id@) =~= settings.unlocked());
}

/// Unlocking a research twice is the same as unlocking it once.
pub proof fn lemma_unlock_idempotent(settings: SelectionSettings, id: ResearchId)
    ensures
        settings.unlocked().insert(id@).insert(id@) == settings.unlocked().insert(id@),
{
    assert(settings.unlocked().insert(id@).insert(id@) =~= settings.unlocked().insert(id@));
}

/// The last preference set for a resource is the one that counts.
pub proof fn lemma_last_preference_wins(settings: SelectionSettings, resource: ResourceId, first: RecipeId, second: RecipeId)
    ensures
        settings.preferences().insert(resource@, first@).insert(resource@, second@)
            == settings.preferences().insert(resource@, second@),
{
    assert(settings.preferences().insert(resource@, first@).insert(resource@, second@)
        =~= settings.preferences().insert(resource@, second@));
}

/// Removing a preference that was just set for a resource without one gives
/// back the preferences as they were.
pub proof fn lemma_remove_undoes_set_preference(settings: SelectionSettings, resource: ResourceId, recipe: RecipeId)
    requires
        !settings.preferences().contains_key(resource@),
    ensures
        settings.preferences().insert(resource@, recipe@).remove(resource@) == settings.preferences(),
{
    assert(settings.preferences().insert(resource@, recipe@).remove(resource@) =~= settings.preferences());
}

} // verus!

