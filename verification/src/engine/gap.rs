//! Gap analysis: which deficits get a building suggestion, which candidate
//! recipe is suggested, which suggestions are new, and their listing order.
use vstd::prelude::*;

use crate::model::ids::ResourceId;
use crate::model::resource::ResourceCategory;
use crate::text::{is_stable_order, order_by_text};

use super::solver::{building_requirement, RecipeCatalog, SelectionSettings};

verus! {

/// Whether a balance entry in deficit gets a suggestion: raw inputs and
/// pollution never do.
pub fn is_gap_target(is_raw_input: bool, category: &ResourceCategory) -> (b: bool)
    ensures
        b == (!is_raw_input && *category != ResourceCategory::Pollution),
{
    !is_raw_input && !matches!(category, ResourceCategory::Pollution)
}

/// A suggestion candidate: recipe `i` outputs `target`, is unlocked, and runs
/// in a building the catalog knows.
pub open spec fn is_gap_candidate(
    catalog: RecipeCatalog,
    i: int,
    target: Seq<char>,
    unlocked: Set<Seq<char>>,
) -> bool {
    &&& catalog.is_candidate(i, target, unlocked)
    &&& building_requirement(catalog.buildings@, catalog.recipes@[i].building_id@) is Some
}

/// The indices of the suggestion candidates for `target`, in catalog order.
pub fn suggestion_candidates(
    catalog: &RecipeCatalog,
    target: &ResourceId,
    settings: &SelectionSettings,
) -> (found: Vec<usize>)
    ensures
        forall|k: int| 0 <= k < found@.len() ==> is_gap_candidate(*catalog, #[trigger] found@[k] as int, target@, settings.unlocked()),
        forall|a: int, b: int| 0 <= a < b < found@.len() ==> #[trigger] found@[a] < #[trigger] found@[b],
        forall|i: int| is_gap_candidate(*catalog, i, target@, settings.unlocked()) ==> found@.contains(i as usize),
{
    let mut found: Vec<usize> = Vec::new();
    let mut i: usize = 0;
    while i < catalog.recipes.len()
        invariant
            i <= catalog.recipes@.len(),
            forall|k: int| 0 <= k < found@.len() ==> is_gap_candidate(*catalog, #[trigger] found@[k] as int, target@, settings.unlocked()),
            forall|k: int| 0 <= k < found@.len() ==> #[trigger] found@[k] < i,
            forall|a: int, b: int| 0 <= a < b < found@.len() ==> #[trigger] found@[a] < #[trigger] found@[b],
            forall|j: int| 0 <= j < i && is_gap_candidate(*catalog, j, target@, settings.unlocked()) ==> found@.contains(j as usize),
        decreases catalog.recipes@.len() - i,
    {
        let recipe = &catalog.recipes[i];
        if catalog.recipe_produces(i, target) && catalog.is_recipe_available(recipe, settings)
            && catalog.find_building(&recipe.building_id).is_some() {
            let ghost before = found@;
            found.push(i);
            proof {
                assert(found@[found@.len() - 1] == i);
                assert forall|j: int| 0 <= j <= i && is_gap_candidate(*catalog, j, target@, settings.unlocked()) implies found@.contains(j as usize) by {
                    if j < i {
                        let k = choose|k: int| 0 <= k < before.len() && before[k] == j as usize;
                        assert(found@[k] == j as usize);
                    }
                }
            }
        }
        i = i + 1;
    }
    proof {
        assert forall|j: int| is_gap_candidate(*catalog, j, target@, settings.unlocked()) implies found@.contains(j as usize) by {
            assert(0 <= j < catalog.recipes@.len());
        }
    }
    found
}

/// What a candidate costs to cover a deficit: workers and footprint of one
/// building, and how many buildings the deficit needs, rounded up.
#[derive(Debug, Clone, Copy, PartialEq, Eq, Structural)]
pub struct CandidateCost {
    pub workers: u32,
    pub width: u32,
    pub height: u32,
    pub machines: u32,
}

/// Twice the score of a candidate, lower is better: the workers of all its
/// buildings plus half their footprint.
pub open spec fn doubled_score(c: CandidateCost) -> int {
    2 * (c.workers * c.machines) + c.width * c.height * c.machines
}

/// A candidate's score counts every one of its buildings. One building scores
/// its workers and half its footprint; candidates with the same kind of
/// building score in proportion to how many buildings they need, and a
/// candidate that needs no building scores nothing.
pub proof fn lemma_score_counts_every_building(c: CandidateCost, d: CandidateCost)
    requires
        c.workers == d.workers,
        c.width == d.width,
        c.height == d.height,
    ensures
        c.machines == 1 ==> doubled_score(c) == 2 * c.workers + c.width * c.height,
        c.machines == 0 ==> doubled_score(c) == 0,
        doubled_score(c) * d.machines == doubled_score(d) * c.machines,
{
    let w = c.workers as int;
    let a = c.width * c.height;
    let m = c.machines as int;
    let n = d.machines as int;
    assert(doubled_score(c) == m * (2 * w + a)) by (nonlinear_arith)
        requires
            doubled_score(c) == 2 * (w * m) + a * m,
    ;
    assert(doubled_score(d) == n * (2 * w + a)) by (nonlinear_arith)
        requires
            doubled_score(d) == 2 * (w * n) + a * n,
    ;
    assert(m * (2 * w + a) * n == n * (2 * w + a) * m) by (nonlinear_arith);
}

/// The products of a candidate fit in `u32`, as the totals of workers and area
/// are counted in it.
pub open spec fn cost_fits(c: CandidateCost) -> bool {
    &&& c.workers * c.machines <= u32::MAX
    &&& c.width * c.height <= u32::MAX
    &&& c.width * c.height * c.machines <= u32::MAX
}

/// Twice the score of a candidate.
fn doubled_score_of(c: &CandidateCost) -> (s: u64)
    requires
        cost_fits(*c),
    ensures
        s == doubled_score(*c),
{
    let workers = c.workers as u64 * c.machines as u64;
    let area = c.width as u64 * c.height as u64 * c.machines as u64;
    2 * workers + area
}

/// The candidate to suggest: the first one with the lowest score. `None` when
/// there is no candidate.
pub fn best_candidate(costs: &Vec<CandidateCost>) -> (best: Option<usize>)
    requires
        forall|i: int| 0 <= i < costs@.len() ==> cost_fits(#[trigger] costs@[i]),
    ensures
        best is None <==> costs@.len() == 0,
        best matches Some(b) ==> {
            &&& b < costs@.len()
            &&& forall|j: int| 0 <= j < costs@.len() ==> doubled_score(costs@[b as int]) <= doubled_score(#[trigger] costs@[j])
            &&& forall|j: int| 0 <= j < b ==> doubled_score(costs@[b as int]) < doubled_score(#[trigger] costs@[j])
        },
{
    if costs.len() == 0 {
        return None;
    }
    let mut b: usize = 0;
    let mut best_score = doubled_score_of(&costs[0]);
    let mut i: usize = 1;
    while i < costs.len()
        invariant
            forall|k: int| 0 <= k < costs@.len() ==> cost_fits(#[trigger] costs@[k]),
            1 <= i <= costs@.len(),
            b < i,
            best_score == doubled_score(costs@[b as int]),
            forall|j: int| 0 <= j < i ==> doubled_score(costs@[b as int]) <= doubled_score(#[trigger] costs@[j]),
            forall|j: int| 0 <= j < b ==> doubled_score(costs@[b as int]) < doubled_score(#[trigger] costs@[j]),
        decreases costs@.len() - i,
    {
        let s = doubled_score_of(&costs[i]);
        if s < best_score {
            b = i;
            best_score = s;
        }
        i = i + 1;
    }
    Some(b)
}

/// Whether a resource was resolved in an earlier round.
pub open spec fn is_resolved(resolved: Seq<ResourceId>, id: Seq<char>) -> bool {
    exists|r: int| 0 <= r < resolved.len() && #[trigger] resolved[r]@ == id
}

/// The suggestions that are new: those whose resource was not resolved in an
/// earlier round, as indices in their given order.
pub fn fresh_suggestions(suggested: &Vec<ResourceId>, resolved: &Vec<ResourceId>) -> (fresh: Vec<usize>)
    ensures
        fresh@.len() <= suggested@.len(),
        forall|k: int| 0 <= k < fresh@.len() ==> #[trigger] fresh@[k] < suggested@.len(),
        forall|a: int, b: int| 0 <= a < b < fresh@.len() ==> #[trigger] fresh@[a] < #[trigger] fresh@[b],
        forall|i: int| 0 <= i < suggested@.len() ==> (fresh@.contains(i as usize) <==> !is_resolved(resolved@, #[trigger] suggested@[i]@)),
{
    let mut fresh: Vec<usize> = Vec::new();
    let mut i: usize = 0;
    while i < suggested.len()
        invariant
            i <= suggested@.len(),
            fresh@.len() <= i,
            forall|k: int| 0 <= k < fresh@.len() ==> #[trigger] fresh@[k] < i,
            forall|a: int, b: int| 0 <= a < b < fresh@.len() ==> #[trigger] fresh@[a] < #[trigger] fresh@[b],
            forall|j: int| 0 <= j < i ==> (fresh@.contains(j as usize) <==> !is_resolved(resolved@, #[trigger] suggested@[j]@)),
        decreases suggested@.len() - i,
    {
        let mut seen = false;
        let mut r: usize = 0;
        while r < resolved.len()
            invariant
                r <= resolved@.len(),
                i < suggested@.len(),
                seen <==> exists|q: int| 0 <= q < r && #[trigger] resolved@[q]@ == suggested@[i as int]@,
            decreases resolved@.len() - r,
        {
            if resolved[r].same(&suggested[i]) {
                seen = true;
            }
            r = r + 1;
        }
        let ghost before = fresh@;
        if !seen {
            fresh.push(i);
        }
        proof {
            assert forall|j: int| 0 <= j <= i implies (fresh@.contains(j as usize) <==> !is_resolved(resolved@, #[trigger] suggested@[j]@)) by {
                if j < i {
                    if before.contains(j as usize) {
                        let k = choose|k: int| 0 <= k < before.len() && before[k] == j as usize;
                        assert(fresh@[k] == j as usize);
                    }
                    if fresh@.contains(j as usize) {
                        let k = choose|k: int| 0 <= k < fresh@.len() && fresh@[k] == j as usize;
                        if k < before.len() {
                            assert(before[k] == j as usize);
                        }
                    }
                } else {
                    if !seen {
                        assert(fresh@[fresh@.len() - 1] == i);
                    } else {
                        assert(fresh@ == before);
                    }
                }
            }
        }
        i = i + 1;
    }
    fresh
}

/// The order in which suggestions are listed: by resource name, suggestions
/// with equal names keeping their given order.
pub fn suggestion_order(names: &Vec<String>) -> (order: Vec<usize>)
    ensures
        is_stable_order(names@.map_values(|n: String| (0u64, n@)), order@),
{
    order_by_text(names)
}

/// The views of a sequence of resource ids.
pub open spec fn id_views(ids: Seq<ResourceId>) -> Seq<Seq<char>> {
    ids.map_values(|r: ResourceId| r@)
}

/// The rounds of iterative gap resolution: the resources already resolved,
/// how many rounds ran, and whether resolution has stopped.
pub struct GapRounds {
    resolved: Vec<ResourceId>,
    rounds: usize,
    finished: bool,
}

/// At most this many rounds run.
pub const MAX_GAP_ROUNDS: usize = 20;

impl GapRounds {
    /// The ids of the resolved resources.
    pub closed spec fn resolved_ids(&self) -> Seq<ResourceId> {
        self.resolved@
    }

    /// How many rounds have run.
    pub closed spec fn rounds_run(&self) -> nat {
        self.rounds as nat
    }

    /// Whether resolution has stopped.
    pub closed spec fn is_finished(&self) -> bool {
        self.finished
    }

    /// No round has run and nothing is resolved.
    pub fn new() -> (g: Self)
        ensures
            g.resolved_ids().len() == 0,
            g.rounds_run() == 0,
            !g.is_finished(),
    {
        GapRounds { resolved: Vec::new(), rounds: 0, finished: false }
    }

    /// Starts the next round with the suggestions of the current balance.
    /// Resolution stops, and `None` comes back, once twenty rounds have run or
    /// when no suggestion is new. Otherwise the new suggestions come back, as
    /// indices in their order, and their resources count as resolved.
    pub fn next_round(&mut self, suggested: &Vec<ResourceId>) -> (fresh: Option<Vec<usize>>)
        ensures
            fresh is Some <==> (!old(self).is_finished() && old(self).rounds_run() < MAX_GAP_ROUNDS && exists|
                i: int,
            | 0 <= i < suggested@.len() && !is_resolved(old(self).resolved_ids(), #[trigger] suggested@[i]@)),
            old(self).is_finished() || old(self).rounds_run() >= MAX_GAP_ROUNDS ==> fresh is None
                && final(self).is_finished() && final(self).resolved_ids() == old(self).resolved_ids(),
            match fresh {
                None => final(self).is_finished() && final(self).resolved_ids() == old(self).resolved_ids(),
                Some(f) => {
                    &&& !old(self).is_finished()
                    &&& old(self).rounds_run() < MAX_GAP_ROUNDS
                    &&& !final(self).is_finished()
                    &&& final(self).rounds_run() == old(self).rounds_run() + 1
                    &&& f@.len() > 0
                    &&& forall|k: int| 0 <= k < f@.len() ==> #[trigger] f@[k] < suggested@.len()
                    &&& forall|a: int, b: int| 0 <= a < b < f@.len() ==> #[trigger] f@[a] < #[trigger] f@[b]
                    &&& forall|i: int| 0 <= i < suggested@.len() ==> (f@.contains(i as usize) <==> !is_resolved(
                        old(self).resolved_ids(),
                        #[trigger] suggested@[i]@,
                    ))
                    &&& id_views(final(self).resolved_ids()) == id_views(old(self).resolved_ids()) + f@.map_values(
                        |i: usize| suggested@[i as int]@,
                    )
                },
            },
    {
        if self.finished || self.rounds >= MAX_GAP_ROUNDS {
            self.finished = true;
            return None;
        }
        let fresh = fresh_suggestions(suggested, &self.resolved);
        if fresh.len() == 0 {
            assert forall|i: int| 0 <= i < suggested@.len() implies is_resolved(
                self.resolved@,
                #[trigger] suggested@[i]@,
            ) by {
                assert(!fresh@.contains(i as usize));
            }
            self.finished = true;
            return None;
        }
        assert(fresh@.contains(fresh@[0]));
        assert(!is_resolved(self.resolved@, suggested@[fresh@[0] as int]@));
        let ghost before = id_views(self.resolved@);
        let mut k: usize = 0;
        while k < fresh.len()
            invariant
                k <= fresh@.len(),
                forall|m: int| 0 <= m < fresh@.len() ==> #[trigger] fresh@[m] < suggested@.len(),
                id_views(self.resolved@) == before + fresh@.take(k as int).map_values(|i: usize| suggested@[i as int]@),
                self.rounds == old(self).rounds,
                self.rounds < MAX_GAP_ROUNDS,
                !self.finished,
            decreases fresh@.len() - k,
        {
            let r = suggested[fresh[k]].duplicate();
            let ghost prior = self.resolved@;
            self.resolved.push(r);
            proof {
                assert(id_views(self.resolved@) =~= id_views(prior).push(r@));
                assert(fresh@.take(k + 1).map_values(|i: usize| suggested@[i as int]@) =~= fresh@.take(
                    k as int,
                ).map_values(|i: usize| suggested@[i as int]@).push(suggested@[fresh@[k as int] as int]@));
            }
            k = k + 1;
        }
        assert(fresh@.take(k as int) =~= fresh@);
        self.rounds = self.rounds + 1;
        Some(fresh)
    }
}

/// Once a round hands out a suggestion, its resource counts as resolved in
/// every later round: what was resolved stays resolved and what a round hands
/// out is resolved after it, so no resource is suggested in two rounds.
pub proof fn lemma_resolved_stays(
    before: Seq<ResourceId>,
    after: Seq<ResourceId>,
    handed_out: Seq<Seq<char>>,
    id: Seq<char>,
)
    requires
        id_views(after) == id_views(before) + handed_out,
        is_resolved(before, id) || handed_out.contains(id),
    ensures
        is_resolved(after, id),
{
    assert(id_views(after).len() == after.len());
    assert(id_views(before).len() == before.len());
    if is_resolved(before, id) {
        let r = choose|r: int| 0 <= r < before.len() && #[trigger] before[r]@ == id;
        assert(id_views(before)[r] == id);
        assert(id_views(after)[r] == id);
        assert(id_views(after)[r] == after[r]@);
    } else {
        let k = choose|k: int| 0 <= k < handed_out.len() && handed_out[k] == id;
        let p = before.len() + k;
        assert(id_views(after)[p] == id);
        assert(id_views(after)[p] == after[p]@);
    }
}


} // verus!
