//! The shape of a solved production chain: for the target and, recursively,
//! for every input, whether it is a raw input, listed pollution, a feedback
//! loop, or made by a recipe in a building; or the first error met on the way.
//! Rates are laid over this shape by the caller.
use vstd::prelude::*;

use crate::error::AppError;
use crate::model::ids::ResourceId;

use super::solver::{building_requirement, RecipeCatalog, ResourceInfo, SelectionSettings};

verus! {

/// How the solver meets the demand for one resource.
pub enum SolveStep {
    /// A primary resource: booked as a raw input.
    Raw,
    /// Final pollution: listed, never produced for.
    Pollution,
    /// The resource is already being solved further up: a feedback loop.
    Feedback,
    /// A recipe run in a building makes it.
    Produced(Box<SolveNode>),
}

/// A production node: the recipe used, its building, and how each of the
/// recipe's inputs is met, in input order.
pub struct SolveNode {
    pub recipe_index: usize,
    pub building_index: usize,
    pub inputs: Vec<SolveStep>,
}

/// Index of the first resource with id `id`.
pub open spec fn resource_position(resources: Seq<ResourceInfo>, id: Seq<char>) -> Option<int>
    decreases resources.len(),
{
    if resources.len() == 0 {
        None
    } else if resources[0].id@ == id {
        Some(0)
    } else {
        match resource_position(resources.drop_first(), id) {
            Some(i) => Some(i + 1),
            None => None,
        }
    }
}

pub proof fn lemma_resource_position(resources: Seq<ResourceInfo>, id: Seq<char>)
    ensures
        match resource_position(resources, id) {
            Some(k) => 0 <= k < resources.len() && resources[k].id@ == id && forall|j: int|
                0 <= j < k ==> #[trigger] resources[j].id@ != id,
            None => forall|j: int| 0 <= j < resources.len() ==> #[trigger] resources[j].id@ != id,
        },
    decreases resources.len(),
{
    if resources.len() > 0 {
        lemma_resource_position(resources.drop_first(), id);
        assert forall|j: int| 1 <= j < resources.len() implies resources[j] == resources.drop_first()[j - 1] by {}
    }
}

/// The ids of the catalog's resources.
pub open spec fn known_resources(catalog: RecipeCatalog) -> Set<Seq<char>> {
    catalog.resources@.map_values(|r: ResourceInfo| r.id@).to_set()
}

/// A known resource that is not on the stack leaves fewer known resources off
/// the stack once it is pushed.
pub proof fn lemma_stack_grows(catalog: RecipeCatalog, id: Seq<char>, stack: Set<Seq<char>>)
    requires
        resource_position(catalog.resources@, id) is Some,
        !stack.contains(id),
    ensures
        known_resources(catalog).difference(stack.insert(id)).len() < known_resources(
            catalog,
        ).difference(stack).len(),
{
    lemma_resource_position(catalog.resources@, id);
    let ids = catalog.resources@.map_values(|r: ResourceInfo| r.id@);
    let k = resource_position(catalog.resources@, id)->0;
    assert(ids[k] == id);
    vstd::seq_lib::seq_to_set_is_finite(ids);
    let known = known_resources(catalog);
    assert(known.contains(id));
    assert(known.difference(stack.insert(id)) =~= known.difference(stack).remove(id));
    assert(known.difference(stack).contains(id));
}

/// The first error met while solving `target` with the resources in `stack`
/// being solved above it, or `None` when it solves. Inputs are solved in
/// recipe order, each with the target pushed on the stack.
pub open spec fn solve_error(
    catalog: RecipeCatalog,
    settings: SelectionSettings,
    target: ResourceId,
    stack: Set<Seq<char>>,
) -> Option<AppError>
    decreases known_resources(catalog).difference(stack).len(), 0nat,
{
    match resource_position(catalog.resources@, target@) {
        None => Some(AppError::ResourceNotFound(target)),
        Some(r) => {
            let info = catalog.resources@[r];
            if info.is_primary || info.is_pollution || stack.contains(target@) {
                None
            } else {
                match catalog.best_recipe(target@, settings) {
                    None => Some(AppError::NoAvailableRecipe(target)),
                    Some(ri) => {
                        let recipe = catalog.recipes@[ri];
                        if building_requirement(catalog.buildings@, recipe.building_id@) is None {
                            Some(AppError::BuildingNotFound(recipe.building_id))
                        } else {
                            proof {
                                lemma_stack_grows(catalog, target@, stack);
                            }
                            inputs_error(catalog, settings, recipe.inputs@, stack.insert(target@))
                        }
                    },
                }
            }
        },
    }
}

/// The first error met while solving the inputs in order.
pub open spec fn inputs_error(
    catalog: RecipeCatalog,
    settings: SelectionSettings,
    inputs: Seq<ResourceId>,
    stack: Set<Seq<char>>,
) -> Option<AppError>
    decreases known_resources(catalog).difference(stack).len(), inputs.len() + 1,
{
    if inputs.len() == 0 {
        None
    } else {
        match inputs_error(catalog, settings, inputs.drop_last(), stack) {
            Some(e) => Some(e),
            None => solve_error(catalog, settings, inputs.last(), stack),
        }
    }
}

/// `step` is how `target` is met with the resources in `stack` being solved
/// above it.
pub open spec fn step_matches(
    catalog: RecipeCatalog,
    settings: SelectionSettings,
    step: SolveStep,
    target: Seq<char>,
    stack: Set<Seq<char>>,
) -> bool
    decreases step,
{
    match resource_position(catalog.resources@, target) {
        None => false,
        Some(r) => {
            let info = catalog.resources@[r];
            if info.is_primary {
                step is Raw
            } else if info.is_pollution {
                step is Pollution
            } else if stack.contains(target) {
                step is Feedback
            } else {
                match step {
                    SolveStep::Produced(node) => node_matches(catalog, settings, *node, target, stack),
                    _ => false,
                }
            }
        },
    }
}

/// `node` makes `target`: the solver's recipe for it, the first building with
/// that recipe's building id, and each input met in order with `target` pushed
/// on the stack.
pub open spec fn node_matches(
    catalog: RecipeCatalog,
    settings: SelectionSettings,
    node: SolveNode,
    target: Seq<char>,
    stack: Set<Seq<char>>,
) -> bool
    decreases node,
{
    &&& catalog.best_recipe(target, settings) == Some(node.recipe_index as int)
    &&& node.building_index < catalog.buildings@.len()
    &&& catalog.buildings@[node.building_index as int].id@ == catalog.recipes@[node.recipe_index as int].building_id@
    &&& forall|j: int|
        0 <= j < node.building_index ==> #[trigger] catalog.buildings@[j].id@
            != catalog.recipes@[node.recipe_index as int].building_id@
    &&& node.inputs@.len() == catalog.recipes@[node.recipe_index as int].inputs@.len()
    &&& forall|k: int|
        0 <= k < node.inputs@.len() ==> step_matches(
            catalog,
            settings,
            #[trigger] node.inputs@[k],
            catalog.recipes@[node.recipe_index as int].inputs@[k]@,
            stack.insert(target),
        )
}

/// Two errors are the same variant about the same id.
pub open spec fn same_error(a: AppError, b: AppError) -> bool {
    match (a, b) {
        (AppError::ResourceNotFound(x), AppError::ResourceNotFound(y)) => x@ == y@,
        (AppError::BuildingNotFound(x), AppError::BuildingNotFound(y)) => x@ == y@,
        (AppError::RecipeNotFound(x), AppError::RecipeNotFound(y)) => x@ == y@,
        (AppError::ResearchNotFound(x), AppError::ResearchNotFound(y)) => x@ == y@,
        (AppError::NoAvailableRecipe(x), AppError::NoAvailableRecipe(y)) => x@ == y@,
        (AppError::CycleDetected(x), AppError::CycleDetected(y)) => x@ == y@,
        (AppError::ValidationError(x), AppError::ValidationError(y)) => x@ == y@,
        _ => false,
    }
}

/// The views of a stack of resource ids.
pub open spec fn stack_set(stack: Seq<ResourceId>) -> Set<Seq<char>> {
    stack.map_values(|r: ResourceId| r@).to_set()
}

impl RecipeCatalog {
    /// Index of the first resource with id `id`.
    fn find_resource(&self, id: &ResourceId) -> (idx: Option<usize>)
        ensures
            match idx {
                Some(i) => i < self.resources@.len() && resource_position(self.resources@, id@) == Some(i as int),
                None => resource_position(self.resources@, id@) is None,
            },
    {
        proof {
            lemma_resource_position(self.resources@, id@);
        }
        let mut i: usize = 0;
        while i < self.resources.len()
            invariant
                i <= self.resources@.len(),
                forall|k: int| 0 <= k < i ==> #[trigger] self.resources@[k].id@ != id@,
            decreases self.resources@.len() - i,
        {
            if self.resources[i].id.same(id) {
                proof {
                    lemma_resource_position(self.resources@, id@);
                }
                return Some(i);
            }
            i = i + 1;
        }
        proof {
            lemma_resource_position(self.resources@, id@);
        }
        None
    }

    /// Whether `id` is on the stack.
    fn on_stack(stack: &Vec<ResourceId>, id: &ResourceId) -> (b: bool)
        ensures
            b == stack_set(stack@).contains(id@),
    {
        let mut i: usize = 0;
        while i < stack.len()
            invariant
                i <= stack@.len(),
                forall|k: int| 0 <= k < i ==> stack@[k]@ != id@,
            decreases stack@.len() - i,
        {
            if stack[i].same(id) {
                assert(stack@.map_values(|x: ResourceId| x@)[i as int] == id@);
                return true;
            }
            i = i + 1;
        }
        proof {
            let views = stack@.map_values(|x: ResourceId| x@);
            if views.to_set().contains(id@) {
                let k = views.index_of(id@);
                assert(stack@[k]@ == id@);
            }
        }
        false
    }

    /// Solves `target` with the resources on `stack` being solved above it.
    fn solve_step(
        &self,
        target: &ResourceId,
        settings: &SelectionSettings,
        stack: &mut Vec<ResourceId>,
    ) -> (result: Result<SolveStep, AppError>)
        requires
            settings.well_formed(),
            self.recipe_ids_distinct(),
        ensures
            final(stack)@ == old(stack)@ || result is Err,
            match result {
                Ok(step) => {
                    &&& solve_error(*self, *settings, *target, stack_set(old(stack)@)) is None
                    &&& step_matches(*self, *settings, step, target@, stack_set(old(stack)@))
                },
                Err(e) => solve_error(*self, *settings, *target, stack_set(old(stack)@)) matches Some(
                    x,
                ) && same_error(e, x),
            },
        decreases known_resources(*self).difference(stack_set(old(stack)@)).len(), 0nat,
    {
        let ghost above = stack_set(stack@);
        let r = match self.find_resource(target) {
            Some(r) => r,
            None => return Err(AppError::ResourceNotFound(target.duplicate())),
        };
        let info = &self.resources[r];
        if info.is_primary {
            return Ok(SolveStep::Raw);
        }
        if info.is_pollution {
            return Ok(SolveStep::Pollution);
        }
        if Self::on_stack(stack, target) {
            return Ok(SolveStep::Feedback);
        }
        let ri = match self.find_best_recipe(target, settings) {
            Some(i) => i,
            None => {
                proof {
                    assert(!exists|i: int| self.is_best_recipe(i, target@, *settings));
                }
                return Err(AppError::NoAvailableRecipe(target.duplicate()));
            },
        };
        proof {
            assert(self.is_best_recipe(ri as int, target@, *settings));
            let b = choose|i: int| self.is_best_recipe(i, target@, *settings);
            super::solver::lemma_best_recipe_unique(*self, target@, *settings, ri as int, b);
            assert(self.best_recipe(target@, *settings) == Some(ri as int));
        }
        let recipe = &self.recipes[ri];
        let bi = match self.find_building(&recipe.building_id) {
            Some(b) => b,
            None => return Err(AppError::BuildingNotFound(recipe.building_id.duplicate())),
        };
        let ghost before = stack@;
        let ghost pushed = above.insert(target@);
        proof {
            lemma_stack_grows(*self, target@, above);
            before.map_values(|x: ResourceId| x@).lemma_push_to_set_commute(target@);
        }
        let dup = target.duplicate();
        let ghost d = dup;
        stack.push(dup);
        proof {
            assert(stack@ == before.push(d));
            assert(before.push(d).map_values(|x: ResourceId| x@) =~= before.map_values(
                |x: ResourceId| x@,
            ).push(target@));
        }
        assert(stack_set(stack@) == pushed);
        let inputs = &recipe.inputs;
        assert(solve_error(*self, *settings, *target, above) == inputs_error(*self, *settings, inputs@, pushed));
        let mut steps: Vec<SolveStep> = Vec::new();
        let mut k: usize = 0;
        while k < inputs.len()
            invariant
                settings.well_formed(),
                self.recipe_ids_distinct(),
                ri < self.recipes@.len(),
                before == old(stack)@,
                inputs@ == self.recipes@[ri as int].inputs@,
                solve_error(*self, *settings, *target, above) == inputs_error(*self, *settings, inputs@, pushed),
                stack_set(stack@) == pushed,
                stack@.len() == before.len() + 1,
                stack@.drop_last() == before,
                pushed == above.insert(target@),
                above == stack_set(before),
                known_resources(*self).difference(pushed).len() < known_resources(*self).difference(above).len(),
                k <= inputs@.len(),
                steps@.len() == k,
                inputs_error(*self, *settings, inputs@.take(k as int), pushed) is None,
                forall|m: int|
                    0 <= m < k ==> step_matches(
                        *self,
                        *settings,
                        #[trigger] steps@[m],
                        inputs@[m]@,
                        pushed,
                    ),
            decreases inputs@.len() - k,
        {
            let ghost stack_before = stack@;
            proof {
                assert(inputs@.take(k + 1).drop_last() =~= inputs@.take(k as int));
                assert(inputs@.take(k + 1).last() == inputs@[k as int]);
            }
            match self.solve_step(&inputs[k], settings, stack) {
                Ok(step) => {
                    steps.push(step);
                },
                Err(e) => {
                    proof {
                        assert(inputs_error(*self, *settings, inputs@.take(k + 1), pushed) == solve_error(
                            *self,
                            *settings,
                            inputs@[k as int],
                            pushed,
                        ));
                        assert(inputs@.take(inputs@.len() as int) =~= inputs@);
                        lemma_inputs_error_prefix(*self, *settings, inputs@, k as int + 1, pushed);
                    }
                    return Err(e);
                },
            }
            k = k + 1;
        }
        proof {
            assert(inputs@.take(k as int) =~= inputs@);
        }
        stack.pop();
        assert(stack@ =~= before);
        let node = SolveNode { recipe_index: ri, building_index: bi, inputs: steps };
        proof {
            assert(node_matches(*self, *settings, node, target@, above));
        }
        Ok(SolveStep::Produced(Box::new(node)))
    }

    /// The shape of the production chain for `target`: how it and,
    /// recursively, each input of the recipes used is met; or the first error
    /// met while solving, inputs taken in recipe order.
    pub fn plan_solve(&self, target: &ResourceId, settings: &SelectionSettings) -> (result: Result<
        SolveStep,
        AppError,
    >)
        requires
            settings.well_formed(),
            self.recipe_ids_distinct(),
        ensures
            result is Ok <==> solve_error(*self, *settings, *target, Set::empty()) is None,
            match result {
                Ok(step) => step_matches(*self, *settings, step, target@, Set::empty()),
                Err(e) => solve_error(*self, *settings, *target, Set::empty()) matches Some(x)
                    && same_error(e, x),
            },
    {
        let mut stack: Vec<ResourceId> = Vec::new();
        assert(stack_set(stack@) =~= Set::empty());
        self.solve_step(target, settings, &mut stack)
    }
}

/// Once a prefix of the inputs has an error, every longer prefix has that
/// same first error.
proof fn lemma_inputs_error_prefix(
    catalog: RecipeCatalog,
    settings: SelectionSettings,
    inputs: Seq<ResourceId>,
    k: int,
    stack: Set<Seq<char>>,
)
    requires
        0 <= k <= inputs.len(),
        inputs_error(catalog, settings, inputs.take(k), stack) is Some,
    ensures
        inputs_error(catalog, settings, inputs, stack) == inputs_error(catalog, settings, inputs.take(k), stack),
    decreases inputs.len() - k,
{
    if k < inputs.len() {
        assert(inputs.take(k + 1).drop_last() =~= inputs.take(k));
        lemma_inputs_error_prefix(catalog, settings, inputs, k + 1, stack);
    } else {
        assert(inputs.take(k) =~= inputs);
    }
}

/// Along every path from `step` down, no resource is produced twice, nor any
/// of the resources in `above`.
pub open spec fn produced_once_on_paths(
    catalog: RecipeCatalog,
    step: SolveStep,
    target: Seq<char>,
    above: Set<Seq<char>>,
) -> bool
    decreases step,
{
    match step {
        SolveStep::Produced(node) => {
            &&& !above.contains(target)
            &&& forall|k: int|
                0 <= k < node.inputs@.len() ==> produced_once_on_paths(
                    catalog,
                    #[trigger] node.inputs@[k],
                    catalog.recipes@[node.recipe_index as int].inputs@[k]@,
                    above.insert(target),
                )
        },
        _ => true,
    }
}

/// A solved chain never produces a resource inside its own production: a
/// resource met again below itself is a feedback loop, so along every path no
/// resource is produced twice.
pub proof fn lemma_solve_never_repeats(
    catalog: RecipeCatalog,
    settings: SelectionSettings,
    step: SolveStep,
    target: Seq<char>,
    stack: Set<Seq<char>>,
)
    requires
        step_matches(catalog, settings, step, target, stack),
    ensures
        produced_once_on_paths(catalog, step, target, stack),
    decreases step,
{
    match step {
        SolveStep::Produced(node) => {
            let node = *node;
            assert(node_matches(catalog, settings, node, target, stack));
            assert forall|k: int| 0 <= k < node.inputs@.len() implies produced_once_on_paths(
                catalog,
                #[trigger] node.inputs@[k],
                catalog.recipes@[node.recipe_index as int].inputs@[k]@,
                stack.insert(target),
            ) by {
                lemma_solve_never_repeats(
                    catalog,
                    settings,
                    node.inputs@[k],
                    catalog.recipes@[node.recipe_index as int].inputs@[k]@,
                    stack.insert(target),
                );
            }
        },
        _ => {},
    }
}

} // verus!
