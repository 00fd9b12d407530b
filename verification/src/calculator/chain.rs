//! The shape of a production chain: starting from a recipe, which upstream
//! recipe feeds each input, which inputs are supplied or raw, and where a
//! recipe would feed itself. Rates are laid over this shape by the caller.
use vstd::prelude::*;

use crate::model::ids::ResourceId;

verus! {

/// What chain planning reads of a recipe.
pub struct RecipeShape {
    pub id: String,
    /// The machine that runs the recipe.
    pub machine_id: String,
    /// The resources the recipe consumes, in recipe order.
    pub inputs: Vec<ResourceId>,
    /// The resources the recipe outputs, in recipe order.
    pub outputs: Vec<ResourceId>,
}

/// The recipes and machines of the game data, as chain planning sees them.
pub struct ChainData {
    pub recipes: Vec<RecipeShape>,
    pub machine_ids: Vec<String>,
}

/// How one input of a chain node is provided.
pub enum PlanSource {
    /// An upstream recipe makes it.
    Recipe(Box<ChainPlan>),
    /// Nothing makes it: it must be mined or bought.
    RawMaterial,
    /// The player marked it as already available.
    Supplied,
    /// The recipe that makes it is already being expanded further up the chain.
    CycleDetected,
}

/// A node of a production chain: the recipe used, the output it is run for,
/// and how each of the recipe's inputs is provided, in input order.
pub struct ChainPlan {
    pub recipe_index: usize,
    pub output_index: usize,
    pub children: Vec<PlanSource>,
}

/// Index of the first recipe with id `id`.
pub open spec fn first_recipe_with_id(recipes: Seq<RecipeShape>, id: Seq<char>) -> Option<int>
    decreases recipes.len(),
{
    if recipes.len() == 0 {
        None
    } else if recipes[0].id@ == id {
        Some(0)
    } else {
        match first_recipe_with_id(recipes.drop_first(), id) {
            Some(i) => Some(i + 1),
            None => None,
        }
    }
}

/// Index of the first output that is `resource`.
pub open spec fn first_output_of(outputs: Seq<ResourceId>, resource: Seq<char>) -> Option<int>
    decreases outputs.len(),
{
    if outputs.len() == 0 {
        None
    } else if outputs[0]@ == resource {
        Some(0)
    } else {
        match first_output_of(outputs.drop_first(), resource) {
            Some(i) => Some(i + 1),
            None => None,
        }
    }
}

/// The first recipe (in data order) that outputs `resource`, with the index of
/// that output.
pub open spec fn first_producer(recipes: Seq<RecipeShape>, resource: Seq<char>) -> Option<(int, int)>
    decreases recipes.len(),
{
    if recipes.len() == 0 {
        None
    } else {
        match first_output_of(recipes[0].outputs@, resource) {
            Some(o) => Some((0, o)),
            None => match first_producer(recipes.drop_first(), resource) {
                Some((i, o)) => Some((i + 1, o)),
                None => None,
            },
        }
    }
}

/// Whether a machine with id `id` is known.
pub open spec fn machine_known(machine_ids: Seq<String>, id: Seq<char>) -> bool {
    exists|i: int| 0 <= i < machine_ids.len() && #[trigger] machine_ids[i]@ == id
}

/// A chain node can be built for recipe `recipe_id` run for output `output`:
/// the recipe exists, its machine is known and it has that output.
pub open spec fn node_buildable(data: ChainData, recipe_id: Seq<char>, output: int) -> bool {
    match first_recipe_with_id(data.recipes@, recipe_id) {
        None => false,
        Some(i) => {
            &&& machine_known(data.machine_ids@, data.recipes@[i].machine_id@)
            &&& 0 <= output < data.recipes@[i].outputs@.len()
        },
    }
}

/// The set of supplied resources.
pub open spec fn supplied_set(supplied: Seq<ResourceId>) -> Set<Seq<char>> {
    supplied.map_values(|r: ResourceId| r@).to_set()
}

/// `plan` is the chain node for recipe `recipe_id` run for output `output`,
/// with `supplied` marked available and the recipes in `expanding` already
/// being expanded above it.
pub open spec fn plan_matches(
    data: ChainData,
    plan: ChainPlan,
    recipe_id: Seq<char>,
    output: int,
    supplied: Set<Seq<char>>,
    expanding: Set<Seq<char>>,
) -> bool
    decreases plan,
{
    &&& node_buildable(data, recipe_id, output)
    &&& first_recipe_with_id(data.recipes@, recipe_id) == Some(plan.recipe_index as int)
    &&& plan.output_index == output
    &&& plan.children@.len() == data.recipes@[plan.recipe_index as int].inputs@.len()
    &&& forall|k: int|
        0 <= k < plan.children@.len() ==> source_matches(
            data,
            #[trigger] plan.children@[k],
            data.recipes@[plan.recipe_index as int].inputs@[k]@,
            supplied,
            expanding.insert(recipe_id),
        )
}

/// `source` is how the input `resource` of a node is provided, with the
/// recipes in `expanding` (the node's own recipe included) being expanded.
pub open spec fn source_matches(
    data: ChainData,
    source: PlanSource,
    resource: Seq<char>,
    supplied: Set<Seq<char>>,
    expanding: Set<Seq<char>>,
) -> bool
    decreases source,
{
    if supplied.contains(resource) {
        source is Supplied
    } else {
        match first_producer(data.recipes@, resource) {
            None => source is RawMaterial,
            Some((r, o)) => {
                let up = data.recipes@[r].id@;
                if expanding.contains(up) {
                    source is CycleDetected
                } else if !node_buildable(data, up, o) {
                    source is RawMaterial
                } else {
                    match source {
                        PlanSource::Recipe(sub) => plan_matches(data, *sub, up, o, supplied, expanding),
                        _ => false,
                    }
                }
            },
        }
    }
}


/// The set of strings held by a vector.
pub open spec fn strings_set(strings: Seq<String>) -> Set<Seq<char>> {
    strings.map_values(|s: String| s@).to_set()
}

proof fn lemma_first_recipe_with_id(recipes: Seq<RecipeShape>, id: Seq<char>)
    ensures
        match first_recipe_with_id(recipes, id) {
            Some(k) => 0 <= k < recipes.len() && recipes[k].id@ == id && forall|j: int|
                0 <= j < k ==> #[trigger] recipes[j].id@ != id,
            None => forall|j: int| 0 <= j < recipes.len() ==> #[trigger] recipes[j].id@ != id,
        },
    decreases recipes.len(),
{
    if recipes.len() > 0 {
        let rest = recipes.drop_first();
        lemma_first_recipe_with_id(rest, id);
        assert forall|j: int| 1 <= j < recipes.len() implies recipes[j] == rest[j - 1] by {}
        if recipes[0].id@ != id {
            match first_recipe_with_id(rest, id) {
                Some(k) => {
                    assert(first_recipe_with_id(recipes, id) == Some(k + 1));
                    assert forall|j: int| 0 <= j < k + 1 implies #[trigger] recipes[j].id@ != id by {
                        if j > 0 {
                            assert(recipes[j] == rest[j - 1]);
                            assert(rest[j - 1].id@ != id);
                        }
                    }
                },
                None => {
                    assert forall|j: int| 0 <= j < recipes.len() implies #[trigger] recipes[j].id@ != id by {
                        if j > 0 {
                            assert(recipes[j] == rest[j - 1]);
                            assert(rest[j - 1].id@ != id);
                        }
                    }
                },
            }
        }
    }
}

proof fn lemma_first_output_of(outputs: Seq<ResourceId>, resource: Seq<char>)
    ensures
        match first_output_of(outputs, resource) {
            Some(k) => 0 <= k < outputs.len() && outputs[k]@ == resource && forall|j: int|
                0 <= j < k ==> #[trigger] outputs[j]@ != resource,
            None => forall|j: int| 0 <= j < outputs.len() ==> #[trigger] outputs[j]@ != resource,
        },
    decreases outputs.len(),
{
    if outputs.len() > 0 {
        lemma_first_output_of(outputs.drop_first(), resource);
        assert forall|j: int| 1 <= j < outputs.len() implies outputs[j] == outputs.drop_first()[j - 1] by {}
    }
}

proof fn lemma_first_producer(recipes: Seq<RecipeShape>, resource: Seq<char>)
    ensures
        match first_producer(recipes, resource) {
            Some((r, o)) => {
                &&& 0 <= r < recipes.len()
                &&& first_output_of(recipes[r].outputs@, resource) == Some(o)
                &&& forall|j: int| 0 <= j < r ==> first_output_of(#[trigger] recipes[j].outputs@, resource) is None
            },
            None => forall|j: int| 0 <= j < recipes.len() ==> first_output_of(#[trigger] recipes[j].outputs@, resource) is None,
        },
    decreases recipes.len(),
{
    if recipes.len() > 0 {
        lemma_first_producer(recipes.drop_first(), resource);
        assert forall|j: int| 1 <= j < recipes.len() implies recipes[j] == recipes.drop_first()[j - 1] by {}
    }
}

/// Whether `strings` holds `s`.
fn strings_contain(strings: &Vec<String>, s: &String) -> (b: bool)
    ensures
        b == strings_set(strings@).contains(s@),
{
    let mut i: usize = 0;
    while i < strings.len()
        invariant
            i <= strings@.len(),
            forall|k: int| 0 <= k < i ==> strings@[k]@ != s@,
        decreases strings@.len() - i,
    {
        if strings[i] == *s {
            assert(strings@.map_values(|x: String| x@)[i as int] == s@);
            return true;
        }
        i = i + 1;
    }
    proof {
        let views = strings@.map_values(|x: String| x@);
        if views.to_set().contains(s@) {
            let k = views.index_of(s@);
            assert(strings@[k]@ == s@);
        }
    }
    false
}

/// Whether `resource` is among the supplied resources.
fn is_supplied(supplied: &Vec<ResourceId>, resource: &ResourceId) -> (b: bool)
    ensures
        b == supplied_set(supplied@).contains(resource@),
{
    let mut i: usize = 0;
    while i < supplied.len()
        invariant
            i <= supplied@.len(),
            forall|k: int| 0 <= k < i ==> supplied@[k]@ != resource@,
        decreases supplied@.len() - i,
    {
        if supplied[i].same(resource) {
            assert(supplied@.map_values(|x: ResourceId| x@)[i as int] == resource@);
            return true;
        }
        i = i + 1;
    }
    proof {
        let views = supplied@.map_values(|x: ResourceId| x@);
        if views.to_set().contains(resource@) {
            let k = views.index_of(resource@);
            assert(supplied@[k]@ == resource@);
        }
    }
    false
}

impl ChainData {
    /// The ids of all recipes.
    pub open spec fn recipe_ids(self) -> Set<Seq<char>> {
        self.recipes@.map_values(|r: RecipeShape| r.id@).to_set()
    }

    /// Index of the first recipe with id `id`.
    fn find_recipe(&self, id: &String) -> (idx: Option<usize>)
        ensures
            match idx {
                Some(i) => first_recipe_with_id(self.recipes@, id@) == Some(i as int),
                None => first_recipe_with_id(self.recipes@, id@) is None,
            },
    {
        proof {
            lemma_first_recipe_with_id(self.recipes@, id@);
        }
        let mut i: usize = 0;
        while i < self.recipes.len()
            invariant
                i <= self.recipes@.len(),
                forall|k: int| 0 <= k < i ==> #[trigger] self.recipes@[k].id@ != id@,
            decreases self.recipes@.len() - i,
        {
            if self.recipes[i].id == *id {
                proof {
                    lemma_first_recipe_with_id(self.recipes@, id@);
                }
                return Some(i);
            }
            i = i + 1;
        }
        proof {
            lemma_first_recipe_with_id(self.recipes@, id@);
        }
        None
    }

    /// Whether a machine with id `id` is known.
    fn machine_exists(&self, id: &String) -> (b: bool)
        ensures
            b == machine_known(self.machine_ids@, id@),
    {
        let mut i: usize = 0;
        while i < self.machine_ids.len()
            invariant
                i <= self.machine_ids@.len(),
                forall|k: int| 0 <= k < i ==> self.machine_ids@[k]@ != id@,
            decreases self.machine_ids@.len() - i,
        {
            if self.machine_ids[i] == *id {
                return true;
            }
            i = i + 1;
        }
        false
    }

    /// The first recipe that outputs `resource`, and the index of that output.
    pub fn find_recipe_for_resource(&self, resource: &ResourceId) -> (found: Option<(usize, usize)>)
        ensures
            match found {
                Some((r, o)) => first_producer(self.recipes@, resource@) == Some((r as int, o as int)),
                None => first_producer(self.recipes@, resource@) is None,
            },
    {
        proof {
            lemma_first_producer(self.recipes@, resource@);
        }
        let mut r: usize = 0;
        while r < self.recipes.len()
            invariant
                r <= self.recipes@.len(),
                forall|j: int| 0 <= j < r ==> first_output_of(#[trigger] self.recipes@[j].outputs@, resource@) is None,
            decreases self.recipes@.len() - r,
        {
            let outputs = &self.recipes[r].outputs;
            proof {
                lemma_first_output_of(outputs@, resource@);
            }
            let mut o: usize = 0;
            while o < outputs.len()
                invariant
                    r < self.recipes@.len(),
                    forall|j: int| 0 <= j < r ==> first_output_of(#[trigger] self.recipes@[j].outputs@, resource@) is None,
                    outputs@ == self.recipes@[r as int].outputs@,
                    o <= outputs@.len(),
                    forall|k: int| 0 <= k < o ==> #[trigger] outputs@[k]@ != resource@,
                decreases outputs@.len() - o,
            {
                if outputs[o].same(resource) {
                    proof {
                        lemma_first_output_of(outputs@, resource@);
                        lemma_first_producer(self.recipes@, resource@);
                    }
                    return Some((r, o));
                }
                o = o + 1;
            }
            proof {
                lemma_first_output_of(outputs@, resource@);
            }
            r = r + 1;
        }
        proof {
            lemma_first_producer(self.recipes@, resource@);
        }
        None
    }

    /// Builds the chain node for recipe `recipe_id` run for output `output`,
    /// with the recipes in `expanding` being expanded above it.
    fn build_chain_node(
        &self,
        recipe_id: &String,
        output: usize,
        supplied: &Vec<ResourceId>,
        expanding: &mut Vec<String>,
    ) -> (plan: Option<ChainPlan>)
        requires
            !strings_set(old(expanding)@).contains(recipe_id@),
        ensures
            final(expanding)@ == old(expanding)@,
            match plan {
                Some(p) => plan_matches(
                    *self,
                    p,
                    recipe_id@,
                    output as int,
                    supplied_set(supplied@),
                    strings_set(old(expanding)@),
                ),
                None => !node_buildable(*self, recipe_id@, output as int),
            },
        decreases self.recipe_ids().difference(strings_set(old(expanding)@)).len(),
    {
        let ri = match self.find_recipe(recipe_id) {
            Some(i) => i,
            None => return None,
        };
        proof {
            lemma_first_recipe_with_id(self.recipes@, recipe_id@);
            assert(self.recipes@.map_values(|r: RecipeShape| r.id@)[ri as int] == recipe_id@);
            vstd::seq_lib::seq_to_set_is_finite(self.recipes@.map_values(|r: RecipeShape| r.id@));
        }
        if !self.machine_exists(&self.recipes[ri].machine_id) {
            return None;
        }
        if output >= self.recipes[ri].outputs.len() {
            return None;
        }
        let ghost before = old(expanding)@;
        let ghost above = strings_set(before).insert(recipe_id@);
        proof {
            lemma_first_recipe_with_id(self.recipes@, recipe_id@);
            before.map_values(|x: String| x@).lemma_push_to_set_commute(recipe_id@);
            assert(before.push(*recipe_id).map_values(|x: String| x@) =~= before.map_values(
                |x: String| x@,
            ).push(recipe_id@));
        }
        expanding.push(recipe_id.clone());
        assert(strings_set(expanding@) == above);
        let inputs = &self.recipes[ri].inputs;
        let mut children: Vec<PlanSource> = Vec::new();
        let mut k: usize = 0;
        while k < inputs.len()
            invariant
                inputs@ == self.recipes@[ri as int].inputs@,
                before == old(expanding)@,
                expanding@ == before.push(*recipe_id),
                strings_set(expanding@) == above,
                above == strings_set(before).insert(recipe_id@),
                !strings_set(before).contains(recipe_id@),
                self.recipe_ids().contains(recipe_id@),
                k <= inputs@.len(),
                children@.len() == k,
                forall|m: int|
                    0 <= m < k ==> source_matches(
                        *self,
                        #[trigger] children@[m],
                        inputs@[m]@,
                        supplied_set(supplied@),
                        above,
                    ),
            decreases inputs@.len() - k,
        {
            let resource = &inputs[k];
            let source = if is_supplied(supplied, resource) {
                PlanSource::Supplied
            } else {
                match self.find_recipe_for_resource(resource) {
                    None => PlanSource::RawMaterial,
                    Some((r, o)) => {
                        proof {
                            lemma_first_producer(self.recipes@, resource@);
                        }
                        let up = &self.recipes[r].id;
                        if strings_contain(expanding, up) {
                            PlanSource::CycleDetected
                        } else {
                            proof {
                                let ids = self.recipe_ids();
                                let outer = strings_set(before);
                                assert(ids.difference(above) =~= ids.difference(outer).remove(recipe_id@));
                                assert(ids.difference(outer).contains(recipe_id@));
                                vstd::seq_lib::seq_to_set_is_finite(self.recipes@.map_values(|r: RecipeShape| r.id@));
                                assert(ids.difference(outer).finite());
                                assert(ids.difference(above).len() < ids.difference(outer).len());
                                assert(strings_set(expanding@) == above);
                            }
                            match self.build_chain_node(up, o, supplied, expanding) {
                                Some(p) => PlanSource::Recipe(Box::new(p)),
                                None => PlanSource::RawMaterial,
                            }
                        }
                    },
                }
            };
            children.push(source);
            k = k + 1;
        }
        expanding.pop();
        assert(expanding@ =~= before);
        Some(ChainPlan { recipe_index: ri, output_index: output, children })
    }

    /// The shape of the production chain rooted at recipe `recipe_id` run for
    /// output `output`, with the `supplied` resources already available.
    /// `None` when that recipe is unknown, its machine is unknown, or it has
    /// no such output.
    pub fn plan_chain(&self, recipe_id: &str, output: usize, supplied: &Vec<ResourceId>) -> (plan:
        Option<ChainPlan>)
        ensures
            match plan {
                Some(p) => plan_matches(
                    *self,
                    p,
                    recipe_id@,
                    output as int,
                    supplied_set(supplied@),
                    Set::empty(),
                ),
                None => !node_buildable(*self, recipe_id@, output as int),
            },
    {
        let mut expanding: Vec<String> = Vec::new();
        let id = recipe_id.to_owned();
        assert(strings_set(expanding@) =~= Set::empty());
        self.build_chain_node(&id, output, supplied, &mut expanding)
    }
}

/// Along every path from `plan` down, no recipe is used twice, nor any of the
/// recipes in `above`.
pub open spec fn no_repeat_on_paths(data: ChainData, plan: ChainPlan, above: Set<Seq<char>>) -> bool
    decreases plan,
{
    let id = data.recipes@[plan.recipe_index as int].id@;
    &&& !above.contains(id)
    &&& forall|k: int|
        0 <= k < plan.children@.len() ==> match #[trigger] plan.children@[k] {
            PlanSource::Recipe(sub) => no_repeat_on_paths(data, *sub, above.insert(id)),
            _ => true,
        }
}

/// A chain plan never expands a recipe inside itself: along every path of the
/// plan no recipe occurs twice, so every chain is finite.
pub proof fn lemma_plan_never_repeats(
    data: ChainData,
    plan: ChainPlan,
    recipe_id: Seq<char>,
    output: int,
    supplied: Set<Seq<char>>,
    expanding: Set<Seq<char>>,
)
    requires
        plan_matches(data, plan, recipe_id, output, supplied, expanding),
        !expanding.contains(recipe_id),
    ensures
        no_repeat_on_paths(data, plan, expanding),
    decreases plan,
{
    lemma_first_recipe_with_id(data.recipes@, recipe_id);
    let id = data.recipes@[plan.recipe_index as int].id@;
    assert(id == recipe_id);
    let inputs = data.recipes@[plan.recipe_index as int].inputs@;
    assert forall|k: int| 0 <= k < plan.children@.len() implies match #[trigger] plan.children@[k] {
        PlanSource::Recipe(sub) => no_repeat_on_paths(data, *sub, expanding.insert(id)),
        _ => true,
    } by {
        let child = plan.children@[k];
        assert(source_matches(data, child, inputs[k]@, supplied, expanding.insert(recipe_id)));
        match child {
            PlanSource::Recipe(sub) => {
                let resource = inputs[k]@;
                let (r, o) = first_producer(data.recipes@, resource)->0;
                let up = data.recipes@[r].id@;
                assert(plan_matches(data, *sub, up, o, supplied, expanding.insert(recipe_id)));
                assert(!expanding.insert(recipe_id).contains(up));
                lemma_plan_never_repeats(data, *sub, up, o, supplied, expanding.insert(recipe_id));
            },
            _ => {},
        }
    }
}

} // verus!

