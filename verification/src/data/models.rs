//! Resources, categories and balance states of the recipe calculator's data.
use vstd::prelude::*;

pub use crate::model::ids::ResourceId;

verus! {

/// The category a resource of the calculator data belongs to.
#[derive(Debug, Clone, Copy, PartialEq, Eq, Structural)]
pub enum ResourceCategory {
    Mineral,
    Liquid,
    Gaseous,
    Food,
    Intermediate,
    Product,
    Waste,
    Crops,
    Other,
}

impl Default for ResourceCategory {
    /// Resources without a category count as `Other`.
    fn default() -> (c: Self)
        ensures
            c == ResourceCategory::Other,
    {
        ResourceCategory::Other
    }
}

/// The translation key of a category.
pub open spec fn i18n_key_spec(c: ResourceCategory) -> Seq<char> {
    match c {
        ResourceCategory::Mineral => "cat_mineral"@,
        ResourceCategory::Liquid => "cat_liquid"@,
        ResourceCategory::Gaseous => "cat_gaseous"@,
        ResourceCategory::Food => "cat_food"@,
        ResourceCategory::Intermediate => "cat_intermediate"@,
        ResourceCategory::Product => "cat_product"@,
        ResourceCategory::Waste => "cat_waste"@,
        ResourceCategory::Crops => "cat_crops"@,
        ResourceCategory::Other => "cat_other"@,
    }
}

/// Every category, in display order.
pub open spec fn all_categories() -> Seq<ResourceCategory> {
    seq![
        ResourceCategory::Mineral,
        ResourceCategory::Liquid,
        ResourceCategory::Gaseous,
        ResourceCategory::Food,
        ResourceCategory::Intermediate,
        ResourceCategory::Product,
        ResourceCategory::Waste,
        ResourceCategory::Crops,
        ResourceCategory::Other,
    ]
}

impl ResourceCategory {
    /// Every category, each once, in display order.
    pub fn all() -> (all: &'static [ResourceCategory])
        ensures
            all@ == all_categories(),
    {
        &[
            ResourceCategory::Mineral,
            ResourceCategory::Liquid,
            ResourceCategory::Gaseous,
            ResourceCategory::Food,
            ResourceCategory::Intermediate,
            ResourceCategory::Product,
            ResourceCategory::Waste,
            ResourceCategory::Crops,
            ResourceCategory::Other,
        ]
    }

    /// The translation key the category's label is stored under.
    pub fn i18n_key(&self) -> (key: &'static str)
        ensures
            key@ == i18n_key_spec(*self),
    {
        match self {
            ResourceCategory::Mineral => "cat_mineral",
            ResourceCategory::Liquid => "cat_liquid",
            ResourceCategory::Gaseous => "cat_gaseous",
            ResourceCategory::Food => "cat_food",
            ResourceCategory::Intermediate => "cat_intermediate",
            ResourceCategory::Product => "cat_product",
            ResourceCategory::Waste => "cat_waste",
            ResourceCategory::Crops => "cat_crops",
            ResourceCategory::Other => "cat_other",
        }
    }
}

/// `all` lists every category exactly once.
pub proof fn lemma_all_categories_complete(c: ResourceCategory)
    ensures
        all_categories().contains(c),
        forall|i: int, j: int|
            0 <= i < j < all_categories().len() ==> all_categories()[i] != all_categories()[j],
{
    let s = all_categories();
    match c {
        ResourceCategory::Mineral => assert(s[0] == c),
        ResourceCategory::Liquid => assert(s[1] == c),
        ResourceCategory::Gaseous => assert(s[2] == c),
        ResourceCategory::Food => assert(s[3] == c),
        ResourceCategory::Intermediate => assert(s[4] == c),
        ResourceCategory::Product => assert(s[5] == c),
        ResourceCategory::Waste => assert(s[6] == c),
        ResourceCategory::Crops => assert(s[7] == c),
        ResourceCategory::Other => assert(s[8] == c),
    }
}

/// Distinct categories have distinct translation keys.
pub proof fn lemma_i18n_key_injective(a: ResourceCategory, b: ResourceCategory)
    requires
        i18n_key_spec(a) == i18n_key_spec(b),
    ensures
        a == b,
{
    reveal_strlit("cat_mineral");
    reveal_strlit("cat_liquid");
    reveal_strlit("cat_gaseous");
    reveal_strlit("cat_food");
    reveal_strlit("cat_intermediate");
    reveal_strlit("cat_product");
    reveal_strlit("cat_waste");
    reveal_strlit("cat_crops");
    reveal_strlit("cat_other");
    assert("cat_mineral"@[4] == 'm');
    assert("cat_liquid"@[4] == 'l');
    assert("cat_gaseous"@[4] == 'g');
    assert("cat_food"@[4] == 'f');
    assert("cat_intermediate"@[4] == 'i');
    assert("cat_product"@[4] == 'p');
    assert("cat_waste"@[4] == 'w');
    assert("cat_crops"@[4] == 'c');
    assert("cat_other"@[4] == 'o');
}

/// A resource of the calculator data.
#[derive(Debug, Clone)]
pub struct Resource {
    pub id: ResourceId,
    pub name: String,
    pub name_zh: Option<String>,
    pub category: ResourceCategory,
}

/// Where a resource stands in a balance report.
#[derive(Debug, Clone, Copy, PartialEq, Eq, Structural)]
pub enum BalanceStatus {
    Surplus,
    Deficit,
    Balanced,
    /// The worst deficit.
    Bottleneck,
}

/// Whether `id` is among `ids`.
pub open spec fn id_listed(ids: Seq<String>, id: Seq<char>) -> bool {
    exists|k: int| 0 <= k < ids.len() && #[trigger] ids[k]@ == id
}

/// Which incoming entries a merge of game data adds: those whose id is not
/// among the ids the data held before the merge, as indices in their order.
/// Two incoming entries with the same new id are both added.
pub fn ids_to_add(existing: &Vec<String>, incoming: &Vec<String>) -> (added: Vec<usize>)
    ensures
        forall|k: int| 0 <= k < added@.len() ==> #[trigger] added@[k] < incoming@.len(),
        forall|a: int, b: int| 0 <= a < b < added@.len() ==> #[trigger] added@[a] < #[trigger] added@[b],
        forall|i: int|
            0 <= i < incoming@.len() ==> (added@.contains(i as usize) <==> !id_listed(
                existing@,
                #[trigger] incoming@[i]@,
            )),
{
    let mut added: Vec<usize> = Vec::new();
    let mut i: usize = 0;
    while i < incoming.len()
        invariant
            i <= incoming@.len(),
            forall|k: int| 0 <= k < added@.len() ==> #[trigger] added@[k] < i,
            forall|a: int, b: int| 0 <= a < b < added@.len() ==> #[trigger] added@[a] < #[trigger] added@[b],
            forall|j: int|
                0 <= j < i ==> (added@.contains(j as usize) <==> !id_listed(existing@, #[trigger] incoming@[j]@)),
        decreases incoming@.len() - i,
    {
        let mut found = false;
        let mut r: usize = 0;
        while r < existing.len()
            invariant
                r <= existing@.len(),
                i < incoming@.len(),
                found <==> exists|q: int| 0 <= q < r && #[trigger] existing@[q]@ == incoming@[i as int]@,
            decreases existing@.len() - r,
        {
            if existing[r] == incoming[i] {
                found = true;
            }
            r = r + 1;
        }
        let ghost before = added@;
        if !found {
            added.push(i);
        }
        proof {
            assert forall|j: int| 0 <= j <= i implies (added@.contains(j as usize) <==> !id_listed(
                existing@,
                #[trigger] incoming@[j]@,
            )) by {
                if j < i {
                    if before.contains(j as usize) {
                        let k = choose|k: int| 0 <= k < before.len() && before[k] == j as usize;
                        assert(added@[k] == j as usize);
                    }
                    if added@.contains(j as usize) {
                        let k = choose|k: int| 0 <= k < added@.len() && added@[k] == j as usize;
                        if k < before.len() {
                            assert(before[k] == j as usize);
                        }
                    }
                } else if !found {
                    assert(added@[added@.len() - 1] == i);
                }
            }
        }
        i = i + 1;
    }
    added
}

/// Merging game data into data that already holds the same ids adds nothing.
pub proof fn lemma_merge_same_ids_adds_nothing(ids: Seq<String>, i: int)
    requires
        0 <= i < ids.len(),
    ensures
        id_listed(ids, ids[i]@),
{
}

/// Where a status is listed in a balance report: deficits (the bottleneck
/// among them) first, then balanced resources, then surpluses.
pub open spec fn status_rank_spec(status: BalanceStatus) -> u8 {
    match status {
        BalanceStatus::Deficit | BalanceStatus::Bottleneck => 0,
        BalanceStatus::Balanced => 1,
        BalanceStatus::Surplus => 2,
    }
}

/// Where a status is listed in a balance report.
pub fn status_rank(status: &BalanceStatus) -> (rank: u8)
    ensures
        rank == status_rank_spec(*status),
{
    match status {
        BalanceStatus::Deficit | BalanceStatus::Bottleneck => 0,
        BalanceStatus::Balanced => 1,
        BalanceStatus::Surplus => 2,
    }
}

/// Marks the first resource of a sorted report as the bottleneck when it is
/// in deficit; nothing else changes.
pub fn promote_bottleneck(statuses: &mut Vec<BalanceStatus>)
    ensures
        final(statuses)@ == if old(statuses)@.len() > 0 && old(statuses)@[0] == BalanceStatus::Deficit {
            old(statuses)@.update(0, BalanceStatus::Bottleneck)
        } else {
            old(statuses)@
        },
{
    if statuses.len() > 0 && statuses[0] == BalanceStatus::Deficit {
        statuses.set(0, BalanceStatus::Bottleneck);
    }
}

/// The translation key of a status's label.
pub open spec fn status_key_spec(status: BalanceStatus) -> Seq<char> {
    match status {
        BalanceStatus::Surplus => "surplus"@,
        BalanceStatus::Deficit => "deficit"@,
        BalanceStatus::Balanced => "balanced"@,
        BalanceStatus::Bottleneck => "bottleneck"@,
    }
}

impl BalanceStatus {
    /// The translation key of the status's label.
    pub fn label_key(&self) -> (key: &'static str)
        ensures
            key@ == status_key_spec(*self),
    {
        match self {
            BalanceStatus::Surplus => "surplus",
            BalanceStatus::Deficit => "deficit",
            BalanceStatus::Balanced => "balanced",
            BalanceStatus::Bottleneck => "bottleneck",
        }
    }
}

} // verus!
