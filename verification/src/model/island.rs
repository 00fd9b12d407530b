//! Population needs of an island: food, services and waste, and the default
//! list of needs built from the keys of the population tables.
use vstd::prelude::*;

use crate::text::{
    chars_of, is_word, lemma_sorted_texts_keep_words, sort_texts, sorted_texts_spec, string_from_chars,
    views_of,
};

verus! {

/// The kind of a population need.
#[derive(Debug, Clone, Copy, PartialEq, Eq, Structural)]
pub enum NeedKind {
    /// A food category (carbs, protein, vitamins, treats, ...).
    Food,
    /// A service (water, household goods, ...).
    Service,
    /// A waste output (base waste, waste water).
    Waste,
}

/// One need of the population, food, service or waste alike.
#[derive(Debug, Clone)]
pub struct PopulationNeed {
    /// Unique key such as `food:carbs`, `service:water` or `waste:base_waste`.
    pub key: String,
    /// Display name.
    pub name: String,
    pub kind: NeedKind,
    pub enabled: bool,
    /// For a food need: the food items chosen for it.
    pub selected_items: Vec<String>,
}

/// A need as plain values: key, name, kind, enabled, selected items.
pub type NeedView = (Seq<char>, Seq<char>, NeedKind, bool, Seq<Seq<char>>);

/// The views of a sequence of strings.
pub open spec fn string_views(v: Seq<String>) -> Seq<Seq<char>> {
    v.map_values(|s: String| s@)
}

impl View for PopulationNeed {
    type V = NeedView;

    open spec fn view(&self) -> NeedView {
        (self.key@, self.name@, self.kind, self.enabled, string_views(self.selected_items@))
    }
}

/// The views of a sequence of needs.
pub open spec fn need_views(v: Seq<PopulationNeed>) -> Seq<NeedView> {
    v.map_values(|n: PopulationNeed| n@)
}

/// The population settings of an island.
#[derive(Debug, Clone)]
pub struct PopulationSettings {
    pub population: u32,
    pub housing_tier: u32,
    pub needs: Vec<PopulationNeed>,
}

impl Default for PopulationSettings {
    /// No population, the first housing tier, and no needs yet (they are
    /// built once the population tables are known).
    fn default() -> (s: Self)
        ensures
            s.population == 0,
            s.housing_tier == 1,
            s.needs@.len() == 0,
    {
        PopulationSettings { population: 0, housing_tier: 1, needs: Vec::new() }
    }
}

impl PopulationSettings {
    /// Sets the population and, when one is given, the housing tier; a tier
    /// outside 1 to 4 is refused and the current one kept. Returns whether the
    /// given tier, if any, was taken.
    pub fn set_population(&mut self, count: u32, housing_tier: Option<u32>) -> (accepted: bool)
        ensures
            final(self).population == count,
            final(self).needs@ == old(self).needs@,
            accepted == match housing_tier {
                Some(t) => 1 <= t <= 4,
                None => true,
            },
            final(self).housing_tier == match housing_tier {
                Some(t) => if 1 <= t <= 4 {
                    t
                } else {
                    old(self).housing_tier
                },
                None => old(self).housing_tier,
            },
    {
        let mut accepted = true;
        if let Some(t) = housing_tier {
            if 1 <= t && t <= 4 {
                self.housing_tier = t;
            } else {
                accepted = false;
            }
        }
        self.population = count;
        accepted
    }
}

/// A food category of the population tables, as far as the defaults read it:
/// its key, its name and the keys of its food items, in the tables' order.
#[derive(Debug, Clone)]
pub struct FoodCategoryKeys {
    pub key: String,
    pub name: String,
    pub item_keys: Vec<String>,
}

/// A food category as plain values: key, name, item keys.
pub type CategoryView = (Seq<char>, Seq<char>, Seq<Seq<char>>);

impl View for FoodCategoryKeys {
    type V = CategoryView;

    open spec fn view(&self) -> CategoryView {
        (self.key@, self.name@, string_views(self.item_keys@))
    }
}

/// The keys of the population tables: the food categories, the services
/// consumed and the waste produced.
#[derive(Debug, Clone)]
pub struct PopulationKeys {
    pub food_categories: Vec<FoodCategoryKeys>,
    pub service_keys: Vec<String>,
    pub waste_keys: Vec<String>,
}

/// The categories, services and wastes as plain values.
pub open spec fn category_views(v: Seq<FoodCategoryKeys>) -> Seq<CategoryView> {
    v.map_values(|c: FoodCategoryKeys| c@)
}

impl View for PopulationKeys {
    type V = (Seq<CategoryView>, Seq<Seq<char>>, Seq<Seq<char>>);

    open spec fn view(&self) -> Self::V {
        (
            category_views(self.food_categories@),
            string_views(self.service_keys@),
            string_views(self.waste_keys@),
        )
    }
}

/// The first category with the given key.
pub open spec fn category_index(cats: Seq<CategoryView>, key: Seq<char>) -> Option<int> {
    if exists|i: int| 0 <= i < cats.len() && cats[i].0 == key {
        Some(
            choose|i: int|
                0 <= i < cats.len() && cats[i].0 == key && forall|j: int|
                    0 <= j < i ==> cats[j].0 != key,
        )
    } else {
        None
    }
}

/// The first element, or the empty text when there is none.
pub open spec fn first_or_empty(items: Seq<Seq<char>>) -> Seq<char> {
    if items.len() > 0 {
        items[0]
    } else {
        Seq::empty()
    }
}

/// The need for a food category.
pub open spec fn food_need(cat: CategoryView, enabled: bool, selected: Seq<char>) -> NeedView {
    ("food:"@ + cat.0, cat.1, NeedKind::Food, enabled, seq![selected])
}

/// The need for a food category of the fixed order, if the tables have it:
/// its default food is chosen when the category offers it, else its first item.
pub open spec fn default_food_need(
    cats: Seq<CategoryView>,
    cat_key: Seq<char>,
    food: Seq<char>,
    enabled: bool,
) -> Seq<NeedView> {
    match category_index(cats, cat_key) {
        Some(i) => seq![
            food_need(
                cats[i],
                enabled,
                if cats[i].2.contains(food) {
                    food
                } else {
                    first_or_empty(cats[i].2)
                },
            ),
        ],
        None => seq![],
    }
}

/// The food categories of the fixed order, in that order: carbs, protein and
/// vitamins on, treats off.
pub open spec fn fixed_food_needs(cats: Seq<CategoryView>) -> Seq<NeedView> {
    default_food_need(cats, "carbs"@, "bread"@, true) + default_food_need(
        cats,
        "protein"@,
        "meat"@,
        true,
    ) + default_food_need(cats, "vitamins"@, "vegetables"@, true) + default_food_need(
        cats,
        "treats"@,
        "snack"@,
        false,
    )
}

/// Whether a food category key belongs to the fixed order.
pub open spec fn is_fixed_food(key: Seq<char>) -> bool {
    key == "carbs"@ || key == "protein"@ || key == "vitamins"@ || key == "treats"@
}

/// The need for a food category outside the fixed order: off, with its first item.
pub open spec fn extra_food_need(cats: Seq<CategoryView>, k: Seq<char>) -> Seq<NeedView> {
    if is_fixed_food(k) {
        seq![]
    } else {
        match category_index(cats, k) {
            Some(i) => seq![food_need(cats[i], false, first_or_empty(cats[i].2))],
            None => seq![],
        }
    }
}

/// The other food categories, in the order of `keys`.
pub open spec fn extra_food_needs(cats: Seq<CategoryView>, keys: Seq<Seq<char>>) -> Seq<NeedView>
    decreases keys.len(),
{
    if keys.len() == 0 {
        Seq::empty()
    } else {
        extra_food_needs(cats, keys.drop_last()) + extra_food_need(cats, keys.last())
    }
}

/// A need that is neither food nor chosen: off, with no items.
pub open spec fn plain_need(prefix: Seq<char>, key: Seq<char>, name: Seq<char>, kind: NeedKind) -> NeedView {
    (prefix + key, name, kind, false, Seq::empty())
}

/// The need for a service of the fixed order, if the tables have it.
pub open spec fn fixed_service_need(services: Seq<Seq<char>>, key: Seq<char>, name: Seq<char>) -> Seq<NeedView> {
    if services.contains(key) {
        seq![plain_need("service:"@, key, name, NeedKind::Service)]
    } else {
        seq![]
    }
}

/// The services of the fixed order, in that order.
pub open spec fn fixed_service_needs(services: Seq<Seq<char>>) -> Seq<NeedView> {
    fixed_service_need(services, "electricity_kw"@, "電力（住宅）"@) + fixed_service_need(
        services,
        "water"@,
        "水"@,
    ) + fixed_service_need(services, "household_goods"@, "家用品"@) + fixed_service_need(
        services,
        "household_appliances"@,
        "家電"@,
    ) + fixed_service_need(services, "luxury_goods"@, "奢侈品"@) + fixed_service_need(
        services,
        "consumer_electronics"@,
        "消費電子"@,
    ) + fixed_service_need(services, "medical_supplies"@, "醫療用品"@) + fixed_service_need(
        services,
        "computing_tflops"@,
        "算力（住宅）"@,
    )
}

/// Whether a service key belongs to the fixed order.
pub open spec fn is_fixed_service(key: Seq<char>) -> bool {
    ||| key == "electricity_kw"@
    ||| key == "water"@
    ||| key == "household_goods"@
    ||| key == "household_appliances"@
    ||| key == "luxury_goods"@
    ||| key == "consumer_electronics"@
    ||| key == "medical_supplies"@
    ||| key == "computing_tflops"@
}

/// The other services, in the order of `keys`, named by their keys; waste
/// water is left to the wastes.
pub open spec fn extra_service_needs(keys: Seq<Seq<char>>) -> Seq<NeedView>
    decreases keys.len(),
{
    if keys.len() == 0 {
        Seq::empty()
    } else {
        let rest = extra_service_needs(keys.drop_last());
        let k = keys.last();
        if k == "waste_water"@ || is_fixed_service(k) {
            rest
        } else {
            rest.push(plain_need("service:"@, k, k, NeedKind::Service))
        }
    }
}

/// Base waste, then waste water (which the tables list among the services).
pub open spec fn fixed_waste_needs(services: Seq<Seq<char>>, wastes: Seq<Seq<char>>) -> Seq<NeedView> {
    (if wastes.contains("base_waste"@) {
        seq![plain_need("waste:"@, "base_waste"@, "廢棄物"@, NeedKind::Waste)]
    } else {
        seq![]
    }) + (if services.contains("waste_water"@) {
        seq![plain_need("waste:"@, "waste_water"@, "廢水"@, NeedKind::Waste)]
    } else {
        seq![]
    })
}

/// The other wastes, in the order of `keys`, named by their keys.
pub open spec fn extra_waste_needs(keys: Seq<Seq<char>>) -> Seq<NeedView>
    decreases keys.len(),
{
    if keys.len() == 0 {
        Seq::empty()
    } else {
        let rest = extra_waste_needs(keys.drop_last());
        let k = keys.last();
        if k == "base_waste"@ {
            rest
        } else {
            rest.push(plain_need("waste:"@, k, k, NeedKind::Waste))
        }
    }
}

/// The default needs: the fixed food categories, the other categories by key,
/// the fixed services, the other services by key, the fixed wastes and the
/// other wastes by key.
pub open spec fn default_needs_spec(
    data: (Seq<CategoryView>, Seq<Seq<char>>, Seq<Seq<char>>),
) -> Seq<NeedView> {
    let (cats, services, wastes) = data;
    fixed_food_needs(cats) + extra_food_needs(
        cats,
        sorted_texts_spec(cats.map_values(|c: CategoryView| c.0)),
    ) + fixed_service_needs(services) + extra_service_needs(sorted_texts_spec(services))
        + fixed_waste_needs(services, wastes) + extra_waste_needs(sorted_texts_spec(wastes))
}

/// Copies the characters of each string.
fn chars_list(v: &Vec<String>) -> (out: Vec<Vec<char>>)
    ensures
        views_of(out@) == string_views(v@),
{
    let mut out: Vec<Vec<char>> = Vec::new();
    let mut i: usize = 0;
    while i < v.len()
        invariant
            i <= v@.len(),
            views_of(out@) == string_views(v@.take(i as int)),
        decreases v@.len() - i,
    {
        let c = chars_of(v[i].as_str());
        out.push(c);
        proof {
            assert(v@.take(i + 1) =~= v@.take(i as int).push(v@[i as int]));
            assert(string_views(v@.take(i + 1)) =~= string_views(v@.take(i as int)).push(v@[i as int]@));
            assert(views_of(out@) =~= views_of(out@.drop_last()).push(c@));
        }
        i = i + 1;
    }
    proof {
        assert(v@.take(i as int) =~= v@);
    }
    out
}

/// Whether one of the strings equals the literal.
fn contains_text(v: &Vec<String>, lit: &str) -> (found: bool)
    ensures
        found == string_views(v@).contains(lit@),
{
    let target = chars_of(lit);
    let mut i: usize = 0;
    while i < v.len()
        invariant
            i <= v@.len(),
            target@ == lit@,
            forall|j: int| 0 <= j < i ==> v@[j]@ != lit@,
        decreases v@.len() - i,
    {
        let c = chars_of(v[i].as_str());
        if crate::text::chars_equal(&c, &target) {
            proof {
                assert(string_views(v@)[i as int] == lit@);
            }
            return true;
        }
        i = i + 1;
    }
    proof {
        if string_views(v@).contains(lit@) {
            let j = choose|j: int| 0 <= j < string_views(v@).len() && string_views(v@)[j] == lit@;
            assert(v@[j]@ == lit@);
        }
    }
    false
}

/// Whether one of the strings equals the given characters.
fn contains_chars(v: &Vec<String>, key: &Vec<char>) -> (found: bool)
    ensures
        found == string_views(v@).contains(key@),
{
    let mut i: usize = 0;
    while i < v.len()
        invariant
            i <= v@.len(),
            forall|j: int| 0 <= j < i ==> v@[j]@ != key@,
        decreases v@.len() - i,
    {
        let c = chars_of(v[i].as_str());
        if crate::text::chars_equal(&c, key) {
            proof {
                assert(string_views(v@)[i as int] == key@);
            }
            return true;
        }
        i = i + 1;
    }
    proof {
        if string_views(v@).contains(key@) {
            let j = choose|j: int| 0 <= j < string_views(v@).len() && string_views(v@)[j] == key@;
            assert(v@[j]@ == key@);
        }
    }
    false
}

/// The position of the first category with the given key.
fn category_position(cats: &Vec<FoodCategoryKeys>, key: &Vec<char>) -> (pos: Option<usize>)
    ensures
        match pos {
            Some(i) => {
            &&& i < cats@.len()
            &&& category_views(cats@)[i as int].0 == key@
            &&& category_index(category_views(cats@), key@) == Some(i as int)
        },
            None => category_index(category_views(cats@), key@) is None,
        },
{
    let ghost views = category_views(cats@);
    let mut i: usize = 0;
    while i < cats.len()
        invariant
            i <= cats@.len(),
            views == category_views(cats@),
            forall|j: int| 0 <= j < i ==> views[j].0 != key@,
        decreases cats@.len() - i,
    {
        let c = chars_of(cats[i].key.as_str());
        if crate::text::chars_equal(&c, key) {
            proof {
                assert(views[i as int].0 == key@);
                let k = choose|k: int|
                    0 <= k < views.len() && views[k].0 == key@ && forall|j: int|
                        0 <= j < k ==> views[j].0 != key@;
                if k < i {
                } else if k > i {
                    assert(views[i as int].0 != key@);
                }
                assert(k == i);
            }
            return Some(i);
        }
        i = i + 1;
    }
    None
}

/// A string made of a literal prefix and the given characters.
fn prefixed(prefix: &str, key: &Vec<char>) -> (s: String)
    ensures
        s@ == prefix@ + key@,
{
    let mut chars = chars_of(prefix);
    let mut i: usize = 0;
    while i < key.len()
        invariant
            i <= key@.len(),
            chars@ == prefix@ + key@.take(i as int),
        decreases key@.len() - i,
    {
        chars.push(key[i]);
        proof {
            assert(key@.take(i + 1) =~= key@.take(i as int).push(key@[i as int]));
        }
        i = i + 1;
    }
    proof {
        assert(key@.take(i as int) =~= key@);
    }
    string_from_chars(&chars)
}

/// The first string, or the empty one.
fn first_or_empty_string(v: &Vec<String>) -> (s: String)
    ensures
        s@ == first_or_empty(string_views(v@)),
{
    if v.len() > 0 {
        v[0].clone()
    } else {
        String::new()
    }
}

/// A single need as a vector.
fn one_need(need: PopulationNeed) -> (v: Vec<PopulationNeed>)
    ensures
        need_views(v@) == seq![need@],
{
    let mut v: Vec<PopulationNeed> = Vec::new();
    v.push(need);
    assert(need_views(v@) =~= seq![need@]);
    v
}

/// A need that is off and has no items.
fn make_plain_need(prefix: &str, key: &Vec<char>, name: String, kind: NeedKind) -> (n: PopulationNeed)
    ensures
        n@ == plain_need(prefix@, key@, name@, kind),
{
    let n = PopulationNeed {
        key: prefixed(prefix, key),
        name,
        kind,
        enabled: false,
        selected_items: Vec::new(),
    };
    assert(string_views(n.selected_items@) =~= Seq::empty());
    n
}

/// The need for a food category, with one chosen item.
fn make_food_need(cat: &FoodCategoryKeys, enabled: bool, selected: String) -> (n: PopulationNeed)
    ensures
        n@ == food_need(cat@, enabled, selected@),
{
    let mut items: Vec<String> = Vec::new();
    items.push(selected);
    let n = PopulationNeed {
        key: prefixed("food:", &chars_of(cat.key.as_str())),
        name: cat.name.clone(),
        kind: NeedKind::Food,
        enabled,
        selected_items: items,
    };
    assert(string_views(n.selected_items@) =~= seq![selected@]);
    n
}

/// The need for a food category of the fixed order, if the tables have it.
fn default_food_need_exec(
    cats: &Vec<FoodCategoryKeys>,
    cat_key: &str,
    food: &str,
    enabled: bool,
) -> (v: Vec<PopulationNeed>)
    ensures
        need_views(v@) == default_food_need(category_views(cats@), cat_key@, food@, enabled),
{
    let key = chars_of(cat_key);
    match category_position(cats, &key) {
        Some(i) => {
            let cat = &cats[i];
            let selected = if contains_text(&cat.item_keys, food) {
                string_from_chars(&chars_of(food))
            } else {
                first_or_empty_string(&cat.item_keys)
            };
            proof {
                assert(category_views(cats@)[i as int] == cat@);
            }
            one_need(make_food_need(cat, enabled, selected))
        },
        None => {
            let v: Vec<PopulationNeed> = Vec::new();
            assert(need_views(v@) =~= Seq::empty());
            v
        },
    }
}

/// The need for a service of the fixed order, if the tables have it.
fn fixed_service_need_exec(services: &Vec<String>, key: &str, name: &str) -> (v: Vec<PopulationNeed>)
    ensures
        need_views(v@) == fixed_service_need(string_views(services@), key@, name@),
{
    if contains_text(services, key) {
        let need = make_plain_need(
            "service:",
            &chars_of(key),
            string_from_chars(&chars_of(name)),
            NeedKind::Service,
        );
        one_need(need)
    } else {
        let v: Vec<PopulationNeed> = Vec::new();
        assert(need_views(v@) =~= Seq::empty());
        v
    }
}

/// Appends `more` to `needs`.
fn append_needs(needs: &mut Vec<PopulationNeed>, more: Vec<PopulationNeed>)
    ensures
        need_views(final(needs)@) == need_views(old(needs)@) + need_views(more@),
{
    let mut more = more;
    let ghost added = more@;
    needs.append(&mut more);
    assert(need_views(needs@) =~= need_views(old(needs)@) + need_views(added));
}

/// Whether a food category key belongs to the fixed order.
fn is_fixed_food_exec(key: &Vec<char>) -> (b: bool)
    ensures
        b == is_fixed_food(key@),
{
    is_word(key, "carbs") || is_word(key, "protein") || is_word(key, "vitamins") || is_word(
        key,
        "treats",
    )
}

/// Whether a service key belongs to the fixed order.
fn is_fixed_service_exec(key: &Vec<char>) -> (b: bool)
    ensures
        b == is_fixed_service(key@),
{
    is_word(key, "electricity_kw") || is_word(key, "water") || is_word(key, "household_goods")
        || is_word(key, "household_appliances") || is_word(key, "luxury_goods") || is_word(
        key,
        "consumer_electronics",
    ) || is_word(key, "medical_supplies") || is_word(key, "computing_tflops")
}

/// The need for a food category outside the fixed order.
fn extra_food_need_exec(cats: &Vec<FoodCategoryKeys>, k: &Vec<char>) -> (v: Vec<PopulationNeed>)
    ensures
        need_views(v@) == extra_food_need(category_views(cats@), k@),
{
    let empty: Vec<PopulationNeed> = Vec::new();
    assert(need_views(empty@) =~= Seq::empty());
    if is_fixed_food_exec(k) {
        return empty;
    }
    match category_position(cats, k) {
        Some(p) => {
            let cat = &cats[p];
            let first = first_or_empty_string(&cat.item_keys);
            proof {
                assert(category_views(cats@)[p as int] == cat@);
            }
            one_need(make_food_need(cat, false, first))
        },
        None => empty,
    }
}

/// The other food categories, in key order.
fn extra_food_needs_exec(cats: &Vec<FoodCategoryKeys>) -> (v: Vec<PopulationNeed>)
    ensures
        need_views(v@) == extra_food_needs(
            category_views(cats@),
            sorted_texts_spec(category_views(cats@).map_values(|c: CategoryView| c.0)),
        ),
{
    let ghost views = category_views(cats@);
    let mut keys: Vec<Vec<char>> = Vec::new();
    let mut j: usize = 0;
    while j < cats.len()
        invariant
            j <= cats@.len(),
            views == category_views(cats@),
            views_of(keys@) == views.take(j as int).map_values(|c: CategoryView| c.0),
        decreases cats@.len() - j,
    {
        let k = chars_of(cats[j].key.as_str());
        keys.push(k);
        proof {
            assert(views_of(keys@) =~= views_of(keys@.drop_last()).push(k@));
            assert(views.take(j + 1).map_values(|c: CategoryView| c.0) =~= views.take(
                j as int,
            ).map_values(|c: CategoryView| c.0).push(views[j as int].0));
        }
        j = j + 1;
    }
    proof {
        assert(views.take(j as int) =~= views);
    }
    let sorted = sort_texts(&keys);
    let ghost order = views_of(sorted@);
    let mut out: Vec<PopulationNeed> = Vec::new();
    let mut i: usize = 0;
    while i < sorted.len()
        invariant
            i <= sorted@.len(),
            views == category_views(cats@),
            order == views_of(sorted@),
            need_views(out@) == extra_food_needs(views, order.take(i as int)),
        decreases sorted@.len() - i,
    {
        let k = &sorted[i];
        proof {
            assert(order.take(i + 1).drop_last() =~= order.take(i as int));
            assert(order.take(i + 1).last() == k@);
        }
        append_needs(&mut out, extra_food_need_exec(cats, k));
        i = i + 1;
    }
    proof {
        assert(order.take(i as int) =~= order);
    }
    out
}

/// The other services, in key order.
fn extra_service_needs_exec(services: &Vec<String>) -> (v: Vec<PopulationNeed>)
    ensures
        need_views(v@) == extra_service_needs(sorted_texts_spec(string_views(services@))),
{
    let sorted = sort_texts(&chars_list(services));
    let ghost order = views_of(sorted@);
    let mut out: Vec<PopulationNeed> = Vec::new();
    let mut i: usize = 0;
    while i < sorted.len()
        invariant
            i <= sorted@.len(),
            order == views_of(sorted@),
            need_views(out@) == extra_service_needs(order.take(i as int)),
        decreases sorted@.len() - i,
    {
        let k = &sorted[i];
        proof {
            assert(order.take(i + 1).drop_last() =~= order.take(i as int));
            assert(order.take(i + 1).last() == k@);
        }
        if !is_word(k, "waste_water") && !is_fixed_service_exec(k) {
            let need = make_plain_need("service:", k, string_from_chars(k), NeedKind::Service);
            let ghost before = need_views(out@);
            out.push(need);
            proof {
                assert(need_views(out@) =~= before.push(need@));
            }
        }
        i = i + 1;
    }
    proof {
        assert(order.take(i as int) =~= order);
    }
    out
}

/// The other wastes, in key order.
fn extra_waste_needs_exec(wastes: &Vec<String>) -> (v: Vec<PopulationNeed>)
    ensures
        need_views(v@) == extra_waste_needs(sorted_texts_spec(string_views(wastes@))),
{
    let sorted = sort_texts(&chars_list(wastes));
    let ghost order = views_of(sorted@);
    let mut out: Vec<PopulationNeed> = Vec::new();
    let mut i: usize = 0;
    while i < sorted.len()
        invariant
            i <= sorted@.len(),
            order == views_of(sorted@),
            need_views(out@) == extra_waste_needs(order.take(i as int)),
        decreases sorted@.len() - i,
    {
        let k = &sorted[i];
        proof {
            assert(order.take(i + 1).drop_last() =~= order.take(i as int));
            assert(order.take(i + 1).last() == k@);
        }
        if !is_word(k, "base_waste") {
            let need = make_plain_need("waste:", k, string_from_chars(k), NeedKind::Waste);
            let ghost before = need_views(out@);
            out.push(need);
            proof {
                assert(need_views(out@) =~= before.push(need@));
            }
        }
        i = i + 1;
    }
    proof {
        assert(order.take(i as int) =~= order);
    }
    out
}

/// Base waste and waste water, where the tables have them.
fn fixed_waste_needs_exec(services: &Vec<String>, wastes: &Vec<String>) -> (v: Vec<PopulationNeed>)
    ensures
        need_views(v@) == fixed_waste_needs(string_views(services@), string_views(wastes@)),
{
    let mut out: Vec<PopulationNeed> = Vec::new();
    proof {
        assert(need_views(out@) =~= Seq::empty());
    }
    if contains_text(wastes, "base_waste") {
        let need = make_plain_need(
            "waste:",
            &chars_of("base_waste"),
            string_from_chars(&chars_of("廢棄物")),
            NeedKind::Waste,
        );
        append_needs(&mut out, one_need(need));
    }
    let ghost first = need_views(out@);
    if contains_text(services, "waste_water") {
        let need = make_plain_need(
            "waste:",
            &chars_of("waste_water"),
            string_from_chars(&chars_of("廢水")),
            NeedKind::Waste,
        );
        append_needs(&mut out, one_need(need));
    } else {
        assert(need_views(out@) =~= first + Seq::empty());
    }
    out
}

impl PopulationSettings {
    /// The default needs for the given population tables: carbs, protein and
    /// vitamins on, treats off, every service and every waste off. The fixed
    /// food categories, services and wastes come in their fixed order, the
    /// others after them in key order.
    pub fn build_default_needs(pop_data: &PopulationKeys) -> (needs: Vec<PopulationNeed>)
        ensures
            need_views(needs@) == default_needs_spec(pop_data@),
    {
        let cats = &pop_data.food_categories;
        let services = &pop_data.service_keys;
        let wastes = &pop_data.waste_keys;
        let mut needs: Vec<PopulationNeed> = Vec::new();
        proof {
            assert(need_views(needs@) =~= Seq::empty());
        }
        append_needs(&mut needs, default_food_need_exec(cats, "carbs", "bread", true));
        append_needs(&mut needs, default_food_need_exec(cats, "protein", "meat", true));
        append_needs(&mut needs, default_food_need_exec(cats, "vitamins", "vegetables", true));
        append_needs(&mut needs, default_food_need_exec(cats, "treats", "snack", false));
        append_needs(&mut needs, extra_food_needs_exec(cats));
        append_needs(&mut needs, fixed_service_need_exec(services, "electricity_kw", "電力（住宅）"));
        append_needs(&mut needs, fixed_service_need_exec(services, "water", "水"));
        append_needs(&mut needs, fixed_service_need_exec(services, "household_goods", "家用品"));
        append_needs(&mut needs, fixed_service_need_exec(services, "household_appliances", "家電"));
        append_needs(&mut needs, fixed_service_need_exec(services, "luxury_goods", "奢侈品"));
        append_needs(&mut needs, fixed_service_need_exec(services, "consumer_electronics", "消費電子"));
        append_needs(&mut needs, fixed_service_need_exec(services, "medical_supplies", "醫療用品"));
        append_needs(&mut needs, fixed_service_need_exec(services, "computing_tflops", "算力（住宅）"));
        append_needs(&mut needs, extra_service_needs_exec(services));
        append_needs(&mut needs, fixed_waste_needs_exec(services, wastes));
        append_needs(&mut needs, extra_waste_needs_exec(wastes));
        proof {
            let d = pop_data@;
            assert(need_views(needs@) =~= default_needs_spec(d));
        }
        needs
    }
}

/// The keys of a sequence of needs.
pub open spec fn need_keys(needs: Seq<NeedView>) -> Seq<Seq<char>> {
    needs.map_values(|n: NeedView| n.0)
}

/// `key` starts with `prefix`.
pub open spec fn has_prefix(key: Seq<char>, prefix: Seq<char>) -> bool {
    prefix.len() <= key.len() && key.take(prefix.len() as int) == prefix
}

/// What follows `prefix` in `key`.
pub open spec fn after_prefix(key: Seq<char>, prefix: Seq<char>) -> Seq<char> {
    key.skip(prefix.len() as int)
}

/// Every key of `needs` satisfies `p`.
spec fn all_keys(needs: Seq<NeedView>, p: spec_fn(Seq<char>) -> bool) -> bool {
    forall|i: int| 0 <= i < needs.len() ==> p(#[trigger] needs[i].0)
}

proof fn lemma_prefixed(p: Seq<char>, s: Seq<char>)
    ensures
        has_prefix(p + s, p),
        after_prefix(p + s, p) == s,
{
    assert((p + s).take(p.len() as int) =~= p);
    assert((p + s).skip(p.len() as int) =~= s);
}

proof fn lemma_prefixes_exclusive(k: Seq<char>, p: Seq<char>, q: Seq<char>)
    requires
        p.len() > 0,
        q.len() > 0,
        p[0] != q[0],
        has_prefix(k, p),
    ensures
        !has_prefix(k, q),
{
    assert(k.take(p.len() as int)[0] == k[0]);
    if has_prefix(k, q) {
        assert(k.take(q.len() as int)[0] == k[0]);
    }
}

proof fn lemma_all_keys_weaken(needs: Seq<NeedView>, p: spec_fn(Seq<char>) -> bool, q: spec_fn(Seq<char>) -> bool)
    requires
        all_keys(needs, p),
        forall|k: Seq<char>| #[trigger] p(k) ==> q(k),
    ensures
        all_keys(needs, q),
{
    assert forall|i: int| 0 <= i < needs.len() implies q(#[trigger] needs[i].0) by {
        assert(p(needs[i].0));
    }
}

proof fn lemma_all_keys_concat(a: Seq<NeedView>, b: Seq<NeedView>, pa: spec_fn(Seq<char>) -> bool, pb: spec_fn(Seq<char>) -> bool)
    requires
        all_keys(a, pa),
        all_keys(b, pb),
    ensures
        all_keys(a + b, |k: Seq<char>| pa(k) || pb(k)),
{
    let ab = a + b;
    assert forall|i: int| 0 <= i < ab.len() implies (|k: Seq<char>| pa(k) || pb(k))(#[trigger] ab[i].0) by {
        if i < a.len() {
            assert(ab[i] == a[i]);
            assert(pa(a[i].0));
        } else {
            assert(ab[i] == b[i - a.len()]);
            assert(pb(b[i - a.len()].0));
        }
    }
}

proof fn lemma_no_dup_concat(a: Seq<NeedView>, b: Seq<NeedView>, pa: spec_fn(Seq<char>) -> bool, pb: spec_fn(Seq<char>) -> bool)
    requires
        need_keys(a).no_duplicates(),
        need_keys(b).no_duplicates(),
        all_keys(a, pa),
        all_keys(b, pb),
        forall|k: Seq<char>| #[trigger] pa(k) ==> !pb(k),
    ensures
        need_keys(a + b).no_duplicates(),
{
    let ka = need_keys(a);
    let kb = need_keys(b);
    assert(need_keys(a + b) =~= ka + kb);
    assert forall|i: int, j: int| 0 <= i < ka.len() && 0 <= j < kb.len() implies ka[i] != kb[j] by {
        assert(pa(a[i].0));
        assert(pb(b[j].0));
    }
    vstd::seq_lib::lemma_no_dup_in_concat(ka, kb);
}

proof fn lemma_short_no_dup(needs: Seq<NeedView>)
    requires
        needs.len() <= 1,
    ensures
        need_keys(needs).no_duplicates(),
{
}

/// Facts about the literals of the fixed orders.
proof fn lemma_fixed_literals()
    ensures
        "food:"@.len() > 0 && "service:"@.len() > 0 && "waste:"@.len() > 0,
        "food:"@[0] != "service:"@[0],
        "food:"@[0] != "waste:"@[0],
        "service:"@[0] != "waste:"@[0],
        "carbs"@ != "protein"@ && "carbs"@ != "vitamins"@ && "carbs"@ != "treats"@,
        "protein"@ != "vitamins"@ && "protein"@ != "treats"@ && "vitamins"@ != "treats"@,
        "base_waste"@ != "waste_water"@,
        "electricity_kw"@.len() == 14,
        "water"@.len() == 5,
        "household_goods"@.len() == 15,
        "household_appliances"@.len() == 20,
        "luxury_goods"@.len() == 12,
        "consumer_electronics"@.len() == 20,
        "medical_supplies"@.len() == 16,
        "computing_tflops"@.len() == 16,
        "household_appliances"@ != "consumer_electronics"@,
        "medical_supplies"@ != "computing_tflops"@,
{
    reveal_strlit("food:");
    reveal_strlit("service:");
    reveal_strlit("waste:");
    reveal_strlit("carbs");
    reveal_strlit("protein");
    reveal_strlit("vitamins");
    reveal_strlit("treats");
    reveal_strlit("base_waste");
    reveal_strlit("waste_water");
    reveal_strlit("electricity_kw");
    reveal_strlit("water");
    reveal_strlit("household_goods");
    reveal_strlit("household_appliances");
    reveal_strlit("luxury_goods");
    reveal_strlit("consumer_electronics");
    reveal_strlit("medical_supplies");
    reveal_strlit("computing_tflops");
    assert("carbs"@.len() == 5 && "protein"@.len() == 7 && "vitamins"@.len() == 8 && "treats"@.len() == 6);
    assert("base_waste"@.len() == 10 && "waste_water"@.len() == 11);
    assert("household_appliances"@[0] != "consumer_electronics"@[0]);
    assert("medical_supplies"@[0] != "computing_tflops"@[0]);
}

proof fn lemma_first_match(cats: Seq<CategoryView>, key: Seq<char>, n: int)
    requires
        0 <= n <= cats.len(),
        exists|i: int| 0 <= i < n && cats[i].0 == key,
    ensures
        exists|i: int| 0 <= i < n && cats[i].0 == key && forall|j: int| 0 <= j < i ==> cats[j].0 != key,
    decreases n,
{
    if exists|i: int| 0 <= i < n - 1 && cats[i].0 == key {
        lemma_first_match(cats, key, n - 1);
    } else {
        assert(cats[n - 1].0 == key);
        assert(forall|j: int| 0 <= j < n - 1 ==> cats[j].0 != key);
    }
}

proof fn lemma_category_index(cats: Seq<CategoryView>, key: Seq<char>)
    ensures
        category_index(cats, key) matches Some(i) ==> 0 <= i < cats.len() && cats[i].0 == key,
{
    if exists|i: int| 0 <= i < cats.len() && cats[i].0 == key {
        lemma_first_match(cats, key, cats.len() as int);
    }
}

/// The need for a food category of the fixed order has key `food:` and the
/// category key.
proof fn lemma_default_food_need_keys(cats: Seq<CategoryView>, lit: Seq<char>, food: Seq<char>, enabled: bool)
    ensures
        default_food_need(cats, lit, food, enabled).len() <= 1,
        all_keys(default_food_need(cats, lit, food, enabled), |k: Seq<char>| k == "food:"@ + lit),
{
    lemma_category_index(cats, lit);
}

/// A fixed service need has key `service:` and the service key.
proof fn lemma_fixed_service_need_keys(services: Seq<Seq<char>>, lit: Seq<char>, name: Seq<char>)
    ensures
        fixed_service_need(services, lit, name).len() <= 1,
        all_keys(fixed_service_need(services, lit, name), |k: Seq<char>| k == "service:"@ + lit),
{
}

/// A key made of `prefix` and a suffix that `allowed` admits.
spec fn prefixed_key(k: Seq<char>, prefix: Seq<char>, allowed: spec_fn(Seq<char>) -> bool) -> bool {
    has_prefix(k, prefix) && allowed(after_prefix(k, prefix))
}

proof fn lemma_fixed_food_keys(cats: Seq<CategoryView>)
    ensures
        need_keys(fixed_food_needs(cats)).no_duplicates(),
        all_keys(fixed_food_needs(cats), |k: Seq<char>| prefixed_key(k, "food:"@, |s: Seq<char>| is_fixed_food(s))),
{
    lemma_fixed_literals();
    let f = "food:"@;
    let d1 = default_food_need(cats, "carbs"@, "bread"@, true);
    let d2 = default_food_need(cats, "protein"@, "meat"@, true);
    let d3 = default_food_need(cats, "vitamins"@, "vegetables"@, true);
    let d4 = default_food_need(cats, "treats"@, "snack"@, false);
    lemma_default_food_need_keys(cats, "carbs"@, "bread"@, true);
    lemma_default_food_need_keys(cats, "protein"@, "meat"@, true);
    lemma_default_food_need_keys(cats, "vitamins"@, "vegetables"@, true);
    lemma_default_food_need_keys(cats, "treats"@, "snack"@, false);
    lemma_short_no_dup(d1);
    lemma_short_no_dup(d2);
    lemma_short_no_dup(d3);
    lemma_short_no_dup(d4);
    lemma_prefixed(f, "carbs"@);
    lemma_prefixed(f, "protein"@);
    lemma_prefixed(f, "vitamins"@);
    lemma_prefixed(f, "treats"@);
    let p1 = |k: Seq<char>| k == f + "carbs"@;
    let p2 = |k: Seq<char>| k == f + "protein"@;
    let p3 = |k: Seq<char>| k == f + "vitamins"@;
    let p4 = |k: Seq<char>| k == f + "treats"@;
    lemma_no_dup_concat(d1, d2, p1, p2);
    lemma_all_keys_concat(d1, d2, p1, p2);
    let p12 = |k: Seq<char>| p1(k) || p2(k);
    lemma_no_dup_concat(d1 + d2, d3, p12, p3);
    lemma_all_keys_concat(d1 + d2, d3, p12, p3);
    let p123 = |k: Seq<char>| p12(k) || p3(k);
    lemma_no_dup_concat(d1 + d2 + d3, d4, p123, p4);
    lemma_all_keys_concat(d1 + d2 + d3, d4, p123, p4);
    let all = |k: Seq<char>| p123(k) || p4(k);
    assert(fixed_food_needs(cats) == d1 + d2 + d3 + d4);
    lemma_all_keys_weaken(
        d1 + d2 + d3 + d4,
        all,
        |k: Seq<char>| prefixed_key(k, "food:"@, |s: Seq<char>| is_fixed_food(s)),
    );
}

proof fn lemma_fixed_service_keys(services: Seq<Seq<char>>)
    ensures
        need_keys(fixed_service_needs(services)).no_duplicates(),
        all_keys(
            fixed_service_needs(services),
            |k: Seq<char>| prefixed_key(k, "service:"@, |s: Seq<char>| is_fixed_service(s)),
        ),
{
    lemma_fixed_literals();
    let sv = "service:"@;
    let d0 = fixed_service_need(services, "electricity_kw"@, "電力（住宅）"@);
    lemma_fixed_service_need_keys(services, "electricity_kw"@, "電力（住宅）"@);
    lemma_short_no_dup(d0);
    lemma_prefixed(sv, "electricity_kw"@);
    let p0 = |k: Seq<char>| k == sv + "electricity_kw"@;
    let d1 = fixed_service_need(services, "water"@, "水"@);
    lemma_fixed_service_need_keys(services, "water"@, "水"@);
    lemma_short_no_dup(d1);
    lemma_prefixed(sv, "water"@);
    let p1 = |k: Seq<char>| k == sv + "water"@;
    let d2 = fixed_service_need(services, "household_goods"@, "家用品"@);
    lemma_fixed_service_need_keys(services, "household_goods"@, "家用品"@);
    lemma_short_no_dup(d2);
    lemma_prefixed(sv, "household_goods"@);
    let p2 = |k: Seq<char>| k == sv + "household_goods"@;
    let d3 = fixed_service_need(services, "household_appliances"@, "家電"@);
    lemma_fixed_service_need_keys(services, "household_appliances"@, "家電"@);
    lemma_short_no_dup(d3);
    lemma_prefixed(sv, "household_appliances"@);
    let p3 = |k: Seq<char>| k == sv + "household_appliances"@;
    let d4 = fixed_service_need(services, "luxury_goods"@, "奢侈品"@);
    lemma_fixed_service_need_keys(services, "luxury_goods"@, "奢侈品"@);
    lemma_short_no_dup(d4);
    lemma_prefixed(sv, "luxury_goods"@);
    let p4 = |k: Seq<char>| k == sv + "luxury_goods"@;
    let d5 = fixed_service_need(services, "consumer_electronics"@, "消費電子"@);
    lemma_fixed_service_need_keys(services, "consumer_electronics"@, "消費電子"@);
    lemma_short_no_dup(d5);
    lemma_prefixed(sv, "consumer_electronics"@);
    let p5 = |k: Seq<char>| k == sv + "consumer_electronics"@;
    let d6 = fixed_service_need(services, "medical_supplies"@, "醫療用品"@);
    lemma_fixed_service_need_keys(services, "medical_supplies"@, "醫療用品"@);
    lemma_short_no_dup(d6);
    lemma_prefixed(sv, "medical_supplies"@);
    let p6 = |k: Seq<char>| k == sv + "medical_supplies"@;
    let d7 = fixed_service_need(services, "computing_tflops"@, "算力（住宅）"@);
    lemma_fixed_service_need_keys(services, "computing_tflops"@, "算力（住宅）"@);
    lemma_short_no_dup(d7);
    lemma_prefixed(sv, "computing_tflops"@);
    let p7 = |k: Seq<char>| k == sv + "computing_tflops"@;
    let acc0 = d0;
    let q0 = p0;
    lemma_no_dup_concat(acc0, d1, q0, p1);
    lemma_all_keys_concat(acc0, d1, q0, p1);
    let acc1 = acc0 + d1;
    let q1 = |k: Seq<char>| q0(k) || p1(k);
    lemma_no_dup_concat(acc1, d2, q1, p2);
    lemma_all_keys_concat(acc1, d2, q1, p2);
    let acc2 = acc1 + d2;
    let q2 = |k: Seq<char>| q1(k) || p2(k);
    lemma_no_dup_concat(acc2, d3, q2, p3);
    lemma_all_keys_concat(acc2, d3, q2, p3);
    let acc3 = acc2 + d3;
    let q3 = |k: Seq<char>| q2(k) || p3(k);
    lemma_no_dup_concat(acc3, d4, q3, p4);
    lemma_all_keys_concat(acc3, d4, q3, p4);
    let acc4 = acc3 + d4;
    let q4 = |k: Seq<char>| q3(k) || p4(k);
    lemma_no_dup_concat(acc4, d5, q4, p5);
    lemma_all_keys_concat(acc4, d5, q4, p5);
    let acc5 = acc4 + d5;
    let q5 = |k: Seq<char>| q4(k) || p5(k);
    lemma_no_dup_concat(acc5, d6, q5, p6);
    lemma_all_keys_concat(acc5, d6, q5, p6);
    let acc6 = acc5 + d6;
    let q6 = |k: Seq<char>| q5(k) || p6(k);
    lemma_no_dup_concat(acc6, d7, q6, p7);
    lemma_all_keys_concat(acc6, d7, q6, p7);
    let acc7 = acc6 + d7;
    let q7 = |k: Seq<char>| q6(k) || p7(k);
    assert(fixed_service_needs(services) == acc7);
    lemma_all_keys_weaken(
        acc7,
        q7,
        |k: Seq<char>| prefixed_key(k, "service:"@, |s: Seq<char>| is_fixed_service(s)),
    );
}

proof fn lemma_extra_food_keys(cats: Seq<CategoryView>, keys: Seq<Seq<char>>)
    ensures
        all_keys(extra_food_needs(cats, keys), |k: Seq<char>| prefixed_key(k, "food:"@, |s: Seq<char>| !is_fixed_food(s) && keys.contains(s))),
        keys.no_duplicates() ==> need_keys(extra_food_needs(cats, keys)).no_duplicates(),
    decreases keys.len(),
{
    if keys.len() > 0 {
        let init = keys.drop_last();
        let last = keys.last();
        lemma_extra_food_keys(cats, init);
        let rest = extra_food_needs(cats, init);
        let one = extra_food_needs(cats, keys).skip(rest.len() as int);
        assert(extra_food_needs(cats, keys) == rest + one);
        lemma_category_index(cats, last);
        lemma_prefixed("food:"@, last);
        let p_rest = |k: Seq<char>| prefixed_key(k, "food:"@, |s: Seq<char>| !is_fixed_food(s) && init.contains(s));
        let p_one = |k: Seq<char>| k == "food:"@ + last && !is_fixed_food(last);
        assert(one.len() <= 1);
        assert(all_keys(one, p_one));
        lemma_all_keys_concat(rest, one, p_rest, p_one);
        let p_both = |k: Seq<char>| p_rest(k) || p_one(k);
        assert forall|k: Seq<char>| #[trigger] p_both(k) implies prefixed_key(k, "food:"@, |s: Seq<char>| !is_fixed_food(s) && keys.contains(s)) by {
            let s = after_prefix(k, "food:"@);
            if p_rest(k) {
                let j = choose|j: int| 0 <= j < init.len() && init[j] == s;
                assert(keys[j] == s);
            } else {
                assert(keys[keys.len() - 1] == s);
            }
        }
        lemma_all_keys_weaken(rest + one, p_both, |k: Seq<char>| prefixed_key(k, "food:"@, |s: Seq<char>| !is_fixed_food(s) && keys.contains(s)));
        if keys.no_duplicates() {
            assert(init.no_duplicates()) by {
                assert forall|a: int, b: int| 0 <= a < init.len() && 0 <= b < init.len() && a != b implies init[a] != init[b] by {
                    assert(init[a] == keys[a] && init[b] == keys[b]);
                }
            }
            lemma_short_no_dup(one);
            assert forall|k: Seq<char>| #[trigger] p_rest(k) implies !p_one(k) by {
                if p_one(k) {
                    let j = choose|j: int| 0 <= j < init.len() && init[j] == last;
                    assert(keys[j] == keys[keys.len() - 1]);
                }
            }
            lemma_no_dup_concat(rest, one, p_rest, p_one);
        }
    }
}

proof fn lemma_extra_service_keys(keys: Seq<Seq<char>>)
    ensures
        all_keys(extra_service_needs(keys), |k: Seq<char>| prefixed_key(k, "service:"@, |s: Seq<char>| !(s == "waste_water"@ || is_fixed_service(s)) && keys.contains(s))),
        keys.no_duplicates() ==> need_keys(extra_service_needs(keys)).no_duplicates(),
    decreases keys.len(),
{
    if keys.len() > 0 {
        let init = keys.drop_last();
        let last = keys.last();
        lemma_extra_service_keys(init);
        let rest = extra_service_needs(init);
        let one = extra_service_needs(keys).skip(rest.len() as int);
        assert(extra_service_needs(keys) == rest + one);
        lemma_prefixed("service:"@, last);
        let p_rest = |k: Seq<char>| prefixed_key(k, "service:"@, |s: Seq<char>| !(s == "waste_water"@ || is_fixed_service(s)) && init.contains(s));
        let p_one = |k: Seq<char>| k == "service:"@ + last && !(last == "waste_water"@ || is_fixed_service(last));
        assert(one.len() <= 1);
        assert(all_keys(one, p_one));
        lemma_all_keys_concat(rest, one, p_rest, p_one);
        let p_both = |k: Seq<char>| p_rest(k) || p_one(k);
        assert forall|k: Seq<char>| #[trigger] p_both(k) implies prefixed_key(k, "service:"@, |s: Seq<char>| !(s == "waste_water"@ || is_fixed_service(s)) && keys.contains(s)) by {
            let s = after_prefix(k, "service:"@);
            if p_rest(k) {
                let j = choose|j: int| 0 <= j < init.len() && init[j] == s;
                assert(keys[j] == s);
            } else {
                assert(keys[keys.len() - 1] == s);
            }
        }
        lemma_all_keys_weaken(rest + one, p_both, |k: Seq<char>| prefixed_key(k, "service:"@, |s: Seq<char>| !(s == "waste_water"@ || is_fixed_service(s)) && keys.contains(s)));
        if keys.no_duplicates() {
            assert(init.no_duplicates()) by {
                assert forall|a: int, b: int| 0 <= a < init.len() && 0 <= b < init.len() && a != b implies init[a] != init[b] by {
                    assert(init[a] == keys[a] && init[b] == keys[b]);
                }
            }
            lemma_short_no_dup(one);
            assert forall|k: Seq<char>| #[trigger] p_rest(k) implies !p_one(k) by {
                if p_one(k) {
                    let j = choose|j: int| 0 <= j < init.len() && init[j] == last;
                    assert(keys[j] == keys[keys.len() - 1]);
                }
            }
            lemma_no_dup_concat(rest, one, p_rest, p_one);
        }
    }
}

proof fn lemma_extra_waste_keys(keys: Seq<Seq<char>>)
    ensures
        all_keys(extra_waste_needs(keys), |k: Seq<char>| prefixed_key(k, "waste:"@, |s: Seq<char>| s != "base_waste"@ && keys.contains(s))),
        keys.no_duplicates() ==> need_keys(extra_waste_needs(keys)).no_duplicates(),
    decreases keys.len(),
{
    if keys.len() > 0 {
        let init = keys.drop_last();
        let last = keys.last();
        lemma_extra_waste_keys(init);
        let rest = extra_waste_needs(init);
        let one = extra_waste_needs(keys).skip(rest.len() as int);
        assert(extra_waste_needs(keys) == rest + one);
        lemma_prefixed("waste:"@, last);
        let p_rest = |k: Seq<char>| prefixed_key(k, "waste:"@, |s: Seq<char>| s != "base_waste"@ && init.contains(s));
        let p_one = |k: Seq<char>| k == "waste:"@ + last && last != "base_waste"@;
        assert(one.len() <= 1);
        assert(all_keys(one, p_one));
        lemma_all_keys_concat(rest, one, p_rest, p_one);
        let p_both = |k: Seq<char>| p_rest(k) || p_one(k);
        assert forall|k: Seq<char>| #[trigger] p_both(k) implies prefixed_key(k, "waste:"@, |s: Seq<char>| s != "base_waste"@ && keys.contains(s)) by {
            let s = after_prefix(k, "waste:"@);
            if p_rest(k) {
                let j = choose|j: int| 0 <= j < init.len() && init[j] == s;
                assert(keys[j] == s);
            } else {
                assert(keys[keys.len() - 1] == s);
            }
        }
        lemma_all_keys_weaken(rest + one, p_both, |k: Seq<char>| prefixed_key(k, "waste:"@, |s: Seq<char>| s != "base_waste"@ && keys.contains(s)));
        if keys.no_duplicates() {
            assert(init.no_duplicates()) by {
                assert forall|a: int, b: int| 0 <= a < init.len() && 0 <= b < init.len() && a != b implies init[a] != init[b] by {
                    assert(init[a] == keys[a] && init[b] == keys[b]);
                }
            }
            lemma_short_no_dup(one);
            assert forall|k: Seq<char>| #[trigger] p_rest(k) implies !p_one(k) by {
                if p_one(k) {
                    let j = choose|j: int| 0 <= j < init.len() && init[j] == last;
                    assert(keys[j] == keys[keys.len() - 1]);
                }
            }
            lemma_no_dup_concat(rest, one, p_rest, p_one);
        }
    }
}

proof fn lemma_fixed_waste_keys(services: Seq<Seq<char>>, wastes: Seq<Seq<char>>)
    ensures
        need_keys(fixed_waste_needs(services, wastes)).no_duplicates(),
        all_keys(
            fixed_waste_needs(services, wastes),
            |k: Seq<char>| prefixed_key(
                k,
                "waste:"@,
                |s: Seq<char>| s == "base_waste"@ || (s == "waste_water"@ && services.contains("waste_water"@)),
            ),
        ),
{
    lemma_fixed_literals();
    let w = "waste:"@;
    lemma_prefixed(w, "base_waste"@);
    lemma_prefixed(w, "waste_water"@);
    let a = if wastes.contains("base_waste"@) {
        seq![plain_need(w, "base_waste"@, "廢棄物"@, NeedKind::Waste)]
    } else {
        seq![]
    };
    let b = if services.contains("waste_water"@) {
        seq![plain_need(w, "waste_water"@, "廢水"@, NeedKind::Waste)]
    } else {
        seq![]
    };
    assert(fixed_waste_needs(services, wastes) == a + b);
    let pa = |k: Seq<char>| k == w + "base_waste"@;
    let pb = |k: Seq<char>| k == w + "waste_water"@ && services.contains("waste_water"@);
    lemma_short_no_dup(a);
    lemma_short_no_dup(b);
    lemma_no_dup_concat(a, b, pa, pb);
    lemma_all_keys_concat(a, b, pa, pb);
    lemma_all_keys_weaken(
        a + b,
        |k: Seq<char>| pa(k) || pb(k),
        |k: Seq<char>| prefixed_key(
            k,
            "waste:"@,
            |s: Seq<char>| s == "base_waste"@ || (s == "waste_water"@ && services.contains("waste_water"@)),
        ),
    );
}

/// Every default need has its own key, as long as the tables hold each key
/// once and waste water is not listed both as a service and as a waste.
pub proof fn lemma_default_need_keys_unique(data: (Seq<CategoryView>, Seq<Seq<char>>, Seq<Seq<char>>))
    requires
        data.0.map_values(|c: CategoryView| c.0).no_duplicates(),
        data.1.no_duplicates(),
        data.2.no_duplicates(),
        !(data.1.contains("waste_water"@) && data.2.contains("waste_water"@)),
    ensures
        need_keys(default_needs_spec(data)).no_duplicates(),
{
    let (cats, services, wastes) = data;
    lemma_fixed_literals();
    let food = "food:"@;
    let service = "service:"@;
    let waste = "waste:"@;
    let cat_keys = sorted_texts_spec(cats.map_values(|c: CategoryView| c.0));
    let svc_keys = sorted_texts_spec(services);
    let waste_keys = sorted_texts_spec(wastes);
    lemma_sorted_texts_keep_words(cats.map_values(|c: CategoryView| c.0));
    lemma_sorted_texts_keep_words(services);
    lemma_sorted_texts_keep_words(wastes);

    let f = fixed_food_needs(cats);
    let e = extra_food_needs(cats, cat_keys);
    let sv = fixed_service_needs(services);
    let es = extra_service_needs(svc_keys);
    let w = fixed_waste_needs(services, wastes);
    let ew = extra_waste_needs(waste_keys);
    lemma_fixed_food_keys(cats);
    lemma_extra_food_keys(cats, cat_keys);
    lemma_fixed_service_keys(services);
    lemma_extra_service_keys(svc_keys);
    lemma_fixed_waste_keys(services, wastes);
    lemma_extra_waste_keys(waste_keys);

    let pf = |k: Seq<char>| prefixed_key(k, food, |s: Seq<char>| is_fixed_food(s));
    let pe = |k: Seq<char>| prefixed_key(k, food, |s: Seq<char>| !is_fixed_food(s) && cat_keys.contains(s));
    let ps = |k: Seq<char>| prefixed_key(k, service, |s: Seq<char>| is_fixed_service(s));
    let pes = |k: Seq<char>| prefixed_key(
        k,
        service,
        |s: Seq<char>| !(s == "waste_water"@ || is_fixed_service(s)) && svc_keys.contains(s),
    );
    let pw = |k: Seq<char>| prefixed_key(
        k,
        waste,
        |s: Seq<char>| s == "base_waste"@ || (s == "waste_water"@ && services.contains("waste_water"@)),
    );
    let pew = |k: Seq<char>| prefixed_key(k, waste, |s: Seq<char>| s != "base_waste"@ && waste_keys.contains(s));

    lemma_no_dup_concat(f, e, pf, pe);
    lemma_all_keys_concat(f, e, pf, pe);
    let q1 = |k: Seq<char>| pf(k) || pe(k);

    assert forall|k: Seq<char>| #[trigger] q1(k) implies !ps(k) by {
        lemma_prefixes_exclusive(k, food, service);
    }
    lemma_no_dup_concat(f + e, sv, q1, ps);
    lemma_all_keys_concat(f + e, sv, q1, ps);
    let q2 = |k: Seq<char>| q1(k) || ps(k);

    assert forall|k: Seq<char>| #[trigger] q2(k) implies !pes(k) by {
        if q1(k) {
            lemma_prefixes_exclusive(k, food, service);
        }
    }
    lemma_no_dup_concat(f + e + sv, es, q2, pes);
    lemma_all_keys_concat(f + e + sv, es, q2, pes);
    let q3 = |k: Seq<char>| q2(k) || pes(k);

    assert forall|k: Seq<char>| #[trigger] q3(k) implies !pw(k) by {
        if q1(k) {
            lemma_prefixes_exclusive(k, food, waste);
        } else {
            lemma_prefixes_exclusive(k, service, waste);
        }
    }
    lemma_no_dup_concat(f + e + sv + es, w, q3, pw);
    lemma_all_keys_concat(f + e + sv + es, w, q3, pw);
    let q4 = |k: Seq<char>| q3(k) || pw(k);

    assert forall|k: Seq<char>| #[trigger] q4(k) implies !pew(k) by {
        if q1(k) {
            lemma_prefixes_exclusive(k, food, waste);
        } else if q3(k) {
            lemma_prefixes_exclusive(k, service, waste);
        } else if pew(k) {
            let s = after_prefix(k, waste);
            if s == "waste_water"@ {
                assert(waste_keys.contains(s));
                assert(wastes.contains(s));
            }
        }
    }
    lemma_no_dup_concat(f + e + sv + es + w, ew, q4, pew);
    assert(default_needs_spec(data) == f + e + sv + es + w + ew);
}

} // verus!
