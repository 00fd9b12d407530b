//! Balance-sheet helpers: entry metadata, the display order of categories and
//! entries, and the virtual resources the solver books.
use vstd::prelude::*;

use crate::model::ids::ResourceId;
use crate::model::resource::{Resource, ResourceCategory};
use crate::model::building::{maintenance_id_spec, maintenance_label_spec, MaintenanceTier};
use crate::model::island::{need_views, NeedKind, NeedView, PopulationNeed};
use crate::model::results::{EntryMeta, MetaView};
use crate::text::{chars_of, is_stable_order, is_word, keys_view, stable_order, string_from_chars, SortKey};

verus! {

/// The display rank of a category.
pub open spec fn category_order_spec(category: ResourceCategory) -> u8 {
    match category {
        ResourceCategory::RawMaterial => 0,
        ResourceCategory::Intermediate => 1,
        ResourceCategory::FinalProduct => 2,
        ResourceCategory::MoltenMaterial => 3,
        ResourceCategory::Food => 4,
        ResourceCategory::Fuel => 5,
        ResourceCategory::Electricity => 6,
        ResourceCategory::Computing => 7,
        ResourceCategory::Unity => 8,
        ResourceCategory::Maintenance => 9,
        ResourceCategory::Service => 10,
        ResourceCategory::Housing => 11,
        ResourceCategory::Waste => 12,
        ResourceCategory::Pollution => 13,
    }
}

/// The position of a category in balance-sheet listings.
pub fn category_order(category: &ResourceCategory) -> (rank: u8)
    ensures
        rank == category_order_spec(*category),
{
    match category {
        ResourceCategory::RawMaterial => 0,
        ResourceCategory::Intermediate => 1,
        ResourceCategory::FinalProduct => 2,
        ResourceCategory::MoltenMaterial => 3,
        ResourceCategory::Food => 4,
        ResourceCategory::Fuel => 5,
        ResourceCategory::Electricity => 6,
        ResourceCategory::Computing => 7,
        ResourceCategory::Unity => 8,
        ResourceCategory::Maintenance => 9,
        ResourceCategory::Service => 10,
        ResourceCategory::Housing => 11,
        ResourceCategory::Waste => 12,
        ResourceCategory::Pollution => 13,
    }
}

/// Distinct categories have distinct ranks: the listing order of categories
/// is a strict total order.
pub proof fn lemma_category_order_injective(a: ResourceCategory, b: ResourceCategory)
    requires
        category_order_spec(a) == category_order_spec(b),
    ensures
        a == b,
{
}

/// The metadata a balance entry gets for resource `id`: the resource's own
/// names and category when it is known, otherwise the id as both names and the
/// intermediate category.
pub open spec fn resource_meta_spec(id: ResourceId, resource: Option<Resource>) -> (Seq<char>, Seq<char>, ResourceCategory) {
    match resource {
        Some(r) => (r.name@, r.name_en@, r.category),
        None => (id@, id@, ResourceCategory::Intermediate),
    }
}

/// Builds the metadata of the balance entry for resource `id`.
pub fn resource_meta(id: &ResourceId, resource: Option<&Resource>) -> (meta: EntryMeta)
    ensures
        (meta.name@, meta.name_en@, meta.category) == resource_meta_spec(*id, match resource {
            Some(r) => Some(*r),
            None => None,
        }),
{
    match resource {
        Some(r) => EntryMeta { name: r.name.clone(), name_en: r.name_en.clone(), category: r.category },
        None => EntryMeta { name: id.0.clone(), name_en: id.0.clone(), category: ResourceCategory::Intermediate },
    }
}

/// The sort key of a balance entry: category rank, then Chinese name.
pub open spec fn entry_key(meta: EntryMeta) -> (u64, Seq<char>) {
    (category_order_spec(meta.category) as u64, meta.name@)
}

/// The order in which balance entries are listed: by category rank, then by
/// name, entries with equal keys keeping their given order. Position `i` of
/// the result is the index of the entry listed `i`-th.
pub fn sorted_entry_order(entries: &Vec<EntryMeta>) -> (order: Vec<usize>)
    ensures
        is_stable_order(entries@.map_values(|m: EntryMeta| entry_key(m)), order@),
{
    let mut keys: Vec<SortKey> = Vec::new();
    let mut i: usize = 0;
    while i < entries.len()
        invariant
            i <= entries@.len(),
            keys_view(keys@) =~= entries@.take(i as int).map_values(|m: EntryMeta| entry_key(m)),
        decreases entries@.len() - i,
    {
        let rank = category_order(&entries[i].category) as u64;
        let text = chars_of(entries[i].name.as_str());
        let ghost before = keys@;
        keys.push(SortKey { rank, text });
        assert(keys_view(keys@) =~= keys_view(before).push(entry_key(entries@[i as int])));
        assert(entries@.take(i + 1) =~= entries@.take(i as int).push(entries@[i as int]));
        i = i + 1;
    }
    assert(entries@.take(i as int) =~= entries@);
    stable_order(&keys)
}

/// A resource booked without a recipe: its id and the metadata of its entry.
#[derive(Debug, Clone)]
pub struct Booking {
    pub resource_id: ResourceId,
    pub meta: EntryMeta,
}

/// A booking as plain values.
pub type BookingView = (Seq<char>, MetaView);

impl View for Booking {
    type V = BookingView;

    open spec fn view(&self) -> BookingView {
        (self.resource_id@, self.meta@)
    }
}

/// A booking of the given id, names and category.
fn booking(id: &str, name: &str, name_en: &str, category: ResourceCategory) -> (b: Booking)
    ensures
        b@ == (id@, (name@, name_en@, category)),
{
    Booking {
        resource_id: ResourceId::new(id),
        meta: EntryMeta {
            name: string_from_chars(&chars_of(name)),
            name_en: string_from_chars(&chars_of(name_en)),
            category,
        },
    }
}

/// The resources the solver and the island balance book for buildings and
/// population, apart from recipes.
#[derive(Debug, Clone, Copy, PartialEq, Eq, Structural)]
pub enum VirtualBooking {
    /// Power drawn by buildings.
    Electricity,
    /// Computing drawn by buildings.
    Computing,
    /// Unity drawn by buildings.
    Unity,
    /// Workers employed by buildings.
    BuildingWorkers,
    /// Unity the population yields from its food.
    PopulationUnity,
    /// Workers the population offers.
    PopulationWorkers,
}

/// Id, names and category of each virtual booking.
pub open spec fn virtual_booking_spec(kind: VirtualBooking) -> BookingView {
    match kind {
        VirtualBooking::Electricity => ("electricity"@, ("電力"@, "Electricity"@, ResourceCategory::Electricity)),
        VirtualBooking::Computing => ("computing"@, ("算力"@, "Computing"@, ResourceCategory::Computing)),
        VirtualBooking::Unity => ("unity"@, ("凝聚力"@, "Unity"@, ResourceCategory::Unity)),
        VirtualBooking::BuildingWorkers => ("workers"@, ("工人（建築）"@, "Workers (Buildings)"@, ResourceCategory::Service)),
        VirtualBooking::PopulationUnity => ("unity"@, ("凝聚力（人口）"@, "Unity (Population)"@, ResourceCategory::Unity)),
        VirtualBooking::PopulationWorkers => ("workers"@, ("工人（人口）"@, "Workers (Population)"@, ResourceCategory::Service)),
    }
}

/// The booking of a virtual resource.
pub fn virtual_booking(kind: VirtualBooking) -> (b: Booking)
    ensures
        b@ == virtual_booking_spec(kind),
{
    match kind {
        VirtualBooking::Electricity => booking("electricity", "電力", "Electricity", ResourceCategory::Electricity),
        VirtualBooking::Computing => booking("computing", "算力", "Computing", ResourceCategory::Computing),
        VirtualBooking::Unity => booking("unity", "凝聚力", "Unity", ResourceCategory::Unity),
        VirtualBooking::BuildingWorkers => booking("workers", "工人（建築）", "Workers (Buildings)", ResourceCategory::Service),
        VirtualBooking::PopulationUnity => booking("unity", "凝聚力（人口）", "Unity (Population)", ResourceCategory::Unity),
        VirtualBooking::PopulationWorkers => booking("workers", "工人（人口）", "Workers (Population)", ResourceCategory::Service),
    }
}

/// The booking of a maintenance tier.
pub fn maintenance_booking(tier: MaintenanceTier) -> (b: Booking)
    ensures
        b@ == (maintenance_id_spec(tier), (maintenance_label_spec(tier).0, maintenance_label_spec(tier).1, ResourceCategory::Maintenance)),
{
    let (name, name_en) = tier.labels();
    Booking {
        resource_id: tier.resource_id(),
        meta: EntryMeta {
            name: string_from_chars(&chars_of(name)),
            name_en: string_from_chars(&chars_of(name_en)),
            category: ResourceCategory::Maintenance,
        },
    }
}

/// `key` without `prefix` when it starts with it, else `key` itself.
pub open spec fn strip_prefix_spec(key: Seq<char>, prefix: Seq<char>) -> Seq<char> {
    if prefix.len() <= key.len() && key.take(prefix.len() as int) == prefix {
        key.skip(prefix.len() as int)
    } else {
        key
    }
}

/// The key of a need in the population tables: its key without the kind prefix.
pub fn table_key(key: &String, prefix: &str) -> (k: Vec<char>)
    ensures
        k@ == strip_prefix_spec(key@, prefix@),
{
    let text = chars_of(key.as_str());
    let pre = chars_of(prefix);
    if pre.len() > text.len() {
        return text;
    }
    let mut i: usize = 0;
    while i < pre.len()
        invariant
            pre@ == prefix@,
            text@ == key@,
            pre@.len() <= text@.len(),
            i <= pre@.len(),
            forall|j: int| 0 <= j < i ==> text@[j] == pre@[j],
        decreases pre@.len() - i,
    {
        if text[i] != pre[i] {
            proof {
                assert(text@.take(pre@.len() as int)[i as int] != pre@[i as int]);
            }
            return text;
        }
        i = i + 1;
    }
    assert(text@.take(pre@.len() as int) =~= pre@);
    let mut rest: Vec<char> = Vec::new();
    let mut k: usize = pre.len();
    while k < text.len()
        invariant
            pre@.len() <= k <= text@.len(),
            rest@ == text@.subrange(pre@.len() as int, k as int),
        decreases text@.len() - k,
    {
        rest.push(text[k]);
        assert(text@.subrange(pre@.len() as int, k + 1) =~= text@.subrange(pre@.len() as int, k as int).push(text@[k as int]));
        k = k + 1;
    }
    assert(rest@ =~= text@.skip(pre@.len() as int));
    rest
}

/// Where a service of the population is booked, by its table key; `None` for
/// a service the balance does not book.
pub open spec fn service_booking_spec(key: Seq<char>) -> Option<BookingView> {
    if key == "electricity_kw"@ {
        Some(("electricity"@, ("電力（住宅）"@, "Electricity (Housing)"@, ResourceCategory::Electricity)))
    } else if key == "water"@ {
        Some(("water"@, ("水"@, "Water"@, ResourceCategory::Service)))
    } else if key == "household_goods"@ {
        Some(("household_goods"@, ("家用品"@, "Household Goods"@, ResourceCategory::Service)))
    } else if key == "household_appliances"@ {
        Some(("household_appliances"@, ("家電"@, "Household Appliances"@, ResourceCategory::Service)))
    } else if key == "luxury_goods"@ {
        Some(("luxury_goods"@, ("奢侈品"@, "Luxury Goods"@, ResourceCategory::Service)))
    } else if key == "consumer_electronics"@ {
        Some(("consumer_electronics"@, ("消費電子"@, "Consumer Electronics"@, ResourceCategory::Service)))
    } else if key == "medical_supplies"@ {
        Some(("medical_supplies"@, ("醫療用品"@, "Medical Supplies"@, ResourceCategory::Service)))
    } else if key == "computing_tflops"@ {
        Some(("computing"@, ("算力（住宅）"@, "Computing (Housing)"@, ResourceCategory::Computing)))
    } else {
        None
    }
}

/// Where a service of the population is booked.
pub fn service_booking(key: &Vec<char>) -> (b: Option<Booking>)
    ensures
        match b {
            Some(x) => service_booking_spec(key@) == Some(x@),
            None => service_booking_spec(key@) is None,
        },
{
    if is_word(key, "electricity_kw") {
        Some(booking("electricity", "電力（住宅）", "Electricity (Housing)", ResourceCategory::Electricity))
    } else if is_word(key, "water") {
        Some(booking("water", "水", "Water", ResourceCategory::Service))
    } else if is_word(key, "household_goods") {
        Some(booking("household_goods", "家用品", "Household Goods", ResourceCategory::Service))
    } else if is_word(key, "household_appliances") {
        Some(booking("household_appliances", "家電", "Household Appliances", ResourceCategory::Service))
    } else if is_word(key, "luxury_goods") {
        Some(booking("luxury_goods", "奢侈品", "Luxury Goods", ResourceCategory::Service))
    } else if is_word(key, "consumer_electronics") {
        Some(booking("consumer_electronics", "消費電子", "Consumer Electronics", ResourceCategory::Service))
    } else if is_word(key, "medical_supplies") {
        Some(booking("medical_supplies", "醫療用品", "Medical Supplies", ResourceCategory::Service))
    } else if is_word(key, "computing_tflops") {
        Some(booking("computing", "算力（住宅）", "Computing (Housing)", ResourceCategory::Computing))
    } else {
        None
    }
}

/// Which housing-tier multiplier scales a service.
#[derive(Debug, Clone, Copy, PartialEq, Eq, Structural)]
pub enum TierFactor {
    Electricity,
    Water,
    HouseholdGoods,
    HouseholdAppliances,
    LuxuryGoods,
    /// No tier multiplier: the service is not scaled by housing.
    Unscaled,
}

/// The housing-tier multiplier of a service, by its table key.
pub open spec fn tier_factor_spec(key: Seq<char>) -> TierFactor {
    if key == "electricity_kw"@ {
        TierFactor::Electricity
    } else if key == "water"@ {
        TierFactor::Water
    } else if key == "household_goods"@ {
        TierFactor::HouseholdGoods
    } else if key == "household_appliances"@ {
        TierFactor::HouseholdAppliances
    } else if key == "luxury_goods"@ {
        TierFactor::LuxuryGoods
    } else {
        TierFactor::Unscaled
    }
}

/// Each of the five housing-scaled services has its own tier multiplier:
/// `electricity_kw`, `water`, `household_goods`, `household_appliances` and
/// `luxury_goods`; every other key is unscaled.
pub proof fn lemma_tier_factor_keys(key: Seq<char>)
    ensures
        (tier_factor_spec(key) == TierFactor::Electricity) <==> key == "electricity_kw"@,
        (tier_factor_spec(key) == TierFactor::Water) <==> key == "water"@,
        (tier_factor_spec(key) == TierFactor::HouseholdGoods) <==> key == "household_goods"@,
        (tier_factor_spec(key) == TierFactor::HouseholdAppliances) <==> key == "household_appliances"@,
        (tier_factor_spec(key) == TierFactor::LuxuryGoods) <==> key == "luxury_goods"@,
        (tier_factor_spec(key) == TierFactor::Unscaled) <==> (key != "electricity_kw"@ && key != "water"@
            && key != "household_goods"@ && key != "household_appliances"@ && key != "luxury_goods"@),
{
    reveal_strlit("electricity_kw");
    reveal_strlit("water");
    reveal_strlit("household_goods");
    reveal_strlit("household_appliances");
    reveal_strlit("luxury_goods");
    assert("electricity_kw"@.len() == 14);
    assert("water"@.len() == 5);
    assert("household_goods"@.len() == 15);
    assert("household_appliances"@.len() == 20);
    assert("luxury_goods"@.len() == 12);
}

/// The housing-tier multiplier of a service.
pub fn tier_factor(key: &Vec<char>) -> (f: TierFactor)
    ensures
        f == tier_factor_spec(key@),
        (f == TierFactor::Electricity) <==> key@ == "electricity_kw"@,
        (f == TierFactor::Water) <==> key@ == "water"@,
        (f == TierFactor::HouseholdGoods) <==> key@ == "household_goods"@,
        (f == TierFactor::HouseholdAppliances) <==> key@ == "household_appliances"@,
        (f == TierFactor::LuxuryGoods) <==> key@ == "luxury_goods"@,
{
    proof {
        lemma_tier_factor_keys(key@);
    }
    if is_word(key, "electricity_kw") {
        TierFactor::Electricity
    } else if is_word(key, "water") {
        TierFactor::Water
    } else if is_word(key, "household_goods") {
        TierFactor::HouseholdGoods
    } else if is_word(key, "household_appliances") {
        TierFactor::HouseholdAppliances
    } else if is_word(key, "luxury_goods") {
        TierFactor::LuxuryGoods
    } else {
        TierFactor::Unscaled
    }
}

/// Whether the difficulty's goods-and-services multiplier scales a service:
/// household goods, household appliances, luxury goods, consumer electronics.
pub fn scales_with_goods(key: &Vec<char>) -> (b: bool)
    ensures
        b == (key@ == "household_goods"@ || key@ == "household_appliances"@ || key@ == "luxury_goods"@
            || key@ == "consumer_electronics"@),
{
    is_word(key, "household_goods") || is_word(key, "household_appliances") || is_word(
        key,
        "luxury_goods",
    ) || is_word(key, "consumer_electronics")
}

/// Which population table a waste need reads its rate from.
#[derive(Debug, Clone, Copy, PartialEq, Eq, Structural)]
pub enum WasteSource {
    /// The waste table, under `base_waste`.
    WasteTable,
    /// The service table, under `waste_water`.
    ServiceTable,
}

/// Where a waste need of the population reads its rate and is booked; `None`
/// for a waste the balance does not book.
pub open spec fn waste_booking_spec(key: Seq<char>) -> Option<(WasteSource, BookingView)> {
    if key == "base_waste"@ {
        Some((WasteSource::WasteTable, ("waste"@, ("廢棄物"@, "Waste"@, ResourceCategory::Waste))))
    } else if key == "waste_water"@ {
        Some((WasteSource::ServiceTable, ("waste_water"@, ("廢水"@, "Waste Water"@, ResourceCategory::Waste))))
    } else {
        None
    }
}

/// Where a waste need of the population reads its rate and is booked.
pub fn waste_booking(key: &Vec<char>) -> (b: Option<(WasteSource, Booking)>)
    ensures
        match b {
            Some((src, x)) => waste_booking_spec(key@) == Some((src, x@)),
            None => waste_booking_spec(key@) is None,
        },
{
    if is_word(key, "base_waste") {
        Some((WasteSource::WasteTable, booking("waste", "廢棄物", "Waste", ResourceCategory::Waste)))
    } else if is_word(key, "waste_water") {
        Some((WasteSource::ServiceTable, booking("waste_water", "廢水", "Waste Water", ResourceCategory::Waste)))
    } else {
        None
    }
}

/// The food needs that are on.
pub open spec fn enabled_food(needs: Seq<NeedView>) -> Seq<NeedView> {
    needs.filter(|n: NeedView| n.2 == NeedKind::Food && n.3)
}

/// How many food needs are on; the food demand is shared among them.
pub fn enabled_food_count(needs: &Vec<PopulationNeed>) -> (n: usize)
    ensures
        n == enabled_food(need_views(needs@)).len(),
{
    let ghost views = need_views(needs@);
    let ghost pred = |n: NeedView| n.2 == NeedKind::Food && n.3;
    let mut count: usize = 0;
    let mut i: usize = 0;
    proof {
        reveal(Seq::filter);
        assert(views.take(0) =~= Seq::<NeedView>::empty());
    }
    while i < needs.len()
        invariant
            i <= needs@.len(),
            views == need_views(needs@),
            pred == (|n: NeedView| n.2 == NeedKind::Food && n.3),
            count == views.take(i as int).filter(pred).len(),
            count <= i,
        decreases needs@.len() - i,
    {
        proof {
            assert(views.take(i + 1) =~= views.take(i as int).push(views[i as int]));
            views.take(i as int).lemma_filter_push(views[i as int], pred);
        }
        if needs[i].enabled && matches!(needs[i].kind, NeedKind::Food) {
            count = count + 1;
        }
        i = i + 1;
    }
    assert(views.take(i as int) =~= views);
    count
}

} // verus!
