use captain_calc::cli::display::category_name;
use captain_calc::data::models::{ids_to_add, promote_bottleneck, status_rank, BalanceStatus, Resource as DataResource, ResourceCategory as DataCategory};
use captain_calc::engine::balance::{
    category_order, maintenance_booking, resource_meta, scales_with_goods, service_booking,
    sorted_entry_order, table_key, tier_factor, virtual_booking, waste_booking, TierFactor,
    VirtualBooking, WasteSource,
};
use captain_calc::gui::balance::category_css_class;
use captain_calc::i18n::Locale;
use captain_calc::model::building::MaintenanceTier;
use captain_calc::model::difficulty::yes;
use captain_calc::model::ids::ResourceId;
use captain_calc::model::resource::{Resource, ResourceCategory};
use captain_calc::model::results::{BalanceIndex, EntryMeta};

fn chars(s: &str) -> Vec<char> {
    s.chars().collect()
}

fn meta(name: &str, category: ResourceCategory) -> EntryMeta {
    EntryMeta { name: name.to_string(), name_en: name.to_string(), category }
}

fn resource(id: &str, name: &str, category: ResourceCategory) -> Resource {
    Resource {
        id: ResourceId::new(id),
        name: name.to_string(),
        name_en: format!("{id} (en)"),
        category,
        is_primary: false,
        is_waste: false,
        is_pollution: false,
        is_virtual: false,
    }
}

#[test]
fn locales_have_codes_and_labels() {
    assert_eq!(Locale::all(), &[Locale::En, Locale::ZhTW]);
    assert_eq!(Locale::En.code(), "en");
    assert_eq!(Locale::ZhTW.code(), "zh-TW");
    assert_eq!(Locale::En.label(), "English");
    assert_eq!(Locale::ZhTW.label(), "中文");
}

#[test]
fn data_categories_are_listed_with_keys() {
    let all = DataCategory::all();
    assert_eq!(all.len(), 9);
    assert_eq!(all[0], DataCategory::Mineral);
    assert_eq!(all[8], DataCategory::Other);
    assert_eq!(DataCategory::Mineral.i18n_key(), "cat_mineral");
    assert_eq!(DataCategory::Crops.i18n_key(), "cat_crops");
    assert_eq!(DataCategory::default(), DataCategory::Other);
    let keys: std::collections::HashSet<_> = all.iter().map(|c| c.i18n_key()).collect();
    assert_eq!(keys.len(), all.len());
    let r = DataResource { id: ResourceId::new("x"), name: "X".into(), name_zh: None, category: DataCategory::default() };
    assert_eq!(r.category, DataCategory::Other);
    assert_ne!(BalanceStatus::Surplus, BalanceStatus::Bottleneck);
}

#[test]
fn categories_have_names_ranks_and_classes() {
    assert_eq!(category_name(&ResourceCategory::RawMaterial), "原料");
    assert_eq!(category_name(&ResourceCategory::Pollution), "污染");
    assert_eq!(category_order(&ResourceCategory::RawMaterial), 0);
    assert_eq!(category_order(&ResourceCategory::Pollution), 13);
    assert_eq!(category_order(&ResourceCategory::Food), 4);
    assert_eq!(category_css_class(&ResourceCategory::Electricity), "cat-electricity");
    assert_eq!(category_css_class(&ResourceCategory::Food), "cat-other");
    assert_eq!(category_css_class(&ResourceCategory::RawMaterial), "cat-raw");
}

#[test]
fn power_switches_default_on() {
    assert!(yes());
}

#[test]
fn unknown_resources_get_their_id_as_name() {
    let id = ResourceId::new("slag");
    let m = resource_meta(&id, None);
    assert_eq!(m.name, "slag");
    assert_eq!(m.name_en, "slag");
    assert_eq!(m.category, ResourceCategory::Intermediate);
    let known = resource("slag", "爐渣", ResourceCategory::Waste);
    let m = resource_meta(&id, Some(&known));
    assert_eq!(m.name, "爐渣");
    assert_eq!(m.name_en, "slag (en)");
    assert_eq!(m.category, ResourceCategory::Waste);
}

#[test]
fn entries_sort_by_category_then_name() {
    let entries = vec![
        meta("鐵板", ResourceCategory::Intermediate),
        meta("鐵礦", ResourceCategory::RawMaterial),
        meta("廢氣", ResourceCategory::Pollution),
        meta("銅板", ResourceCategory::Intermediate),
        meta("電力", ResourceCategory::Electricity),
    ];
    // 銅 (U+9285) sorts before 鐵 (U+9435)
    assert_eq!(sorted_entry_order(&entries), vec![1, 3, 0, 4, 2]);
}

#[test]
fn virtual_and_maintenance_bookings() {
    let b = virtual_booking(VirtualBooking::Electricity);
    assert_eq!(b.resource_id.0, "electricity");
    assert_eq!(b.meta.name, "電力");
    assert_eq!(b.meta.category, ResourceCategory::Electricity);
    let w = virtual_booking(VirtualBooking::PopulationWorkers);
    assert_eq!(w.resource_id.0, "workers");
    assert_eq!(w.meta.name_en, "Workers (Population)");
    let m = maintenance_booking(MaintenanceTier::Maintenance2);
    assert_eq!(m.resource_id.0, "maintenance_2");
    assert_eq!(m.meta.name, "維護 II");
    assert_eq!(m.meta.name_en, "Maintenance II");
    assert_eq!(m.meta.category, ResourceCategory::Maintenance);
    assert_eq!(MaintenanceTier::Maintenance3.resource_id().0, "maintenance_3");
    assert_eq!(MaintenanceTier::Maintenance1.labels(), ("維護 I", "Maintenance I"));
}

#[test]
fn need_keys_lose_their_prefix() {
    assert_eq!(table_key(&"food:carbs".to_string(), "food:"), chars("carbs"));
    assert_eq!(table_key(&"service:water".to_string(), "service:"), chars("water"));
    assert_eq!(table_key(&"water".to_string(), "service:"), chars("water"));
    assert_eq!(table_key(&"food".to_string(), "food:"), chars("food"));
    assert_eq!(table_key(&"food:".to_string(), "food:"), chars(""));
}

#[test]
fn services_are_booked_by_table() {
    let b = service_booking(&chars("electricity_kw")).expect("booked");
    assert_eq!(b.resource_id.0, "electricity");
    assert_eq!(b.meta.name, "電力（住宅）");
    assert_eq!(b.meta.category, ResourceCategory::Electricity);
    let c = service_booking(&chars("computing_tflops")).expect("booked");
    assert_eq!(c.resource_id.0, "computing");
    assert_eq!(c.meta.category, ResourceCategory::Computing);
    let w = service_booking(&chars("water")).expect("booked");
    assert_eq!(w.meta.name_en, "Water");
    assert!(service_booking(&chars("waste_water")).is_none());
    assert_eq!(tier_factor(&chars("water")), TierFactor::Water);
    assert_eq!(tier_factor(&chars("medical_supplies")), TierFactor::Unscaled);
    assert!(scales_with_goods(&chars("consumer_electronics")));
    assert!(!scales_with_goods(&chars("water")));
}

#[test]
fn wastes_are_booked_by_table() {
    let (src, b) = waste_booking(&chars("base_waste")).expect("booked");
    assert_eq!(src, WasteSource::WasteTable);
    assert_eq!(b.resource_id.0, "waste");
    let (src, b) = waste_booking(&chars("waste_water")).expect("booked");
    assert_eq!(src, WasteSource::ServiceTable);
    assert_eq!(b.meta.name, "廢水");
    assert!(waste_booking(&chars("toxic")).is_none());
}

#[test]
fn balance_index_keeps_first_metadata() {
    let mut index = BalanceIndex::new();
    let plate = ResourceId::new("iron_plate");
    let a = index.get_or_insert(&plate, meta("鐵板", ResourceCategory::Intermediate));
    let b = index.get_or_insert(&ResourceId::new("slag"), meta("爐渣", ResourceCategory::Waste));
    let c = index.get_or_insert(&plate, meta("other", ResourceCategory::FinalProduct));
    assert_eq!((a, b, c), (0, 1, 0));
    assert_eq!(index.len(), 2);
    assert_eq!(index.entry(0).meta.name, "鐵板");
    assert_eq!(index.entry(0).meta.category, ResourceCategory::Intermediate);
    assert_eq!(index.position(&ResourceId::new("slag")), Some(1));
    assert_eq!(index.position(&ResourceId::new("gold")), None);
}

#[test]
fn raw_marks_and_merges() {
    let mut index = BalanceIndex::new();
    index.get_or_insert(&ResourceId::new("ore"), meta("礦", ResourceCategory::RawMaterial));
    index.mark_raw_input(&ResourceId::new("gold"));
    assert_eq!(index.len(), 1);
    assert!(!index.entry(0).is_raw_input);
    let mut other = BalanceIndex::new();
    other.get_or_insert(&ResourceId::new("coal"), meta("煤", ResourceCategory::RawMaterial));
    other.get_or_insert(&ResourceId::new("ore"), meta("x", ResourceCategory::Food));
    other.mark_raw_input(&ResourceId::new("ore"));
    other.mark_raw_input(&ResourceId::new("coal"));
    let slots = index.merge(&other);
    assert_eq!(slots, vec![1, 0]);
    assert_eq!(index.len(), 2);
    assert!(index.entry(0).is_raw_input);
    assert_eq!(index.entry(0).meta.name, "礦");
    assert!(index.entry(1).is_raw_input);
    assert_eq!(index.entry(1).resource_id.0, "coal");
}

#[test]
fn merging_game_data_adds_only_new_ids() {
    let existing = vec!["a".to_string(), "b".to_string()];
    let incoming = vec!["b".to_string(), "c".to_string(), "a".to_string(), "c".to_string()];
    assert_eq!(ids_to_add(&existing, &incoming), vec![1, 3]);
    assert!(ids_to_add(&existing, &existing).is_empty());
    assert_eq!(ids_to_add(&Vec::new(), &existing), vec![0, 1]);
}

#[test]
fn resource_flags_are_joined() {
    let mut r = resource("ore", "礦", ResourceCategory::RawMaterial);
    assert_eq!(r.flag_text(), "");
    r.is_primary = true;
    assert_eq!(r.flag_text(), "原料");
    r.is_pollution = true;
    r.is_virtual = true;
    assert_eq!(r.flag_text(), "原料, 污染, 虛擬");
}

#[test]
fn balance_report_lists_deficits_first_and_marks_the_worst() {
    assert_eq!(status_rank(&BalanceStatus::Deficit), 0);
    assert_eq!(status_rank(&BalanceStatus::Bottleneck), 0);
    assert_eq!(status_rank(&BalanceStatus::Balanced), 1);
    assert_eq!(status_rank(&BalanceStatus::Surplus), 2);
    let mut statuses = vec![BalanceStatus::Deficit, BalanceStatus::Deficit, BalanceStatus::Surplus];
    promote_bottleneck(&mut statuses);
    assert_eq!(statuses, vec![BalanceStatus::Bottleneck, BalanceStatus::Deficit, BalanceStatus::Surplus]);
    let mut balanced = vec![BalanceStatus::Balanced, BalanceStatus::Surplus];
    promote_bottleneck(&mut balanced);
    assert_eq!(balanced, vec![BalanceStatus::Balanced, BalanceStatus::Surplus]);
    let mut empty: Vec<BalanceStatus> = vec![];
    promote_bottleneck(&mut empty);
    assert!(empty.is_empty());
}

#[test]
fn statuses_have_label_keys() {
    assert_eq!(BalanceStatus::Surplus.label_key(), "surplus");
    assert_eq!(BalanceStatus::Deficit.label_key(), "deficit");
    assert_eq!(BalanceStatus::Balanced.label_key(), "balanced");
    assert_eq!(BalanceStatus::Bottleneck.label_key(), "bottleneck");
}
