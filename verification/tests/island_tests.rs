use captain_calc::engine::balance::enabled_food_count;
use captain_calc::gui::state::{IslandLedger, Tab};
use captain_calc::model::ids::{BuildingId, RecipeId};
use captain_calc::model::island::{FoodCategoryKeys, NeedKind, PopulationKeys, PopulationNeed, PopulationSettings};

fn strings(items: &[&str]) -> Vec<String> {
    items.iter().map(|s| s.to_string()).collect()
}

fn category(key: &str, name: &str, items: &[&str]) -> FoodCategoryKeys {
    FoodCategoryKeys { key: key.to_string(), name: name.to_string(), item_keys: strings(items) }
}

fn summary(needs: &[PopulationNeed]) -> Vec<(String, String, NeedKind, bool, Vec<String>)> {
    needs
        .iter()
        .map(|n| (n.key.clone(), n.name.clone(), n.kind, n.enabled, n.selected_items.clone()))
        .collect()
}

#[test]
fn default_needs_follow_the_fixed_orders() {
    let data = PopulationKeys {
        food_categories: vec![
            category("treats", "零食", &["candy"]),
            category("protein", "蛋白質", &["eggs", "meat"]),
            category("drinks", "飲料", &["juice"]),
            category("carbs", "碳水", &["bread", "potato"]),
            category("alcohol", "酒", &[]),
        ],
        service_keys: strings(&["water", "waste_water", "spa", "electricity_kw", "arcade"]),
        waste_keys: strings(&["toxic", "base_waste"]),
    };
    let needs = PopulationSettings::build_default_needs(&data);
    let expected = vec![
        ("food:carbs".to_string(), "碳水".to_string(), NeedKind::Food, true, strings(&["bread"])),
        ("food:protein".to_string(), "蛋白質".to_string(), NeedKind::Food, true, strings(&["meat"])),
        ("food:treats".to_string(), "零食".to_string(), NeedKind::Food, false, strings(&["candy"])),
        ("food:alcohol".to_string(), "酒".to_string(), NeedKind::Food, false, strings(&[""])),
        ("food:drinks".to_string(), "飲料".to_string(), NeedKind::Food, false, strings(&["juice"])),
        ("service:electricity_kw".to_string(), "電力（住宅）".to_string(), NeedKind::Service, false, vec![]),
        ("service:water".to_string(), "水".to_string(), NeedKind::Service, false, vec![]),
        ("service:arcade".to_string(), "arcade".to_string(), NeedKind::Service, false, vec![]),
        ("service:spa".to_string(), "spa".to_string(), NeedKind::Service, false, vec![]),
        ("waste:base_waste".to_string(), "廢棄物".to_string(), NeedKind::Waste, false, vec![]),
        ("waste:waste_water".to_string(), "廢水".to_string(), NeedKind::Waste, false, vec![]),
        ("waste:toxic".to_string(), "toxic".to_string(), NeedKind::Waste, false, vec![]),
    ];
    assert_eq!(summary(&needs), expected);
}

#[test]
fn default_needs_of_empty_tables_are_empty() {
    let data = PopulationKeys { food_categories: vec![], service_keys: vec![], waste_keys: vec![] };
    assert!(PopulationSettings::build_default_needs(&data).is_empty());
}

#[test]
fn default_food_falls_back_to_first_item() {
    let data = PopulationKeys {
        food_categories: vec![category("vitamins", "維生素", &["fruit", "salad"])],
        service_keys: vec![],
        waste_keys: vec![],
    };
    let needs = PopulationSettings::build_default_needs(&data);
    assert_eq!(summary(&needs), vec![(
        "food:vitamins".to_string(),
        "維生素".to_string(),
        NeedKind::Food,
        true,
        strings(&["fruit"]),
    )]);
}

#[test]
fn enabled_food_needs_are_counted() {
    let data = PopulationKeys {
        food_categories: vec![category("carbs", "碳水", &["bread"]), category("treats", "零食", &["candy"])],
        service_keys: strings(&["water"]),
        waste_keys: vec![],
    };
    let mut needs = PopulationSettings::build_default_needs(&data);
    assert_eq!(enabled_food_count(&needs), 1);
    needs[1].enabled = true;
    needs[2].enabled = true;
    assert_eq!(enabled_food_count(&needs), 2);
}

#[test]
fn population_settings_default_and_tier_check() {
    let mut p = PopulationSettings::default();
    assert_eq!(p.population, 0);
    assert_eq!(p.housing_tier, 1);
    assert!(p.needs.is_empty());
    assert!(p.set_population(500, Some(3)));
    assert_eq!((p.population, p.housing_tier), (500, 3));
    assert!(!p.set_population(800, Some(5)));
    assert_eq!((p.population, p.housing_tier), (800, 3));
    assert!(!p.set_population(10, Some(0)));
    assert!(p.set_population(20, None));
    assert_eq!((p.population, p.housing_tier), (20, 3));
}

#[test]
fn ledger_gives_fresh_ids_and_removes_by_id() {
    let mut ledger: IslandLedger<f64> = IslandLedger::new();
    let a = ledger.add_island_entry(BuildingId::new("furnace"), RecipeId::new("smelt"), 2.0);
    let b = ledger.add_island_entry(BuildingId::new("caster"), RecipeId::new("cast"), 1.5);
    assert_eq!((a, b), (1, 2));
    assert_eq!(ledger.next_entry_id, 3);
    ledger.remove_island_entry(a);
    assert_eq!(ledger.island_entries.len(), 1);
    assert_eq!(ledger.island_entries[0].id, b);
    assert_eq!(ledger.island_entries[0].count, 1.5);
    ledger.remove_island_entry(42);
    assert_eq!(ledger.island_entries.len(), 1);
    let c = ledger.add_island_entry(BuildingId::new("furnace"), RecipeId::new("smelt"), 1.0);
    assert_eq!(c, 3);
}

#[test]
fn removing_what_was_just_added_restores_the_ledger() {
    let mut ledger: IslandLedger<u32> = IslandLedger::new();
    ledger.add_island_entry(BuildingId::new("furnace"), RecipeId::new("smelt"), 2);
    let before: Vec<u32> = ledger.island_entries.iter().map(|e| e.id).collect();
    let id = ledger.add_island_entry(BuildingId::new("caster"), RecipeId::new("cast"), 4);
    ledger.remove_island_entry(id);
    let after: Vec<u32> = ledger.island_entries.iter().map(|e| e.id).collect();
    assert_eq!(before, after);
}

#[test]
fn tabs_compare() {
    assert_eq!(Tab::Calculator, Tab::Calculator);
    assert_ne!(Tab::Balance, Tab::Settings);
    assert_ne!(Tab::DataBrowser, Tab::Calculator);
}

#[test]
fn default_need_keys_are_unique() {
    let data = PopulationKeys {
        food_categories: vec![
            category("carbs", "碳水", &["bread"]),
            category("treats", "零食", &["candy"]),
            category("drinks", "飲料", &["juice"]),
        ],
        service_keys: strings(&["water", "waste_water", "spa"]),
        waste_keys: strings(&["base_waste", "toxic"]),
    };
    let needs = PopulationSettings::build_default_needs(&data);
    let keys: std::collections::HashSet<&str> = needs.iter().map(|n| n.key.as_str()).collect();
    assert_eq!(keys.len(), needs.len());
}

#[test]
fn waste_water_in_both_tables_repeats_its_key() {
    let data = PopulationKeys {
        food_categories: vec![],
        service_keys: strings(&["waste_water"]),
        waste_keys: strings(&["waste_water"]),
    };
    let needs = PopulationSettings::build_default_needs(&data);
    let keys: Vec<&str> = needs.iter().map(|n| n.key.as_str()).collect();
    assert_eq!(keys, vec!["waste:waste_water", "waste:waste_water"]);
}
