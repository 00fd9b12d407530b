use captain_calc::engine::plan::{SolveNode, SolveStep};
use captain_calc::engine::solver::{
    BuildingInfo, RecipeCatalog, RecipeInfo, ResourceInfo, SelectionSettings,
};
use captain_calc::error::AppError;
use captain_calc::model::ids::{BuildingId, RecipeId, ResearchId, ResourceId};

fn res(id: &str) -> ResourceId {
    ResourceId::new(id)
}

fn resource(id: &str, is_primary: bool, is_pollution: bool) -> ResourceInfo {
    ResourceInfo { id: res(id), is_primary, is_pollution }
}

fn recipe(id: &str, building: &str, inputs: &[&str], outputs: &[&str], is_default: bool, research: Option<&str>) -> RecipeInfo {
    RecipeInfo {
        id: RecipeId::new(id),
        building_id: BuildingId::new(building),
        inputs: inputs.iter().map(|r| res(r)).collect(),
        outputs: outputs.iter().map(|r| res(r)).collect(),
        is_default,
        research_required: research.map(ResearchId::new),
    }
}

fn building(id: &str, research: Option<&str>) -> BuildingInfo {
    BuildingInfo { id: BuildingId::new(id), research_required: research.map(ResearchId::new) }
}

/// Iron plates cast from molten iron, molten iron smelted from scrap or ore,
/// copper locked behind its own research.
fn iron_catalog() -> RecipeCatalog {
    RecipeCatalog {
        resources: vec![
            resource("iron_plate", false, false),
            resource("molten_iron", false, false),
            resource("iron_scrap", true, false),
            resource("iron_ore", true, false),
            resource("exhaust", false, true),
            resource("copper_plate", false, false),
        ],
        recipes: vec![
            recipe("cast_iron", "metal_caster", &["molten_iron"], &["iron_plate"], true, None),
            recipe("bf_molten_iron_scrap", "blast_furnace", &["iron_scrap"], &["molten_iron", "exhaust"], true, Some("iron_smelting_scrap")),
            recipe("bf_molten_iron_ore", "blast_furnace", &["iron_ore"], &["molten_iron", "exhaust"], false, Some("iron_smelting_ore")),
            recipe("cast_copper", "metal_caster", &["copper_ore"], &["copper_plate"], true, Some("copper_smelting")),
        ],
        buildings: vec![building("metal_caster", None), building("blast_furnace", None)],
    }
}

fn scrap_only() -> SelectionSettings {
    let mut s = SelectionSettings::new();
    s.unlock(&ResearchId::new("iron_smelting_scrap"));
    s
}

fn node(step: &SolveStep) -> &SolveNode {
    match step {
        SolveStep::Produced(n) => n,
        _ => panic!("expected a production node"),
    }
}

#[test]
fn unlock_and_lock_research() {
    let mut s = SelectionSettings::new();
    assert!(s.nothing_unlocked());
    let id = ResearchId::new("iron_smelting_scrap");
    assert!(s.unlock(&id));
    assert!(!s.unlock(&id));
    assert!(s.is_unlocked(&id));
    assert!(!s.nothing_unlocked());
    assert!(s.lock(&id));
    assert!(!s.lock(&id));
    assert!(!s.is_unlocked(&id));
    assert!(s.nothing_unlocked());
}

#[test]
fn unlocked_research_is_listed_by_id() {
    let mut s = SelectionSettings::new();
    for id in ["c", "a", "b"] {
        s.unlock(&ResearchId::new(id));
    }
    let listed: Vec<String> = s.unlocked_sorted().into_iter().map(|r| r.0).collect();
    assert_eq!(listed, vec!["a", "b", "c"]);
}

#[test]
fn preferences_are_set_replaced_and_removed() {
    let mut s = SelectionSettings::new();
    let plate = res("iron_plate");
    assert_eq!(s.preference_for(&plate), None);
    s.set_preference(&plate, &RecipeId::new("a"));
    s.set_preference(&plate, &RecipeId::new("b"));
    assert_eq!(s.preference_for(&plate), Some(&RecipeId::new("b")));
    s.remove_preference(&plate);
    assert_eq!(s.preference_for(&plate), None);
}

#[test]
fn default_recipe_wins_then_smallest_id() {
    let cat = iron_catalog();
    let none = SelectionSettings::new();
    // with nothing unlocked every recipe counts as unlocked; the default one wins
    assert_eq!(cat.find_best_recipe(&res("molten_iron"), &none), Some(1));
    let mut both = SelectionSettings::new();
    both.unlock(&ResearchId::new("iron_smelting_ore"));
    assert_eq!(cat.find_best_recipe(&res("molten_iron"), &both), Some(2));
}

#[test]
fn preference_beats_default_when_usable() {
    let cat = iron_catalog();
    let mut s = SelectionSettings::new();
    s.set_preference(&res("molten_iron"), &RecipeId::new("bf_molten_iron_ore"));
    assert_eq!(cat.find_best_recipe(&res("molten_iron"), &s), Some(2));
    // a preference for a recipe that is locked is ignored
    s.unlock(&ResearchId::new("iron_smelting_scrap"));
    assert_eq!(cat.find_best_recipe(&res("molten_iron"), &s), Some(1));
}

#[test]
fn locked_research_hides_recipes() {
    let cat = iron_catalog();
    let s = scrap_only();
    assert!(cat.is_recipe_available(&cat.recipes[1], &s));
    assert!(!cat.is_recipe_available(&cat.recipes[2], &s));
    assert!(!cat.is_recipe_available(&cat.recipes[3], &s));
    assert_eq!(cat.find_best_recipe(&res("copper_plate"), &s), None);
}

#[test]
fn iron_plate_chain_has_caster_and_furnace() {
    let cat = iron_catalog();
    let plan = cat.plan_solve(&res("iron_plate"), &scrap_only()).expect("iron plates solve");
    let caster = node(&plan);
    assert_eq!(caster.recipe_index, 0);
    assert_eq!(caster.building_index, 0);
    assert_eq!(caster.inputs.len(), 1);
    let furnace = node(&caster.inputs[0]);
    assert_eq!(furnace.recipe_index, 1);
    assert_eq!(furnace.building_index, 1);
    assert!(matches!(furnace.inputs[0], SolveStep::Raw));
}

#[test]
fn copper_fails_while_its_research_is_locked() {
    let cat = iron_catalog();
    match cat.plan_solve(&res("copper_plate"), &scrap_only()) {
        Err(AppError::NoAvailableRecipe(id)) => assert_eq!(id.0, "copper_plate"),
        other => panic!("expected no available recipe, got {:?}", other.err()),
    }
}

#[test]
fn research_filter_on_a_small_catalog() {
    let cat = iron_catalog();
    let s = scrap_only();
    assert!(cat.plan_solve(&res("iron_plate"), &s).is_ok());
    assert!(cat.plan_solve(&res("copper_plate"), &s).is_err());
}

#[test]
fn unknown_resource_is_an_error() {
    let cat = iron_catalog();
    match cat.plan_solve(&res("gold"), &SelectionSettings::new()) {
        Err(AppError::ResourceNotFound(id)) => assert_eq!(id.0, "gold"),
        other => panic!("expected resource not found, got {:?}", other.err()),
    }
}

#[test]
fn missing_building_is_an_error() {
    let mut cat = iron_catalog();
    cat.buildings.remove(1);
    match cat.plan_solve(&res("iron_plate"), &scrap_only()) {
        Err(AppError::BuildingNotFound(id)) => assert_eq!(id.0, "blast_furnace"),
        other => panic!("expected building not found, got {:?}", other.err()),
    }
}

#[test]
fn an_input_error_stops_the_whole_chain() {
    let mut cat = iron_catalog();
    // copper plates now also need an unknown input before anything else
    cat.recipes[3] = recipe("cast_copper", "metal_caster", &["mystery", "iron_plate"], &["copper_plate"], true, None);
    match cat.plan_solve(&res("copper_plate"), &SelectionSettings::new()) {
        Err(AppError::ResourceNotFound(id)) => assert_eq!(id.0, "mystery"),
        other => panic!("expected the first input's error, got {:?}", other.err()),
    }
}

#[test]
fn raw_and_pollution_targets_stop_at_once() {
    let cat = iron_catalog();
    assert!(matches!(cat.plan_solve(&res("iron_ore"), &SelectionSettings::new()), Ok(SolveStep::Raw)));
    assert!(matches!(cat.plan_solve(&res("exhaust"), &SelectionSettings::new()), Ok(SolveStep::Pollution)));
}

#[test]
fn a_loop_is_cut_as_feedback() {
    let cat = RecipeCatalog {
        resources: vec![resource("a", false, false), resource("b", false, false)],
        recipes: vec![
            recipe("make_a", "plant", &["b"], &["a"], true, None),
            recipe("make_b", "plant", &["a"], &["b"], true, None),
        ],
        buildings: vec![building("plant", None)],
    };
    let plan = cat.plan_solve(&res("a"), &SelectionSettings::new()).expect("solves");
    let top = node(&plan);
    let below = node(&top.inputs[0]);
    assert_eq!(below.recipe_index, 1);
    assert!(matches!(below.inputs[0], SolveStep::Feedback));
}

#[test]
fn error_messages_name_the_id() {
    assert_eq!(AppError::ResourceNotFound(res("gold")).message(), "找不到資源: gold");
    assert_eq!(AppError::BuildingNotFound(BuildingId::new("mill")).message(), "找不到建築: mill");
    assert_eq!(AppError::RecipeNotFound(RecipeId::new("r")).message(), "找不到配方: r");
    assert_eq!(AppError::ResearchNotFound(ResearchId::new("x")).message(), "找不到研究: x");
    assert_eq!(
        AppError::NoAvailableRecipe(res("copper_plate")).message(),
        "無可用配方產出資源 copper_plate（可能尚未解鎖）"
    );
    assert_eq!(AppError::CycleDetected(res("a")).message(), "偵測到循環依賴: a");
    assert_eq!(AppError::ValidationError("bad".to_string()).message(), "資料驗證失敗: bad");
}

#[test]
fn preferences_are_listed_by_resource() {
    let mut s = SelectionSettings::new();
    s.set_preference(&res("steel"), &RecipeId::new("arc_furnace"));
    s.set_preference(&res("copper"), &RecipeId::new("smelt_copper"));
    s.set_preference(&res("iron"), &RecipeId::new("smelt_iron"));
    s.set_preference(&res("copper"), &RecipeId::new("electrolysis"));
    let listed: Vec<(String, String)> = s.preferences_sorted().into_iter().map(|(r, p)| (r.0, p.0)).collect();
    assert_eq!(listed, vec![
        ("copper".to_string(), "electrolysis".to_string()),
        ("iron".to_string(), "smelt_iron".to_string()),
        ("steel".to_string(), "arc_furnace".to_string()),
    ]);
}
