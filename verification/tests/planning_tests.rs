use captain_calc::calculator::chain::{ChainData, PlanSource, RecipeShape};
use captain_calc::engine::gap::{
    best_candidate, fresh_suggestions, is_gap_target, suggestion_candidates, suggestion_order,
    CandidateCost, GapRounds, MAX_GAP_ROUNDS,
};
use captain_calc::engine::solver::{BuildingInfo, RecipeCatalog, RecipeInfo, ResourceInfo, SelectionSettings};
use captain_calc::model::ids::{BuildingId, RecipeId, ResearchId, ResourceId};
use captain_calc::model::resource::ResourceCategory;

fn res(id: &str) -> ResourceId {
    ResourceId::new(id)
}

fn shape(id: &str, machine: &str, inputs: &[&str], outputs: &[&str]) -> RecipeShape {
    RecipeShape {
        id: id.to_string(),
        machine_id: machine.to_string(),
        inputs: inputs.iter().map(|r| res(r)).collect(),
        outputs: outputs.iter().map(|r| res(r)).collect(),
    }
}

fn smelting() -> ChainData {
    ChainData {
        recipes: vec![
            shape("smelter", "smelter", &["molten_iron"], &["iron_plate"]),
            shape("furnace", "furnace", &["iron_ore"], &["molten_iron", "slag"]),
        ],
        machine_ids: vec!["smelter".to_string(), "furnace".to_string()],
    }
}

#[test]
fn chain_finds_the_upstream_recipe() {
    let data = smelting();
    let plan = data.plan_chain("smelter", 0, &vec![]).expect("known recipe");
    assert_eq!(plan.recipe_index, 0);
    assert_eq!(plan.children.len(), 1);
    match &plan.children[0] {
        PlanSource::Recipe(up) => {
            assert_eq!(up.recipe_index, 1);
            assert_eq!(up.output_index, 0);
            assert!(matches!(up.children[0], PlanSource::RawMaterial));
        }
        _ => panic!("Expected upstream recipe"),
    }
}

#[test]
fn supplied_inputs_are_not_expanded() {
    let data = smelting();
    let plan = data.plan_chain("smelter", 0, &vec![res("molten_iron")]).expect("known recipe");
    assert!(matches!(plan.children[0], PlanSource::Supplied));
}

#[test]
fn unknown_recipe_machine_or_output_gives_no_chain() {
    let data = smelting();
    assert!(data.plan_chain("nope", 0, &vec![]).is_none());
    assert!(data.plan_chain("smelter", 1, &vec![]).is_none());
    let mut no_machine = smelting();
    no_machine.machine_ids.pop();
    assert!(no_machine.plan_chain("furnace", 0, &vec![]).is_none());
    // an upstream recipe whose machine is unknown counts as raw material
    let plan = no_machine.plan_chain("smelter", 0, &vec![]).expect("known recipe");
    assert!(matches!(plan.children[0], PlanSource::RawMaterial));
}

#[test]
fn a_recipe_feeding_itself_is_cut() {
    let data = ChainData {
        recipes: vec![shape("loop", "m", &["seed"], &["seed", "grain"])],
        machine_ids: vec!["m".to_string()],
    };
    let plan = data.plan_chain("loop", 1, &vec![]).expect("known recipe");
    assert!(matches!(plan.children[0], PlanSource::CycleDetected));
    assert_eq!(data.find_recipe_for_resource(&res("grain")), Some((0, 1)));
    assert_eq!(data.find_recipe_for_resource(&res("rock")), None);
}

#[test]
fn raw_inputs_and_pollution_get_no_suggestion() {
    assert!(is_gap_target(false, &ResourceCategory::Intermediate));
    assert!(!is_gap_target(true, &ResourceCategory::Intermediate));
    assert!(!is_gap_target(false, &ResourceCategory::Pollution));
}

#[test]
fn candidates_are_unlocked_producers_with_known_buildings() {
    let catalog = RecipeCatalog {
        resources: vec![ResourceInfo { id: res("power"), is_primary: false, is_pollution: false }],
        recipes: vec![
            RecipeInfo { id: RecipeId::new("diesel_gen"), building_id: BuildingId::new("gen"), inputs: vec![], outputs: vec![res("power")], is_default: true, research_required: None },
            RecipeInfo { id: RecipeId::new("turbine"), building_id: BuildingId::new("turbine"), inputs: vec![], outputs: vec![res("power")], is_default: true, research_required: Some(ResearchId::new("steam")) },
            RecipeInfo { id: RecipeId::new("ghost"), building_id: BuildingId::new("missing"), inputs: vec![], outputs: vec![res("power")], is_default: true, research_required: None },
            RecipeInfo { id: RecipeId::new("smelt"), building_id: BuildingId::new("gen"), inputs: vec![], outputs: vec![res("iron")], is_default: true, research_required: None },
        ],
        buildings: vec![
            BuildingInfo { id: BuildingId::new("gen"), research_required: None },
            BuildingInfo { id: BuildingId::new("turbine"), research_required: None },
        ],
    };
    let mut s = SelectionSettings::new();
    assert_eq!(suggestion_candidates(&catalog, &res("power"), &s), vec![0, 1]);
    s.unlock(&ResearchId::new("basic"));
    assert_eq!(suggestion_candidates(&catalog, &res("power"), &s), vec![0]);
}

#[test]
fn cheapest_candidate_wins_and_ties_keep_the_first() {
    let costs = vec![
        CandidateCost { workers: 4, width: 2, height: 2, machines: 2 },
        CandidateCost { workers: 2, width: 3, height: 2, machines: 2 },
        CandidateCost { workers: 3, width: 1, height: 2, machines: 2 },
    ];
    // doubled scores: 2*8+8 = 24, 2*4+12 = 20, 2*6+4 = 16
    assert_eq!(best_candidate(&costs), Some(2));
    let tie = vec![
        CandidateCost { workers: 1, width: 2, height: 1, machines: 1 },
        CandidateCost { workers: 2, width: 0, height: 0, machines: 1 },
    ];
    assert_eq!(best_candidate(&tie), Some(0));
    assert_eq!(best_candidate(&vec![]), None);
}

#[test]
fn only_unresolved_suggestions_are_new() {
    let suggested = vec![res("a"), res("b"), res("c")];
    let resolved = vec![res("b")];
    assert_eq!(fresh_suggestions(&suggested, &resolved), vec![0, 2]);
    assert!(fresh_suggestions(&suggested, &suggested).is_empty());
}

#[test]
fn suggestions_are_listed_by_name() {
    let names = vec!["鐵板".to_string(), "電力".to_string(), "銅板".to_string()];
    assert_eq!(suggestion_order(&names), vec![2, 0, 1]);
}

#[test]
fn gap_rounds_hand_out_each_resource_once() {
    let mut rounds = GapRounds::new();
    assert_eq!(rounds.next_round(&vec![res("power"), res("water")]), Some(vec![0, 1]));
    assert_eq!(rounds.next_round(&vec![res("water"), res("coal"), res("power")]), Some(vec![1]));
    assert_eq!(rounds.next_round(&vec![res("coal"), res("power")]), None);
    // once stopped, resolution stays stopped
    assert_eq!(rounds.next_round(&vec![res("steel")]), None);
}

#[test]
fn gap_rounds_stop_after_twenty_rounds() {
    let mut rounds = GapRounds::new();
    for k in 0..MAX_GAP_ROUNDS {
        assert_eq!(rounds.next_round(&vec![res(&format!("r{k}"))]), Some(vec![0]));
    }
    assert_eq!(rounds.next_round(&vec![res("late")]), None);
}
