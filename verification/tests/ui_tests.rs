use captain_calc::text::contains_chars;
use captain_calc::ui::recipe_browser::{display_name, distinct_tiers, RecipeBrowserState, RecipeListing};
use captain_calc::gui::data_browser::{matching_rows, row_passes, BrowserTab};
use captain_calc::ui::recipe_editor::{RecipeEditorState, RecipeFields};

fn chars(s: &str) -> Vec<char> {
    s.chars().collect()
}

fn lines(pairs: &[(&str, &str)]) -> Vec<(String, String)> {
    pairs.iter().map(|(a, b)| (a.to_string(), b.to_string())).collect()
}

fn listing(id: &str, name: &str, zh: Option<&str>, machine: &str, tier: u32) -> RecipeListing {
    RecipeListing {
        id: id.to_string(),
        name: name.to_string(),
        name_zh: zh.map(|z| z.to_string()),
        machine_id: machine.to_string(),
        tier,
    }
}

fn assert_fresh(e: &RecipeEditorState) {
    assert!(!e.editing);
    assert_eq!(e.recipe_id, "");
    assert_eq!(e.name_en, "");
    assert_eq!(e.name_zh, "");
    assert_eq!(e.machine_id, "");
    assert_eq!(e.duration, "10");
    assert_eq!(e.tier, "0");
    assert_eq!(e.tags, "");
    assert_eq!(e.inputs, lines(&[("", "1")]));
    assert_eq!(e.outputs, lines(&[("", "1")]));
    assert_eq!(e.status_message, None);
}

fn sample_fields() -> RecipeFields {
    RecipeFields {
        id: "copper".to_string(),
        name: "Copper Plate".to_string(),
        name_zh: None,
        machine_id: "furnace".to_string(),
        duration: "10".to_string(),
        tier: "2".to_string(),
        tags: vec!["smelting".to_string(), "basic".to_string()],
        inputs: lines(&[("copper_ore", "2")]),
        outputs: lines(&[("copper_plate", "1")]),
    }
}

#[test]
fn editor_starts_fresh_and_clear_resets_it() {
    let mut e = RecipeEditorState::default();
    assert_fresh(&e);
    e.load_recipe(&sample_fields());
    e.status_message = Some("saved".to_string());
    e.clear();
    assert_fresh(&e);
}

#[test]
fn loading_a_recipe_fills_the_form() {
    let mut e = RecipeEditorState::default();
    e.status_message = Some("kept".to_string());
    e.load_recipe(&sample_fields());
    assert!(e.editing);
    assert_eq!(e.recipe_id, "copper");
    assert_eq!(e.name_en, "Copper Plate");
    assert_eq!(e.name_zh, "");
    assert_eq!(e.tier, "2");
    assert_eq!(e.tags, "smelting, basic");
    assert_eq!(e.inputs, lines(&[("copper_ore", "2")]));
    assert_eq!(e.status_message.as_deref(), Some("kept"));
}

#[test]
fn a_loaded_recipe_builds_back() {
    let mut e = RecipeEditorState::default();
    e.load_recipe(&sample_fields());
    let d = e.build_recipe().expect("complete form");
    assert_eq!(d.id, "copper");
    assert_eq!(d.name, "Copper Plate");
    assert_eq!(d.name_zh, None);
    assert_eq!(d.machine_id, "furnace");
    assert_eq!(d.duration, "10");
    assert_eq!(d.tier, 2);
    assert_eq!(d.tags, vec!["smelting".to_string(), "basic".to_string()]);
    assert_eq!(d.inputs, lines(&[("copper_ore", "2")]));
    assert_eq!(d.outputs, lines(&[("copper_plate", "1")]));
}

#[test]
fn missing_required_fields_give_no_recipe() {
    let mut e = RecipeEditorState::default();
    assert!(e.build_recipe().is_none());
    e.load_recipe(&sample_fields());
    e.machine_id.clear();
    assert!(e.build_recipe().is_none());
    e.machine_id = "furnace".to_string();
    e.name_en.clear();
    assert!(e.build_recipe().is_none());
}

#[test]
fn draft_reads_tier_tags_and_lines() {
    let mut e = RecipeEditorState::default();
    e.recipe_id = "r".to_string();
    e.name_en = "R".to_string();
    e.name_zh = "中文".to_string();
    e.machine_id = "m".to_string();
    e.tier = "two".to_string();
    e.tags = " a ,, b ,".to_string();
    e.inputs = lines(&[("", "5"), ("ore", "2.5"), ("", "x")]);
    e.outputs = lines(&[("plate", "1")]);
    let d = e.build_recipe().expect("complete form");
    assert_eq!(d.tier, 0);
    assert_eq!(d.name_zh.as_deref(), Some("中文"));
    assert_eq!(d.tags, vec!["a".to_string(), "b".to_string()]);
    assert_eq!(d.inputs, lines(&[("ore", "2.5")]));
}

fn filled_form() -> RecipeEditorState {
    let mut e = RecipeEditorState::default();
    e.recipe_id = "r".to_string();
    e.name_en = "R".to_string();
    e.machine_id = "m".to_string();
    e
}

#[test]
fn a_duration_that_is_no_number_gives_no_recipe() {
    let mut e = filled_form();
    assert!(e.build_recipe().is_some());
    e.duration = "abc".to_string();
    assert!(e.build_recipe().is_none());
    e.duration = "".to_string();
    assert!(e.build_recipe().is_none());
    e.duration = "1.5e1".to_string();
    assert_eq!(e.build_recipe().expect("a number").duration, "1.5e1");
}

#[test]
fn an_amount_that_is_no_number_gives_no_recipe() {
    let mut e = filled_form();
    e.inputs = lines(&[("ore", "two")]);
    assert!(e.build_recipe().is_none());
    e.inputs = lines(&[("ore", "2")]);
    e.outputs = lines(&[("plate", "")]);
    assert!(e.build_recipe().is_none());
    e.outputs = lines(&[("plate", "1"), ("", "junk")]);
    let d = e.build_recipe().expect("the unnamed line is dropped");
    assert_eq!(d.outputs, lines(&[("plate", "1")]));
}

#[test]
fn browser_starts_without_filters() {
    let b = RecipeBrowserState::default();
    assert_eq!(b.search_text, "");
    assert_eq!(b.selected_machine_filter, None);
    assert_eq!(b.selected_tier_filter, None);
    assert_eq!(b.selected_recipe_id, None);
}

#[test]
fn search_is_case_insensitive_over_names_and_id() {
    let recipes = vec![
        listing("copper_plate", "Copper Plate", Some("銅板"), "furnace", 1),
        listing("iron_plate", "Iron Plate", None, "furnace", 2),
        listing("gear", "Gear", Some("齒輪"), "assembler", 2),
    ];
    let mut b = RecipeBrowserState::default();
    assert_eq!(b.filter_recipes(&recipes), vec![0, 1, 2]);
    b.search_text = "PLATE".to_string();
    assert_eq!(b.filter_recipes(&recipes), vec![0, 1]);
    b.search_text = "齒".to_string();
    assert_eq!(b.filter_recipes(&recipes), vec![2]);
    b.search_text = "GEAR".to_string();
    assert_eq!(b.filter_recipes(&recipes), vec![2]);
    b.search_text = String::new();
    b.selected_machine_filter = Some("furnace".to_string());
    assert_eq!(b.filter_recipes(&recipes), vec![0, 1]);
    b.selected_tier_filter = Some(2);
    assert_eq!(b.filter_recipes(&recipes), vec![1]);
    b.search_text = "copper".to_string();
    assert!(b.filter_recipes(&recipes).is_empty());
}

#[test]
fn substring_search() {
    assert!(contains_chars(&chars("iron plate"), &chars("n p")));
    assert!(contains_chars(&chars("abc"), &chars("")));
    assert!(contains_chars(&chars("abc"), &chars("abc")));
    assert!(!contains_chars(&chars("abc"), &chars("abcd")));
    assert!(!contains_chars(&chars("abc"), &chars("ac")));
}

#[test]
fn tier_filter_offers_each_tier_once() {
    assert_eq!(distinct_tiers(&vec![3, 0, 2, 3, 0, 1]), vec![0, 1, 2, 3]);
    assert!(distinct_tiers(&vec![]).is_empty());
}

#[test]
fn recipes_are_listed_with_both_names() {
    assert_eq!(display_name(&listing("c", "Copper Plate", Some("銅板"), "f", 0)), "銅板 (Copper Plate)");
    assert_eq!(display_name(&listing("i", "Iron Plate", None, "f", 0)), "Iron Plate");
}

#[test]
fn tags_with_inner_spaces_survive_a_round_trip() {
    let mut fields = sample_fields();
    fields.name_zh = Some("銅板".to_string());
    fields.tags = vec!["heavy industry".to_string(), "T2".to_string()];
    let mut e = RecipeEditorState::default();
    e.load_recipe(&fields);
    assert_eq!(e.tags, "heavy industry, T2");
    assert_eq!(e.name_zh, "銅板");
    let d = e.build_recipe().expect("complete form");
    assert_eq!(d.tags, fields.tags);
    assert_eq!(d.name_zh.as_deref(), Some("銅板"));
    assert_eq!(d.tier, 2);
}

#[test]
fn data_browser_search_looks_in_every_text() {
    let rows = vec![
        vec!["iron_plate".to_string(), "鐵板".to_string(), "Iron Plate".to_string()],
        vec!["copper_ore".to_string(), "銅礦".to_string(), "Copper Ore".to_string()],
        vec!["slag".to_string(), "爐渣".to_string(), "Slag".to_string()],
    ];
    assert_eq!(matching_rows("", &rows), vec![0, 1, 2]);
    assert_eq!(matching_rows("ORE", &rows), vec![1]);
    assert_eq!(matching_rows("板", &rows), vec![0]);
    assert_eq!(matching_rows("a", &rows), vec![0, 2]);
    assert!(matching_rows("gold", &rows).is_empty());
    assert_ne!(BrowserTab::Resources, BrowserTab::Research);
}

#[test]
fn row_passes_reads_the_lowered_texts_it_is_given() {
    let fields = vec![chars("copper_ore"), chars("銅礦")];
    assert!(row_passes(&chars(""), &fields));
    assert!(row_passes(&chars("ore"), &fields));
    assert!(row_passes(&chars("礦"), &fields));
    assert!(!row_passes(&chars("ORE"), &fields));
    assert!(!row_passes(&chars("x"), &vec![]));
}

#[test]
fn recipe_passes_reads_the_lowered_texts_it_is_given() {
    let b = RecipeBrowserState { selected_machine_filter: Some("furnace".to_string()), ..RecipeBrowserState::default() };
    let r = listing("Copper", "Copper Plate", None, "furnace", 1);
    assert!(b.recipe_passes(&chars("plate"), &r, &chars("copper plate"), &None, &chars("copper")));
    // the texts are taken as given: nothing is lower-cased here
    assert!(!b.recipe_passes(&chars("plate"), &r, &chars("Copper Plate"), &None, &chars("Copper")));
    assert!(b.recipe_passes(&chars("板"), &r, &chars("x"), &Some(chars("銅板")), &chars("y")));
    let other = listing("gear", "Gear", None, "assembler", 1);
    assert!(!b.recipe_passes(&chars(""), &other, &chars("gear"), &None, &chars("gear")));
}
