use captain_calc::cli::commands::{
    difficulty_key, parse_command, parse_switch, Command, DifficultyCommand, DifficultyKey,
};

fn unknown(cmd: Command) -> String {
    match cmd {
        Command::Unknown(m) => m,
        other => panic!("expected an unknown command, got {:?}", other),
    }
}

#[test]
fn calculate_keeps_resource_and_rate_text() {
    match parse_command("計算 iron_plate 12") {
        Command::Calculate { resource_id, rate_text } => {
            assert_eq!(resource_id, "iron_plate");
            assert_eq!(rate_text, "12");
        }
        other => panic!("{:?}", other),
    }
    match parse_command("  calc   copper_plate\t7.5 extra ") {
        Command::Calculate { resource_id, rate_text } => {
            assert_eq!(resource_id, "copper_plate");
            assert_eq!(rate_text, "7.5");
        }
        other => panic!("{:?}", other),
    }
}

#[test]
fn calculate_without_rate_shows_usage() {
    assert_eq!(unknown(parse_command("calculate iron_plate")), "用法: 計算 <resource_id> <rate>");
}

#[test]
fn calculate_with_a_rate_that_is_no_number_shows_usage() {
    for line in ["calculate iron_plate abc", "calc x 1e", "calc x .", "calc x 1.2.3", "calc x --1", "calc x 0x10", "calc x infinit"] {
        assert_eq!(unknown(parse_command(line)), "用法: 計算 <resource_id> <rate>", "{}", line);
    }
}

#[test]
fn calculate_accepts_every_float_form() {
    for rate in ["1e3", "-2.5E-1", ".5", "5.", "+inf", "NaN", "Infinity", "-INFINITY", "007", "1E+05"] {
        match parse_command(&format!("calc iron_plate {}", rate)) {
            Command::Calculate { rate_text, .. } => assert_eq!(rate_text, rate),
            other => panic!("{}: {:?}", rate, other),
        }
    }
}

#[test]
fn calculate_agrees_with_std_on_what_a_number_is() {
    let texts = [
        "0", "12", "7.5", ".", "+", "-", "e5", "1e", "1e+", "1e+5", "1.e5", ".e5", "inf", "infinity", "infinityy",
        "nan", "nana", "+nan", "-Inf", "1_0", "１", "1.5E3", "+-1", "++1", "0.0.0", "5e-", "abc", "1f", "9999999999999999999999",
    ];
    for t in texts {
        let accepted = matches!(parse_command(&format!("calc r {}", t)), Command::Calculate { .. });
        assert_eq!(accepted, t.parse::<f64>().is_ok(), "{}", t);
    }
}

#[test]
fn blank_line_is_an_empty_unknown() {
    assert_eq!(unknown(parse_command("")), "");
    assert_eq!(unknown(parse_command("  \t ")), "");
}

#[test]
fn unknown_word_is_reported() {
    assert_eq!(unknown(parse_command("hello world")), "未知指令: hello");
}

#[test]
fn simple_commands_in_both_languages() {
    assert!(matches!(parse_command("平衡"), Command::Balance));
    assert!(matches!(parse_command("balance"), Command::Balance));
    assert!(matches!(parse_command("缺口"), Command::Gaps));
    assert!(matches!(parse_command("gaps"), Command::Gaps));
    assert!(matches!(parse_command("解鎖列表"), Command::UnlockedList));
    assert!(matches!(parse_command("unlocked"), Command::UnlockedList));
    assert!(matches!(parse_command("資源列表"), Command::ListResources));
    assert!(matches!(parse_command("buildings"), Command::ListBuildings));
    assert!(matches!(parse_command("research"), Command::ListResearch));
    assert!(matches!(parse_command("?"), Command::Help));
    assert!(matches!(parse_command("幫助"), Command::Help));
    for q in ["離開", "quit", "exit", "q"] {
        assert!(matches!(parse_command(q), Command::Quit));
    }
}

#[test]
fn difficulty_show_and_set() {
    assert!(matches!(parse_command("難度"), Command::Difficulty(DifficultyCommand::Show)));
    assert!(matches!(parse_command("difficulty food"), Command::Difficulty(DifficultyCommand::Show)));
    match parse_command("difficulty maintenance 2") {
        Command::Difficulty(DifficultyCommand::SetValue { key, value }) => {
            assert_eq!(key, "maintenance");
            assert_eq!(value, "2");
        }
        other => panic!("{:?}", other),
    }
}

#[test]
fn unlock_lock_and_prefer() {
    match parse_command("解鎖 iron_smelting_scrap") {
        Command::Unlock { research_id } => assert_eq!(research_id, "iron_smelting_scrap"),
        other => panic!("{:?}", other),
    }
    match parse_command("lock basic") {
        Command::Lock { research_id } => assert_eq!(research_id, "basic"),
        other => panic!("{:?}", other),
    }
    assert_eq!(unknown(parse_command("unlock")), "用法: 解鎖 <research_id>");
    assert_eq!(unknown(parse_command("鎖定")), "用法: 鎖定 <research_id>");
    match parse_command("prefer iron_plate cast_iron") {
        Command::Prefer { resource_id, recipe_id } => {
            assert_eq!(resource_id, "iron_plate");
            assert_eq!(recipe_id, "cast_iron");
        }
        other => panic!("{:?}", other),
    }
    assert_eq!(unknown(parse_command("偏好 iron_plate")), "用法: 偏好 <resource_id> <recipe_id>");
}

#[test]
fn recipe_list_takes_an_optional_building() {
    match parse_command("配方列表") {
        Command::ListRecipes { building_id } => assert_eq!(building_id, None),
        other => panic!("{:?}", other),
    }
    match parse_command("recipes blast_furnace") {
        Command::ListRecipes { building_id } => assert_eq!(building_id.as_deref(), Some("blast_furnace")),
        other => panic!("{:?}", other),
    }
}

#[test]
fn population_reads_count_and_tier() {
    match parse_command("人口 1000 2") {
        Command::Population { count, housing_tier } => {
            assert_eq!(count, 1000);
            assert_eq!(housing_tier, Some(2));
        }
        other => panic!("{:?}", other),
    }
    match parse_command("pop 50 x") {
        Command::Population { count, housing_tier } => {
            assert_eq!(count, 50);
            assert_eq!(housing_tier, None);
        }
        other => panic!("{:?}", other),
    }
    assert_eq!(unknown(parse_command("population many")), "用法: 人口 <人數> [住宅等級]");
    assert_eq!(unknown(parse_command("pop")), "用法: 人口 <人數> [住宅等級]");
}

#[test]
fn difficulty_keys_in_both_languages() {
    let k = |s: &str| difficulty_key(&s.to_string());
    assert_eq!(k("maintenance"), Some(DifficultyKey::Maintenance));
    assert_eq!(k("維護"), Some(DifficultyKey::Maintenance));
    assert_eq!(k("燃油"), Some(DifficultyKey::Fuel));
    assert_eq!(k("food"), Some(DifficultyKey::Food));
    assert_eq!(k("商品"), Some(DifficultyKey::Goods));
    assert_eq!(k("conveyor"), Some(DifficultyKey::Conveyor));
    assert_eq!(k("倉儲"), Some(DifficultyKey::Storage));
    assert_eq!(k("speed"), None);
}

#[test]
fn switches_read_on_and_off() {
    let p = |s: &str| parse_switch(&s.to_string());
    assert_eq!(p("on"), Some(true));
    assert_eq!(p("開"), Some(true));
    assert_eq!(p("off"), Some(false));
    assert_eq!(p("關"), Some(false));
    assert_eq!(p("yes"), None);
}
