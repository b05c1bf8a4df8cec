use resource_calculator_core::planner::recipe_selector::{has_cyclic_inputs, select_best_recipe};
use resource_calculator_core::planner::VisitingSet;
use resource_calculator_core::{Machine, Recipe};

fn create_recipe(id: &str, by: &str, inputs: Vec<(&str, u32)>, is_source: bool) -> Recipe {
    Recipe::new_for_test(
        id.to_string(),
        by.to_string(),
        60,
        inputs
            .into_iter()
            .map(|(k, v)| (k.to_string(), v))
            .collect(),
        vec![(id.to_string(), 1)],
        is_source,
    )
}

fn create_machine(id: &str, tier: u32, power: u32) -> Machine {
    Machine {
        id: id.to_string(),
        tier,
        power,
    }
}

fn setup_recipes_by_output(item_id: &str, recipe_ids: Vec<&str>) -> Vec<(String, Vec<String>)> {
    vec![(
        item_id.to_string(),
        recipe_ids.iter().map(|s| s.to_string()).collect(),
    )]
}

#[test]
fn test_avoids_cyclic_inputs() {
    // origocrust can be made from originium_ore or from origocrust_powder
    let recipe_cyclic = create_recipe(
        "origocrust",
        "refining_unit",
        vec![("origocrust_powder", 1)],
        false,
    );
    let recipe_acyclic = create_recipe(
        "origocrust",
        "refining_unit",
        vec![("originium_ore", 1)],
        false,
    );

    let recipes = vec![
        ("recipe_cyclic".to_string(), recipe_cyclic),
        ("recipe_acyclic".to_string(), recipe_acyclic),
    ];

    let recipes_by_output =
        setup_recipes_by_output("origocrust", vec!["recipe_cyclic", "recipe_acyclic"]);

    let machines = vec![(
        "refining_unit".to_string(),
        create_machine("refining_unit", 1, 5),
    )];

    let mut visiting = VisitingSet::new();
    visiting.insert("origocrust_powder".to_string());

    let selected = select_best_recipe(
        "origocrust",
        &recipes,
        &recipes_by_output,
        &machines,
        &visiting,
    );

    assert!(selected.is_some());
    assert_eq!(selected.unwrap().id, "origocrust");
    assert_eq!(selected.unwrap().by, "refining_unit");
    // Should select the recipe with originium_ore input to avoid cycle
    assert!(selected
        .unwrap()
        .inputs
        .iter()
        .any(|(k, _)| k == "originium_ore"));
}

#[test]
fn test_prefers_is_source() {
    // buckflower_seed can be picked (is_source=true) or could hypothetically be crafted
    let recipe_source = create_recipe(
        "buckflower_seed",
        "seed_picking_unit",
        vec![("buckflower", 1)],
        true,
    );
    let recipe_regular = create_recipe(
        "buckflower_seed",
        "gearing_unit",
        vec![("buckflower", 2)],
        false,
    );

    let recipes = vec![
        ("recipe_source".to_string(), recipe_source),
        ("recipe_regular".to_string(), recipe_regular),
    ];

    let recipes_by_output =
        setup_recipes_by_output("buckflower_seed", vec!["recipe_source", "recipe_regular"]);

    let machines = vec![
        (
            "seed_picking_unit".to_string(),
            create_machine("seed_picking_unit", 3, 10),
        ),
        (
            "gearing_unit".to_string(),
            create_machine("gearing_unit", 1, 10),
        ),
    ];

    let visiting = VisitingSet::new();

    let selected = select_best_recipe(
        "buckflower_seed",
        &recipes,
        &recipes_by_output,
        &machines,
        &visiting,
    );

    assert!(selected.is_some());
    assert_eq!(selected.unwrap().by, "seed_picking_unit");
    assert!(selected.unwrap().is_source);
}

#[test]
fn test_prefers_higher_tier() {
    // originium_ore can be mined by different tier machines
    let recipe_tier1 = create_recipe("originium_ore", "portable_originium_rig", vec![], true);
    let recipe_tier2 = create_recipe("originium_ore", "electric_mining_rig", vec![], true);
    let recipe_tier3 = create_recipe("originium_ore", "electric_mining_rig_mk2", vec![], true);

    let recipes = vec![
        ("recipe_tier1".to_string(), recipe_tier1),
        ("recipe_tier2".to_string(), recipe_tier2),
        ("recipe_tier3".to_string(), recipe_tier3),
    ];

    let recipes_by_output = setup_recipes_by_output(
        "originium_ore",
        vec!["recipe_tier1", "recipe_tier2", "recipe_tier3"],
    );

    let machines = vec![
        (
            "portable_originium_rig".to_string(),
            create_machine("portable_originium_rig", 1, 0),
        ),
        (
            "electric_mining_rig".to_string(),
            create_machine("electric_mining_rig", 2, 5),
        ),
        (
            "electric_mining_rig_mk2".to_string(),
            create_machine("electric_mining_rig_mk2", 3, 10),
        ),
    ];

    let visiting = VisitingSet::new();

    let selected = select_best_recipe(
        "originium_ore",
        &recipes,
        &recipes_by_output,
        &machines,
        &visiting,
    );

    assert!(selected.is_some());
    assert_eq!(selected.unwrap().by, "electric_mining_rig_mk2");
}

#[test]
fn test_prefers_lower_power() {
    // At same tier, prefer lower power consumption
    // Both tier 2, but different power
    let recipe_high_power = create_recipe("amethyst_ore", "electric_mining_rig", vec![], true);
    let recipe_low_power = create_recipe("amethyst_ore", "fluid_pump", vec![], true);

    let recipes = vec![
        ("recipe_high_power".to_string(), recipe_high_power),
        ("recipe_low_power".to_string(), recipe_low_power),
    ];

    let recipes_by_output =
        setup_recipes_by_output("amethyst_ore", vec!["recipe_high_power", "recipe_low_power"]);

    let machines = vec![
        (
            "electric_mining_rig".to_string(),
            create_machine("electric_mining_rig", 2, 10),
        ),
        ("fluid_pump".to_string(), create_machine("fluid_pump", 2, 5)),
    ];

    let visiting = VisitingSet::new();

    let selected = select_best_recipe(
        "amethyst_ore",
        &recipes,
        &recipes_by_output,
        &machines,
        &visiting,
    );

    assert!(selected.is_some());
    assert_eq!(selected.unwrap().by, "fluid_pump");
}

#[test]
fn test_returns_none_when_no_candidates() {
    let recipes: Vec<(String, Recipe)> = Vec::new();
    let recipes_by_output: Vec<(String, Vec<String>)> = Vec::new();
    let machines: Vec<(String, Machine)> = Vec::new();
    let visiting = VisitingSet::new();

    let selected = select_best_recipe(
        "nonexistent_item",
        &recipes,
        &recipes_by_output,
        &machines,
        &visiting,
    );

    assert!(selected.is_none());
}

#[test]
fn test_has_cyclic_inputs_checks_the_visiting_set() {
    let recipe = create_recipe(
        "origocrust",
        "refining_unit",
        vec![("origocrust_powder", 1)],
        false,
    );
    let mut visiting = VisitingSet::new();
    assert!(!has_cyclic_inputs(&recipe, &visiting));
    visiting.insert("origocrust_powder".to_string());
    assert!(has_cyclic_inputs(&recipe, &visiting));
    visiting.remove("origocrust_powder");
    assert!(!has_cyclic_inputs(&recipe, &visiting));
}
