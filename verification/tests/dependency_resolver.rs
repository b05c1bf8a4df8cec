use resource_calculator_core::planner::dependency_resolver::resolve;
use resource_calculator_core::planner::VisitingSet;
use resource_calculator_core::{Machine, ProductionNode, Recipe};

fn create_recipe(
    id: &str,
    by: &str,
    inputs: Vec<(&str, u32)>,
    outputs: Vec<(&str, u32)>,
) -> Recipe {
    Recipe::new_for_test(
        id.to_string(),
        by.to_string(),
        60,
        inputs
            .into_iter()
            .map(|(k, v)| (k.to_string(), v))
            .collect(),
        outputs
            .into_iter()
            .map(|(k, v)| (k.to_string(), v))
            .collect(),
        false,
    )
}

fn create_machine(id: &str, tier: u32, power: u32) -> Machine {
    Machine {
        id: id.to_string(),
        tier,
        power,
    }
}

#[test]
fn test_linear_dependency() {
    // origocrust_powder requires originium_powder, which requires originium_ore
    let recipe_ore = create_recipe(
        "originium_ore",
        "electric_mining_rig",
        vec![],
        vec![("originium_ore", 1)],
    );
    let recipe_powder = create_recipe(
        "originium_powder",
        "shredding_unit",
        vec![("originium_ore", 1)],
        vec![("originium_powder", 1)],
    );
    let recipe_crust_powder = create_recipe(
        "origocrust_powder",
        "refining_unit",
        vec![("originium_powder", 1)],
        vec![("origocrust_powder", 1)],
    );

    let recipes = vec![
        (
            "originium_ore@electric_mining_rig[]".to_string(),
            recipe_ore,
        ),
        (
            "originium_powder@shredding_unit[originium_ore:1]".to_string(),
            recipe_powder,
        ),
        (
            "origocrust_powder@refining_unit[originium_powder:1]".to_string(),
            recipe_crust_powder,
        ),
    ];

    let recipes_by_output = vec![
        (
            "originium_ore".to_string(),
            vec!["originium_ore@electric_mining_rig[]".to_string()],
        ),
        (
            "originium_powder".to_string(),
            vec!["originium_powder@shredding_unit[originium_ore:1]".to_string()],
        ),
        (
            "origocrust_powder".to_string(),
            vec!["origocrust_powder@refining_unit[originium_powder:1]".to_string()],
        ),
    ];

    let machines = vec![
        (
            "electric_mining_rig".to_string(),
            create_machine("electric_mining_rig", 2, 5),
        ),
        (
            "shredding_unit".to_string(),
            create_machine("shredding_unit", 1, 10),
        ),
        (
            "refining_unit".to_string(),
            create_machine("refining_unit", 1, 5),
        ),
    ];

    let mut visiting = VisitingSet::new();
    let result = resolve(
        &recipes,
        &recipes_by_output,
        &machines,
        "origocrust_powder",
        1,
        &mut visiting,
    );

    match result {
        ProductionNode::Resolved {
            item_id, inputs, ..
        } => {
            assert_eq!(item_id, "origocrust_powder");
            assert_eq!(inputs.len(), 1);

            match &inputs[0] {
                ProductionNode::Resolved {
                    item_id: powder_id,
                    inputs: powder_inputs,
                    ..
                } => {
                    assert_eq!(powder_id, "originium_powder");
                    assert_eq!(powder_inputs.len(), 1);

                    match &powder_inputs[0] {
                        ProductionNode::Resolved {
                            item_id: ore_id, ..
                        } => {
                            assert_eq!(ore_id, "originium_ore");
                        }
                        _ => panic!("Expected Resolved node for originium_ore"),
                    }
                }
                _ => panic!("Expected Resolved node for originium_powder"),
            }
        }
        _ => panic!("Expected Resolved node for origocrust_powder"),
    }
}

#[test]
fn test_branching_dependency() {
    // amethyst_component requires both amethyst_fiber and origocrust
    let recipe_fiber = create_recipe(
        "amethyst_fiber",
        "refining_unit",
        vec![],
        vec![("amethyst_fiber", 1)],
    );
    let recipe_crust = create_recipe(
        "origocrust",
        "refining_unit",
        vec![],
        vec![("origocrust", 1)],
    );
    let recipe_component = create_recipe(
        "amethyst_component",
        "gearing_unit",
        vec![("amethyst_fiber", 5), ("origocrust", 5)],
        vec![("amethyst_component", 1)],
    );

    let recipes = vec![
        (
            "amethyst_fiber@refining_unit[]".to_string(),
            recipe_fiber,
        ),
        ("origocrust@refining_unit[]".to_string(), recipe_crust),
        (
            "amethyst_component@gearing_unit[amethyst_fiber:5,origocrust:5]".to_string(),
            recipe_component,
        ),
    ];

    let recipes_by_output = vec![
        (
            "amethyst_fiber".to_string(),
            vec!["amethyst_fiber@refining_unit[]".to_string()],
        ),
        (
            "origocrust".to_string(),
            vec!["origocrust@refining_unit[]".to_string()],
        ),
        (
            "amethyst_component".to_string(),
            vec!["amethyst_component@gearing_unit[amethyst_fiber:5,origocrust:5]".to_string()],
        ),
    ];

    let machines = vec![
        (
            "refining_unit".to_string(),
            create_machine("refining_unit", 1, 5),
        ),
        (
            "gearing_unit".to_string(),
            create_machine("gearing_unit", 1, 10),
        ),
    ];

    let mut visiting = VisitingSet::new();
    let result = resolve(
        &recipes,
        &recipes_by_output,
        &machines,
        "amethyst_component",
        1,
        &mut visiting,
    );

    match result {
        ProductionNode::Resolved {
            item_id, inputs, ..
        } => {
            assert_eq!(item_id, "amethyst_component");
            assert_eq!(inputs.len(), 2);

            let item_ids: Vec<String> = inputs
                .iter()
                .filter_map(|node| match node {
                    ProductionNode::Resolved { item_id, .. } => Some(item_id.clone()),
                    _ => None,
                })
                .collect();

            assert!(item_ids.contains(&"amethyst_fiber".to_string()));
            assert!(item_ids.contains(&"origocrust".to_string()));
        }
        _ => panic!("Expected Resolved node for amethyst_component"),
    }
}

#[test]
fn test_cycle_avoidance() {
    // origocrust can be made from originium_ore or from origocrust_powder (which comes from origocrust)
    let recipe_normal = create_recipe(
        "origocrust",
        "refining_unit",
        vec![("originium_ore", 1)],
        vec![("origocrust", 1)],
    );
    let recipe_powder = create_recipe(
        "origocrust",
        "refining_unit",
        vec![("origocrust_powder", 1)],
        vec![("origocrust", 1)],
    );

    let recipes = vec![
        (
            "origocrust@refining_unit[originium_ore:1]".to_string(),
            recipe_normal,
        ),
        (
            "origocrust@refining_unit[origocrust_powder:1]".to_string(),
            recipe_powder,
        ),
    ];

    let recipes_by_output = vec![(
        "origocrust".to_string(),
        vec![
            "origocrust@refining_unit[originium_ore:1]".to_string(),
            "origocrust@refining_unit[origocrust_powder:1]".to_string(),
        ],
    )];

    let machines = vec![(
        "refining_unit".to_string(),
        create_machine("refining_unit", 1, 5),
    )];

    let mut visiting = VisitingSet::new();
    let result = resolve(
        &recipes,
        &recipes_by_output,
        &machines,
        "origocrust",
        1,
        &mut visiting,
    );

    // Should select the originium_ore recipe to avoid potential cycle
    match result {
        ProductionNode::Resolved {
            item_id,
            machine_id,
            ..
        } => {
            assert_eq!(item_id, "origocrust");
            assert_eq!(machine_id, "refining_unit");
        }
        _ => panic!("Expected Resolved node"),
    }
}

#[test]
fn test_unresolved_when_no_recipe() {
    let recipes: Vec<(String, Recipe)> = Vec::new();
    let recipes_by_output: Vec<(String, Vec<String>)> = Vec::new();
    let machines: Vec<(String, Machine)> = Vec::new();

    let mut visiting = VisitingSet::new();
    let result = resolve(
        &recipes,
        &recipes_by_output,
        &machines,
        "unknown_material",
        10,
        &mut visiting,
    );

    match result {
        ProductionNode::Unresolved { item_id, amount } => {
            assert_eq!(item_id, "unknown_material");
            assert_eq!(amount, 10);
        }
        _ => panic!("Expected Unresolved node"),
    }
}
