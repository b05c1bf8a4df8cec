use resource_calculator_core::models::production::LoadRatio;
use resource_calculator_core::planner::calculator::calculate;
use resource_calculator_core::{Machine, Recipe};

fn create_recipe(id: &str, by: &str, time: u32, outputs: Vec<(&str, u32)>) -> Recipe {
    Recipe::new_for_test(
        id.to_string(),
        by.to_string(),
        time,
        Vec::new(),
        outputs
            .into_iter()
            .map(|(k, v)| (k.to_string(), v))
            .collect(),
        false,
    )
}

fn create_machine(id: &str, tier: u32, power: u32) -> Machine {
    Machine {
        id: id.to_string(),
        tier,
        power,
    }
}

fn load_fraction(load: &LoadRatio) -> f64 {
    load.num as f64 / load.den as f64
}

#[test]
fn test_machine_count_rounds_up() {
    // origocrust: time=2, out=1
    let recipe = create_recipe("origocrust", "refining_unit", 2, vec![("origocrust", 1)]);
    let machine = create_machine("refining_unit", 1, 5);

    // Required machines = (2 * 31) / 60 = 1.033..., should round up to 2
    let calc = calculate(&recipe, Some(&machine), 31, "origocrust");

    assert_eq!(calc.machine_count, 2);
}

#[test]
fn test_load_calculation() {
    // amethyst_fiber: time=2, out=1
    let recipe = create_recipe(
        "amethyst_fiber",
        "refining_unit",
        2,
        vec![("amethyst_fiber", 1)],
    );
    let machine = create_machine("refining_unit", 1, 5);

    // Required machines = (2 * 25) / 60 = 0.8333...
    // Machine count = 1 (rounded up)
    // Load = 0.8333... / 1 = 0.8333...
    let calc = calculate(&recipe, Some(&machine), 25, "amethyst_fiber");

    assert_eq!(calc.machine_count, 1);
    assert!((load_fraction(&calc.load) - 0.8333333).abs() < 0.0001);
}

#[test]
fn test_power_usage() {
    // ferrium: time=2, out=1, uses grinding_unit with power=20
    let recipe = create_recipe("ferrium", "refining_unit", 2, vec![("ferrium", 1)]);
    let machine = create_machine("refining_unit", 1, 5);

    // Required machines = (2 * 90) / 60 = 3
    // Machine count = 3, power = 5
    // Power usage = 3 * 5 = 15
    let calc = calculate(&recipe, Some(&machine), 90, "ferrium");

    assert_eq!(calc.machine_count, 3);
    assert_eq!(calc.power_usage, 15);
}

#[test]
fn test_required_crafts_with_multiple_output() {
    // carbon from jincao: time=2, out=2
    let recipe = create_recipe("carbon", "refining_unit", 2, vec![("carbon", 2)]);
    let machine = create_machine("refining_unit", 1, 5);

    // Required crafts = 10 / 2 = 5.0
    let calc = calculate(&recipe, Some(&machine), 10, "carbon");

    assert_eq!(
        calc.required_crafts.num as f64 / calc.required_crafts.den as f64,
        5.0
    );
}

#[test]
fn test_zero_time_recipe() {
    // Machine construction recipes have time=0
    let recipe = create_recipe("refining_unit", "hand", 0, vec![("refining_unit", 1)]);
    let machine = create_machine("hand", 0, 0);

    // Required machines = (0 * 10) / 60 = 0
    // Machine count = 0 (rounded up from 0)
    // Load should be the full-load sentinel when machine_count is 0
    let calc = calculate(&recipe, Some(&machine), 10, "refining_unit");

    assert_eq!(calc.machine_count, 0);
    assert_eq!(calc.load, LoadRatio::one());
    assert_eq!(calc.power_usage, 0);
}
