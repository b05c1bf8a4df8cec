use resource_calculator_core::models::production::LoadRatio;
use resource_calculator_core::planner::{plan_production, VisitingSet};
use resource_calculator_core::url_params::parse_u32;
use resource_calculator_core::{Locale, Localizer, Machine, ProductionNode, Recipe, UrlParams};

fn source_recipe(id: &str, by: &str, time: u32) -> Recipe {
    Recipe::new_for_test(
        id.to_string(),
        by.to_string(),
        time,
        Vec::new(),
        vec![(id.to_string(), 1)],
        true,
    )
}

fn crafting_recipe(id: &str, by: &str, time: u32, inputs: Vec<(&str, u32)>) -> Recipe {
    Recipe::new_for_test(
        id.to_string(),
        by.to_string(),
        time,
        inputs
            .into_iter()
            .map(|(k, v)| (k.to_string(), v))
            .collect(),
        vec![(id.to_string(), 1)],
        false,
    )
}

fn machine(id: &str, tier: u32, power: u32) -> Machine {
    Machine {
        id: id.to_string(),
        tier,
        power,
    }
}

fn total_of(totals: &Vec<(String, u32)>, key: &str) -> Option<u32> {
    totals.iter().find(|(k, _)| k == key).map(|(_, v)| *v)
}

fn leaf_node(item: &str, amount: u32, power: u32, load: LoadRatio, is_source: bool) -> ProductionNode {
    ProductionNode::Resolved {
        item_id: item.to_string(),
        machine_id: "rig".to_string(),
        amount,
        machine_count: 1,
        power_usage: power,
        load,
        inputs: Vec::new(),
        is_source,
    }
}

#[test]
fn test_planned_scenario_thirty_one_per_minute() {
    // One recipe: item x, 1 per cycle, cycle time 2 s, on machine m (power 5).
    // Requesting 31 per minute needs 62/60 machine-seconds per second:
    // 2 machines, load 62/120, power 10.
    let recipes = vec![("x@m[]".to_string(), crafting_recipe("x", "m", 2, vec![]))];
    let recipes_by_output = vec![("x".to_string(), vec!["x@m[]".to_string()])];
    let machines = vec![("m".to_string(), machine("m", 1, 5))];

    let mut visiting = VisitingSet::new();
    let node = plan_production(&recipes, &recipes_by_output, &machines, "x", 31, &mut visiting);

    match node {
        ProductionNode::Resolved {
            item_id,
            machine_id,
            amount,
            machine_count,
            power_usage,
            load,
            inputs,
            ..
        } => {
            assert_eq!(item_id, "x");
            assert_eq!(machine_id, "m");
            assert_eq!(amount, 31);
            assert_eq!(machine_count, 2);
            assert_eq!(power_usage, 10);
            assert_eq!(load.num, 62);
            assert_eq!(load.den, 120);
            assert!(inputs.is_empty());
        }
        _ => panic!("expected a resolved node"),
    }
}

#[test]
fn test_planned_scenario_utilization_rounds_to_52() {
    // Same single-step plan: load 62/120 = 0.51666..., reported as 52%.
    let recipes = vec![("x@m[]".to_string(), crafting_recipe("x", "m", 2, vec![]))];
    let recipes_by_output = vec![("x".to_string(), vec!["x@m[]".to_string()])];
    let machines = vec![("m".to_string(), machine("m", 1, 5))];

    let mut visiting = VisitingSet::new();
    let node = plan_production(&recipes, &recipes_by_output, &machines, "x", 31, &mut visiting);
    assert_eq!(node.utilization(), 52);
}

#[test]
fn test_unresolved_leaves_visiting_untouched() {
    let recipes: Vec<(String, Recipe)> = Vec::new();
    let recipes_by_output: Vec<(String, Vec<String>)> = Vec::new();
    let machines: Vec<(String, Machine)> = Vec::new();

    let mut visiting = VisitingSet::new();
    visiting.insert("other_item".to_string());

    let node = plan_production(
        &recipes,
        &recipes_by_output,
        &machines,
        "unknown_material",
        10,
        &mut visiting,
    );

    match node {
        ProductionNode::Unresolved { item_id, amount } => {
            assert_eq!(item_id, "unknown_material");
            assert_eq!(amount, 10);
        }
        _ => panic!("expected an unresolved node"),
    }
    assert!(visiting.contains("other_item"));
    assert!(!visiting.contains("unknown_material"));
}

#[test]
fn test_branching_machines_not_double_counted() {
    // Root on its own machine, two independent inputs each on their own
    // machine; the machine totals keep the three counts apart.
    let recipes = vec![
        (
            "root@assembler[part_a:2,part_b:3]".to_string(),
            crafting_recipe("root", "assembler", 60, vec![("part_a", 2), ("part_b", 3)]),
        ),
        (
            "part_a@smelter_a[]".to_string(),
            source_recipe("part_a", "smelter_a", 60),
        ),
        (
            "part_b@smelter_b[]".to_string(),
            source_recipe("part_b", "smelter_b", 60),
        ),
    ];
    let recipes_by_output = vec![
        (
            "root".to_string(),
            vec!["root@assembler[part_a:2,part_b:3]".to_string()],
        ),
        ("part_a".to_string(), vec!["part_a@smelter_a[]".to_string()]),
        ("part_b".to_string(), vec!["part_b@smelter_b[]".to_string()]),
    ];
    let machines = vec![
        ("assembler".to_string(), machine("assembler", 1, 1)),
        ("smelter_a".to_string(), machine("smelter_a", 1, 1)),
        ("smelter_b".to_string(), machine("smelter_b", 1, 1)),
    ];

    let mut visiting = VisitingSet::new();
    let node = plan_production(&recipes, &recipes_by_output, &machines, "root", 1, &mut visiting);

    match &node {
        ProductionNode::Resolved { inputs, .. } => {
            assert_eq!(inputs.len(), 2);
        }
        _ => panic!("expected a resolved node"),
    }

    let totals = node.total_machines();
    assert_eq!(total_of(&totals, "assembler"), Some(1));
    assert_eq!(total_of(&totals, "smelter_a"), Some(2));
    assert_eq!(total_of(&totals, "smelter_b"), Some(3));
    assert_eq!(totals.len(), 3);
}

#[test]
fn test_source_materials_only_from_leaves() {
    // leaf <- mid <- root: only the leaf item appears in the raw totals.
    let recipes = vec![
        (
            "root@press[mid:1]".to_string(),
            crafting_recipe("root", "press", 60, vec![("mid", 1)]),
        ),
        (
            "mid@press[leaf:1]".to_string(),
            crafting_recipe("mid", "press", 60, vec![("leaf", 1)]),
        ),
        ("leaf@rig[]".to_string(), source_recipe("leaf", "rig", 60)),
    ];
    let recipes_by_output = vec![
        ("root".to_string(), vec!["root@press[mid:1]".to_string()]),
        ("mid".to_string(), vec!["mid@press[leaf:1]".to_string()]),
        ("leaf".to_string(), vec!["leaf@rig[]".to_string()]),
    ];
    let machines = vec![
        ("press".to_string(), machine("press", 1, 2)),
        ("rig".to_string(), machine("rig", 1, 1)),
    ];

    let mut visiting = VisitingSet::new();
    let node = plan_production(&recipes, &recipes_by_output, &machines, "root", 1, &mut visiting);

    let totals = node.total_source_materials();
    assert_eq!(total_of(&totals, "leaf"), Some(1));
    assert_eq!(total_of(&totals, "mid"), None);
    assert_eq!(total_of(&totals, "root"), None);
    assert_eq!(totals.len(), 1);
}

#[test]
fn test_mutual_cycle_terminates_with_truncated_branch() {
    // item_a needs item_b and item_b needs item_a: resolving item_a ends,
    // and the repeated inner occurrence is simply absent, not an error node.
    let recipes = vec![
        (
            "item_a@press[item_b:1]".to_string(),
            crafting_recipe("item_a", "press", 60, vec![("item_b", 1)]),
        ),
        (
            "item_b@press[item_a:1]".to_string(),
            crafting_recipe("item_b", "press", 60, vec![("item_a", 1)]),
        ),
    ];
    let recipes_by_output = vec![
        ("item_a".to_string(), vec!["item_a@press[item_b:1]".to_string()]),
        ("item_b".to_string(), vec!["item_b@press[item_a:1]".to_string()]),
    ];
    let machines = vec![("press".to_string(), machine("press", 1, 2))];

    let mut visiting = VisitingSet::new();
    let node = plan_production(
        &recipes,
        &recipes_by_output,
        &machines,
        "item_a",
        1,
        &mut visiting,
    );

    match node {
        ProductionNode::Resolved {
            item_id, inputs, ..
        } => {
            assert_eq!(item_id, "item_a");
            assert_eq!(inputs.len(), 1);
            match &inputs[0] {
                ProductionNode::Resolved {
                    item_id: inner_id,
                    inputs: inner_inputs,
                    ..
                } => {
                    assert_eq!(inner_id, "item_b");
                    assert!(inner_inputs.is_empty());
                }
                _ => panic!("expected a resolved inner node"),
            }
        }
        _ => panic!("expected a resolved node"),
    }
}

#[test]
fn test_utilization_of_leaf_and_chain() {
    let half = LoadRatio { num: 1, den: 2 };
    let leaf = leaf_node("ore", 1, 1, half, true);
    assert_eq!(leaf.utilization(), 50);

    let chained = ProductionNode::Resolved {
        item_id: "plate".to_string(),
        machine_id: "press".to_string(),
        amount: 1,
        machine_count: 1,
        power_usage: 2,
        load: half,
        inputs: vec![leaf_node("ore", 1, 1, half, true)],
        is_source: false,
    };
    // A bottleneck multiplies through the chain: 1/2 * 1/2 = 1/4.
    assert_eq!(chained.utilization(), 25);

    let fully_loaded = leaf_node("ore", 1, 1, LoadRatio::one(), true);
    assert_eq!(fully_loaded.utilization(), 100);

    let unresolved = ProductionNode::Unresolved {
        item_id: "ore".to_string(),
        amount: 1,
    };
    assert_eq!(unresolved.utilization(), 0);
}

#[test]
fn test_total_power_and_source_exclusion() {
    let child = leaf_node("ore", 1, 7, LoadRatio::one(), true);
    assert_eq!(child.total_power(), 7);
    assert_eq!(child.total_power_exclude_source(), 0);

    let root = ProductionNode::Resolved {
        item_id: "plate".to_string(),
        machine_id: "press".to_string(),
        amount: 1,
        machine_count: 1,
        power_usage: 10,
        load: LoadRatio::one(),
        inputs: vec![leaf_node("ore", 1, 7, LoadRatio::one(), true)],
        is_source: false,
    };
    assert_eq!(root.total_power(), 17);
    // A source contributes nothing wherever it stands: the source leaf is
    // left out of its parent's total as well.
    assert_eq!(root.total_power_exclude_source(), 10);
}

#[test]
fn test_source_exclusion_covers_the_whole_subtree() {
    // A source node in the middle of the tree is excluded together with
    // everything below it, even a non-source node standing underneath.
    let source_with_subtree = ProductionNode::Resolved {
        item_id: "ore".to_string(),
        machine_id: "rig".to_string(),
        amount: 1,
        machine_count: 1,
        power_usage: 7,
        load: LoadRatio::one(),
        inputs: vec![leaf_node("grit", 1, 3, LoadRatio::one(), false)],
        is_source: true,
    };
    let root = ProductionNode::Resolved {
        item_id: "plate".to_string(),
        machine_id: "press".to_string(),
        amount: 1,
        machine_count: 1,
        power_usage: 10,
        load: LoadRatio::one(),
        inputs: vec![source_with_subtree],
        is_source: false,
    };
    assert_eq!(root.total_power(), 20);
    assert_eq!(root.total_power_exclude_source(), 10);
}

#[test]
fn test_machines_totals_exclude_sources_per_node() {
    let root = ProductionNode::Resolved {
        item_id: "plate".to_string(),
        machine_id: "press".to_string(),
        amount: 1,
        machine_count: 2,
        power_usage: 2,
        load: LoadRatio::one(),
        inputs: vec![leaf_node("ore", 1, 1, LoadRatio::one(), true)],
        is_source: false,
    };
    let with_sources = root.total_machines();
    assert_eq!(total_of(&with_sources, "press"), Some(2));
    assert_eq!(total_of(&with_sources, "rig"), Some(1));
    let without_sources = root.total_machines_exclude_source();
    assert_eq!(total_of(&without_sources, "press"), Some(2));
    assert_eq!(total_of(&without_sources, "rig"), None);
}

#[test]
fn test_parse_u32_accepts_exactly_decimal_words() {
    assert_eq!(parse_u32("31"), Some(31));
    assert_eq!(parse_u32("0"), Some(0));
    assert_eq!(parse_u32("4294967295"), Some(u32::MAX));
    assert_eq!(parse_u32("4294967296"), None);
    assert_eq!(parse_u32("+12"), Some(12));
    assert_eq!(parse_u32("+"), None);
    assert_eq!(parse_u32("++1"), None);
    assert_eq!(parse_u32(""), None);
    assert_eq!(parse_u32("12a"), None);
    assert_eq!(parse_u32("-4"), None);
}

#[test]
fn test_url_params_sanitize_raw_query_values() {
    let kept = UrlParams::from_query_values(
        Some("origocrust".to_string()),
        Some("12".to_string()),
    );
    assert_eq!(kept.item.as_deref(), Some("origocrust"));
    assert_eq!(kept.amount, Some(12));

    let dropped = UrlParams::from_query_values(Some(String::new()), Some("0".to_string()));
    assert!(dropped.item.is_none());
    assert!(dropped.amount.is_none());

    let garbled = UrlParams::from_query_values(None, Some("a dozen".to_string()));
    assert!(garbled.item.is_none());
    assert!(garbled.amount.is_none());
}

#[test]
fn test_locale_codes_round_trip() {
    assert_eq!(Locale::English.code(), "en");
    assert_eq!(Locale::Japanese.code(), "ja");
    assert_eq!(Locale::from_code("EN"), Some(Locale::English));
    assert_eq!(Locale::from_code("english"), Some(Locale::English));
    assert_eq!(Locale::from_code("ja"), Some(Locale::Japanese));
    assert_eq!(Locale::from_code("JP"), Some(Locale::Japanese));
    assert_eq!(Locale::from_code("Japanese"), Some(Locale::Japanese));
    assert_eq!(Locale::from_code("de"), None);
}

#[test]
fn test_localizer_lookup_and_fallback() {
    let localizer = Localizer::from_tables(
        vec![("origocrust".to_string(), "Origocrust".to_string())],
        vec![("refining_unit".to_string(), "Refining Unit".to_string())],
        Vec::new(),
        Vec::new(),
    );
    assert_eq!(localizer.get_item("origocrust"), "Origocrust");
    assert_eq!(localizer.get_item("ferrium"), "ferrium");
    assert_eq!(localizer.get_machine("refining_unit"), "Refining Unit");
    assert_eq!(localizer.get_reading("origocrust"), "origocrust");
    assert_eq!(localizer.get_ui("title"), "title");

    let empty = Localizer::empty();
    assert_eq!(empty.get_machine("refining_unit"), "refining_unit");
}

#[test]
fn test_is_leaf_on_each_variant() {
    let leaf = leaf_node("ore", 1, 1, LoadRatio::one(), true);
    assert!(leaf.is_leaf());
    let parent = ProductionNode::Resolved {
        item_id: "plate".to_string(),
        machine_id: "press".to_string(),
        amount: 1,
        machine_count: 1,
        power_usage: 1,
        load: LoadRatio::one(),
        inputs: vec![leaf_node("ore", 1, 1, LoadRatio::one(), true)],
        is_source: false,
    };
    assert!(!parent.is_leaf());
    let unresolved = ProductionNode::Unresolved {
        item_id: "ore".to_string(),
        amount: 1,
    };
    assert!(!unresolved.is_leaf());
}
