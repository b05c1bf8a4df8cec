use resource_calculator_core::Recipe;

fn output_count_of(table: &Vec<(String, u32)>, key: &str) -> Option<u32> {
    table.iter().find(|(k, _)| k == key).map(|(_, v)| *v)
}

#[test]
fn test_normalize_out_field() {
    // carbon from jincao has out=2
    let mut recipe = Recipe {
        id: "carbon".to_string(),
        by: "refining_unit".to_string(),
        time: 2,
        out: Some(2),
        inputs: Vec::new(),
        outputs: Vec::new(),
        is_source: false,
    };

    recipe.normalize();

    assert_eq!(output_count_of(&recipe.outputs, "carbon"), Some(2));
    assert_eq!(recipe.outputs.len(), 1);
}

#[test]
fn test_normalize_this_keyword() {
    // Test "this" keyword replacement
    let mut recipe = Recipe {
        id: "origocrust".to_string(),
        by: "refining_unit".to_string(),
        time: 2,
        out: None,
        inputs: Vec::new(),
        outputs: vec![("this".to_string(), 1)],
        is_source: false,
    };

    recipe.normalize();

    assert_eq!(output_count_of(&recipe.outputs, "origocrust"), Some(1));
    assert_eq!(output_count_of(&recipe.outputs, "this"), None);
    assert_eq!(recipe.outputs.len(), 1);
}

#[test]
fn test_compute_unique_id_deterministic() {
    // amethyst_component recipe with multiple inputs
    let recipe1 = Recipe {
        id: "amethyst_component".to_string(),
        by: "gearing_unit".to_string(),
        time: 10,
        out: None,
        inputs: vec![
            ("origocrust".to_string(), 5),
            ("amethyst_fiber".to_string(), 5),
        ],
        outputs: Vec::new(),
        is_source: false,
    };

    // Same recipe with inputs in different order
    let recipe2 = Recipe {
        id: "amethyst_component".to_string(),
        by: "gearing_unit".to_string(),
        time: 10,
        out: None,
        inputs: vec![
            ("amethyst_fiber".to_string(), 5),
            ("origocrust".to_string(), 5),
        ],
        outputs: Vec::new(),
        is_source: false,
    };

    let id1 = recipe1.compute_unique_id();
    let id2 = recipe2.compute_unique_id();

    assert_eq!(id1, id2);
    assert_eq!(
        id1,
        "amethyst_component@gearing_unit[amethyst_fiber:5,origocrust:5]"
    );
}

#[test]
fn test_compute_unique_id_without_inputs() {
    let recipe = Recipe {
        id: "originium_ore".to_string(),
        by: "electric_mining_rig".to_string(),
        time: 2,
        out: None,
        inputs: Vec::new(),
        outputs: vec![("originium_ore".to_string(), 1)],
        is_source: true,
    };
    assert_eq!(
        recipe.compute_unique_id(),
        "originium_ore@electric_mining_rig[]"
    );
}

#[test]
fn test_compute_unique_id_renders_multi_digit_counts() {
    let recipe = Recipe {
        id: "cryston_component".to_string(),
        by: "gearing_unit".to_string(),
        time: 10,
        out: None,
        inputs: vec![("cryston".to_string(), 10), ("bond".to_string(), 205)],
        outputs: Vec::new(),
        is_source: false,
    };
    assert_eq!(
        recipe.compute_unique_id(),
        "cryston_component@gearing_unit[bond:205,cryston:10]"
    );
}
