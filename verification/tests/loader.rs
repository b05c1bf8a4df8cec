use resource_calculator_core::{GameData, Machine, Recipe};

fn recipes_from_toml(content: &str) -> Vec<Recipe> {
    let table: toml::Table = content.parse().expect("recipe definitions should parse");
    let mut records = Vec::new();
    for entry in table["recipes"].as_array().expect("recipes array") {
        let inputs = match entry.get("inputs") {
            Some(v) => v
                .as_table()
                .expect("inputs table")
                .iter()
                .map(|(k, q)| (k.clone(), q.as_integer().expect("input count") as u32))
                .collect(),
            None => Vec::new(),
        };
        records.push(Recipe {
            id: entry["id"].as_str().expect("recipe id").to_string(),
            by: entry["by"].as_str().expect("recipe machine").to_string(),
            time: entry["time"].as_integer().expect("recipe time") as u32,
            out: entry
                .get("out")
                .map(|v| v.as_integer().expect("output count") as u32),
            inputs,
            outputs: Vec::new(),
            is_source: entry
                .get("is_source")
                .and_then(|v| v.as_bool())
                .unwrap_or(false),
        });
    }
    records
}

fn machines_from_toml(content: &str) -> Vec<Machine> {
    let table: toml::Table = content.parse().expect("machine definitions should parse");
    table["machines"]
        .as_array()
        .expect("machines array")
        .iter()
        .map(|entry| Machine {
            id: entry["id"].as_str().expect("machine id").to_string(),
            tier: entry["tier"].as_integer().expect("machine tier") as u32,
            power: entry["power"].as_integer().expect("machine power") as u32,
        })
        .collect()
}

#[test]
fn test_recipes_by_output_grouping() {
    let recipes_toml = r#"
[[recipes]]
id = "originium_ore"
by = "portable_originium_rig"
time = 2
out = 1
is_source = true

[[recipes]]
id = "originium_ore"
by = "electric_mining_rig"
time = 2
out = 1
is_source = true

[[recipes]]
id = "origocrust"
by = "refining_unit"
time = 2
out = 1
[recipes.inputs]
originium_ore = 1
"#;

    let machines_toml = r#"
[[machines]]
id = "portable_originium_rig"
tier = 1
power = 0

[[machines]]
id = "electric_mining_rig"
tier = 2
power = 5

[[machines]]
id = "refining_unit"
tier = 1
power = 5
"#;

    let data = GameData::from_records(
        recipes_from_toml(recipes_toml),
        machines_from_toml(machines_toml),
    );

    // Both originium_ore recipes should be grouped under "originium_ore"
    let ore_recipes = data
        .recipes_by_output
        .iter()
        .find(|(k, _)| k == "originium_ore")
        .map(|(_, v)| v);
    assert!(ore_recipes.is_some());
    assert_eq!(ore_recipes.unwrap().len(), 2);

    // origocrust should have only one recipe
    let crust_recipes = data
        .recipes_by_output
        .iter()
        .find(|(k, _)| k == "origocrust")
        .map(|(_, v)| v);
    assert!(crust_recipes.is_some());
    assert_eq!(crust_recipes.unwrap().len(), 1);

    // Total recipes should be 3
    assert_eq!(data.recipes.len(), 3);
}
