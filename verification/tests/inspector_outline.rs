use godot_bevy::inspector::{
    assets_section, count_resources, entities_section, entity_item, resources_section,
    sample_line, simple_component_name, world_outline, EntityRow, OutlineItem,
};

fn texts(items: &[OutlineItem]) -> Vec<&str> {
    items.iter().map(|item| item.text.as_str()).collect()
}

fn row(name: &str, components: &[&str]) -> EntityRow {
    EntityRow {
        name: name.to_owned(),
        component_count: components.len(),
        components: components.iter().map(|c| c.to_string()).collect(),
    }
}

#[test]
fn entity_item_lists_five_components_then_the_rest() {
    let item = entity_item(&row("Light (6)", &["A", "B", "C", "D", "E", "F", "G"]));
    assert_eq!(item.text, "• Light (6) (7 components)");
    assert_eq!(
        texts(&item.children),
        vec!["└ A", "└ B", "└ C", "└ D", "└ E", "└ ... and 2 more components"]
    );
    assert!(item.children.iter().all(|c| c.children.is_empty()));
}

#[test]
fn entity_item_with_few_components_lists_them_all() {
    let item = entity_item(&row("Empty Entity (3)", &[]));
    assert_eq!(item.text, "• Empty Entity (3) (0 components)");
    assert!(item.children.is_empty());
    let item = entity_item(&row("Player (1)", &["Name", "Transform"]));
    assert_eq!(texts(&item.children), vec!["└ Name", "└ Transform"]);
}

#[test]
fn entity_section_shows_fifteen_and_counts_the_rest() {
    let rows: Vec<EntityRow> = (0..16).map(|i| row(&format!("E{i}"), &["X"])).collect();
    let section = entities_section(&rows, 20);
    assert_eq!(section.text, "📦 Entities (20)");
    assert_eq!(section.children.len(), 1 + 15 + 1);
    assert_eq!(section.children[0].text, "🔍 Filter: [Simplified - showing first 15]");
    assert_eq!(section.children[1].text, "• E0 (1 components)");
    assert_eq!(section.children[15].text, "• E14 (1 components)");
    assert_eq!(section.children[16].text, "... and 5 more entities");
}

#[test]
fn entity_section_without_overflow_has_no_tail() {
    let rows = vec![row("A", &[])];
    let section = entities_section(&rows, 1);
    assert_eq!(
        texts(&section.children),
        vec!["🔍 Filter: [Simplified - showing first 15]", "• A (0 components)"]
    );
}

#[test]
fn resource_section_with_time_and_assets() {
    let section = resources_section(5, Some(("1.250".to_owned(), "0.016000".to_owned())), Some(3));
    assert_eq!(section.text, "🎛️ Resources (5)");
    assert_eq!(
        texts(&section.children),
        vec!["└ Time", "└ Assets<GodotResource>", "└ 3 other resource archetypes"]
    );
    assert_eq!(
        texts(&section.children[0].children),
        vec!["   elapsed_secs: 1.250", "   delta_secs: 0.016000"]
    );
    assert_eq!(
        texts(&section.children[1].children),
        vec!["   len: 3", "   capacity: 3"]
    );
    assert_eq!(
        texts(&section.children[2].children),
        vec![
            "   [Resources require reflection for full inspection]",
            "   [Consider implementing Debug display for your resources]"
        ]
    );
}

#[test]
fn resource_section_with_few_resources_counts_no_others() {
    let section = resources_section(1, None, None);
    assert_eq!(texts(&section.children), vec!["└ 0 other resource archetypes"]);
}

#[test]
fn asset_section_lists_ten_then_counts_the_rest() {
    let ids: Vec<String> = (0..10).map(|i| format!("id{i}")).collect();
    let section = assets_section(&ids, 12);
    assert_eq!(section.text, "🎨 Assets (12)");
    assert_eq!(section.children.len(), 1);
    let kind = &section.children[0];
    assert_eq!(kind.text, "└ GodotResource (12)");
    assert_eq!(kind.children.len(), 11);
    assert_eq!(kind.children[0].text, "   Asset_id0");
    assert_eq!(kind.children[10].text, "   ... and 2 more assets");
}

#[test]
fn asset_section_without_assets_says_so() {
    let section = assets_section(&Vec::new(), 0);
    assert_eq!(section.text, "🎨 Assets (0)");
    assert_eq!(
        texts(&section.children[0].children),
        vec!["   [No GodotResource assets loaded]"]
    );
}

#[test]
fn world_outline_has_three_sections() {
    let sections = world_outline(&vec![row("A", &[])], 1, 2, None, None, &Vec::new());
    assert_eq!(
        texts(&sections),
        vec!["📦 Entities (1)", "🎛️ Resources (2)", "🎨 Assets (0)"]
    );
}

#[test]
fn sample_line_joins_names_and_counts() {
    assert_eq!(sample_line(&Vec::new()), None);
    let samples = vec![("Light (6)".to_owned(), 4), ("Entity (2)".to_owned(), 0)];
    assert_eq!(
        sample_line(&samples).as_deref(),
        Some("  Sample entities: Light (6) (4), Entity (2) (0)")
    );
}

#[test]
fn component_names_are_shortened() {
    assert_eq!(simple_component_name("my_game::components::HealthComponent"), "Health");
    assert_eq!(simple_component_name("bevy_ecs::name::Name"), "Name");
    assert_eq!(simple_component_name("ComponentComponent"), "");
    assert_eq!(simple_component_name("a::Compo"), "Compo");
}

#[test]
fn resource_archetypes_are_counted() {
    let archetypes = vec![(0, 0), (0, 2), (3, 1), (0, 1)];
    assert_eq!(count_resources(&archetypes), 2);
    assert_eq!(count_resources(&Vec::new()), 0);
}
