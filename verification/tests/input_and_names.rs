use godot_bevy::assets::GodotAssetReader;
use godot_bevy::input::MouseButton;
use godot_bevy::inspector::{
    guess_entity_name_from_components, guess_entity_name_with_name, inexistent_entity_name,
    pretty_type_name,
};
use godot_bevy::markers::FindEntityByNameExt;

#[test]
fn mouse_button_ordinals_follow_the_engine_enum() {
    let expected = [
        (1, MouseButton::Left),
        (2, MouseButton::Right),
        (3, MouseButton::Middle),
        (4, MouseButton::WheelUp),
        (5, MouseButton::WheelDown),
        (6, MouseButton::WheelLeft),
        (7, MouseButton::WheelRight),
        (8, MouseButton::Extra1),
        (9, MouseButton::Extra2),
        (0, MouseButton::Left),
        (42, MouseButton::Left),
    ];
    for (ordinal, button) in expected {
        assert_eq!(MouseButton::from_godot_ordinal(ordinal), button);
    }
    assert!(MouseButton::WheelLeft.is_wheel());
    assert!(!MouseButton::Extra1.is_wheel());
}

#[test]
fn pretty_names_keep_the_last_path_piece() {
    assert_eq!(pretty_type_name("my_game::player::Player"), "Player");
    assert_eq!(pretty_type_name("Vec<u8>"), "Vec_u8_");
    assert_eq!(
        pretty_type_name("bevy::prelude::HashMap<u32,f32>"),
        "HashMap_u32_f32_"
    );
    assert_eq!(pretty_type_name("alloc::vec::Vec<game::Item>"), "Item_");
    assert_eq!(pretty_type_name(":::x"), ":x");
}

#[test]
fn guessed_names_fall_back_to_entity_and_index() {
    assert_eq!(guess_entity_name_from_components(8), "Entity (8)");
    assert_eq!(guess_entity_name_from_components(0), "Entity (0)");
    assert_eq!(guess_entity_name_from_components(123), "Entity (123)");
    assert_eq!(guess_entity_name_with_name("Light", 6), "Light (6)");
    assert_eq!(inexistent_entity_name(0), "Entity 0 (inexistent)");
}

#[test]
fn asset_reader_prefixes_the_scheme() {
    let reader = GodotAssetReader::new("res://");
    assert_eq!(reader.godot_path("sounds/hit.ogg"), "res://sounds/hit.ogg");
    assert_eq!(GodotAssetReader::new("user://").godot_path(""), "user://");
}

#[test]
fn find_entity_by_name_returns_the_first_match() {
    let named = vec![
        ("player".to_string(), 3u64),
        ("enemy".to_string(), 4u64),
        ("player".to_string(), 5u64),
    ];
    assert_eq!((&named).find_entity_by_name("player"), Some(3));
    assert_eq!((&named).find_entity_by_name("enemy"), Some(4));
    assert_eq!((&named).find_entity_by_name("boss"), None);
}
