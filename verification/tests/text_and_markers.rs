use godot_bevy::markers::{
    move_component_from_child_to_parent, prefix_ran_in_process_fallback, ComponentMove,
    ProcessFallbackPrefix,
};
use godot_bevy::text::{contains_text, parse_u64};

#[test]
fn decimal_text_parses_like_the_standard_parser() {
    assert_eq!(parse_u64("0"), Some(0));
    assert_eq!(parse_u64("+42"), Some(42));
    assert_eq!(parse_u64("18446744073709551615"), Some(u64::MAX));
    assert_eq!(parse_u64("18446744073709551616"), None);
    assert_eq!(parse_u64(""), None);
    assert_eq!(parse_u64("+"), None);
    assert_eq!(parse_u64("-1"), None);
    assert_eq!(parse_u64("1 "), None);
    for text in ["7", "+7", "007", "x", "", "99999999999999999999"] {
        assert_eq!(parse_u64(text), text.parse::<u64>().ok());
    }
}

#[test]
fn substring_search() {
    assert!(contains_text("PlayerCamera", "Camera"));
    assert!(contains_text("Player", ""));
    assert!(contains_text("", ""));
    assert!(!contains_text("Play", "Player"));
    assert!(!contains_text("abcab", "abd"));
    assert!(contains_text("aaab", "aab"));
}

#[test]
fn child_components_move_to_their_parents() {
    let moves = move_component_from_child_to_parent(&vec![(5, 1), (6, 1)]);
    assert_eq!(moves, vec![ComponentMove { from: 5, to: 1 }, ComponentMove { from: 6, to: 1 }]);
    assert!(move_component_from_child_to_parent(&vec![]).is_empty());
}

#[test]
fn process_fallback_flag_defaults_to_true() {
    assert!(prefix_ran_in_process_fallback(None));
    assert!(!prefix_ran_in_process_fallback(Some(ProcessFallbackPrefix(false))));
    assert!(prefix_ran_in_process_fallback(Some(ProcessFallbackPrefix(true))));
}
