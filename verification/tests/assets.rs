use godot_bevy::assets::{
    fetch_outcome, load_outcome, next_load_step, open_failed_message, GodotAssetLoaderError, LoadStatus,
    LoadStep,
};

fn error_text(err: GodotAssetLoaderError) -> String {
    match err {
        GodotAssetLoaderError::ResourceLoadFailed(text) => text,
    }
}

#[test]
fn threaded_load_waits_while_in_progress() {
    assert!(matches!(next_load_step("res://a.tscn", LoadStatus::InProgress), LoadStep::Wait));
}

#[test]
fn threaded_load_fetches_once_loaded() {
    assert!(matches!(next_load_step("res://a.tscn", LoadStatus::Loaded), LoadStep::Fetch));
}

#[test]
fn threaded_load_failure_names_the_path() {
    match next_load_step("res://a.tscn", LoadStatus::Failed) {
        LoadStep::Fail(err) => assert_eq!(error_text(err), "Godot ResourceLoader failed to load: res://a.tscn"),
        other => panic!("unexpected step {other:?}"),
    }
}

#[test]
fn threaded_load_invalid_resource_names_the_path() {
    match next_load_step("res://broken.tres", LoadStatus::InvalidResource) {
        LoadStep::Fail(err) => {
            assert_eq!(error_text(err), "Invalid resource path or corrupted resource: res://broken.tres")
        }
        other => panic!("unexpected step {other:?}"),
    }
}

#[test]
fn synchronous_load_keeps_the_resource() {
    assert_eq!(load_outcome("res://a.png", Some(7u64)).unwrap(), 7);
}

#[test]
fn synchronous_load_without_resource_is_an_error() {
    let err = load_outcome::<u64>("res://missing.png", None).unwrap_err();
    assert_eq!(error_text(err), "Failed to load Godot resource: res://missing.png");
}

#[test]
fn fetched_load_without_resource_is_an_error() {
    assert_eq!(fetch_outcome("res://a.ogg", Some(3u8)).unwrap(), 3);
    let err = fetch_outcome::<u8>("res://a.ogg", None).unwrap_err();
    assert_eq!(error_text(err), "Failed to get loaded Godot resource: res://a.ogg");
}

#[test]
fn open_failure_message_quotes_the_path() {
    assert_eq!(open_failed_message("res://data.bin"), "Godot FileAccess could not open 'res://data.bin'");
}
