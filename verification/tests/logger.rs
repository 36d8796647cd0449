use godot_bevy::logger::{echo, level_tag, location, log_line, Echo, LogLevel};

#[test]
fn level_tags_plain_and_colored() {
    assert_eq!(level_tag(LogLevel::Info, false), "I");
    assert_eq!(level_tag(LogLevel::Error, false), "E");
    assert_eq!(level_tag(LogLevel::Trace, true), "[color=LightGreen]T[/color]");
    assert_eq!(level_tag(LogLevel::Warn, true), "[color=Yellow]W[/color]");
    assert_eq!(level_tag(LogLevel::Error, true), "[color=Salmon]E[/color]");
}

#[test]
fn locations_keep_the_parent_directory() {
    assert_eq!(location(Some("plugins"), "/", "audio.rs", 42), "plugins/audio.rs:42");
    assert_eq!(location(None, "/", "main.rs", 7), "main.rs:7");
}

#[test]
fn plain_lines() {
    assert_eq!(
        log_line(Some("11:30:37.631"), LogLevel::Info, "ready", "src/app.rs:10", false),
        "11:30:37.631 I ready @ src/app.rs:10"
    );
    assert_eq!(
        log_line(None, LogLevel::Warn, "slow", "", false),
        "W slow @ "
    );
}

#[test]
fn colored_lines_dim_the_timestamp_and_location() {
    assert_eq!(
        log_line(Some("12:00:00.000"), LogLevel::Debug, "hi", "a/b.rs:1", true),
        "[color=DimGray]12:00:00.000 [/color][color=LightGreen]D[/color] hi [color=DimGray]@ a/b.rs:1[/color]"
    );
    assert_eq!(
        log_line(None, LogLevel::Error, "boom", "x.rs:2", true),
        "[color=DimGray][/color][color=Salmon]E[/color] boom [color=DimGray]@ x.rs:2[/color]"
    );
}

#[test]
fn warnings_and_errors_are_echoed() {
    assert_eq!(echo(LogLevel::Warn), Some(Echo::Warning));
    assert_eq!(echo(LogLevel::Error), Some(Echo::Error));
    assert_eq!(echo(LogLevel::Info), None);
    assert_eq!(echo(LogLevel::Trace), None);
}
