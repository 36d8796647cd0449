//! Verified core of a Bevy/Godot integration layer: collision pair tracking,
//! rate-limited diagnostics, input action snapshots, the debugger's transport
//! model and request handling, the world inspector's outline, sound
//! bookkeeping, log formatting, and a few naming helpers.

pub mod collisions;
pub mod event_bridge;
pub mod text;
pub mod debugger;
pub mod inspector;
pub mod logger;
pub mod input;
pub mod assets;
pub mod markers;
pub mod audio;
pub mod sounds;
pub mod frames;
pub mod signals;
pub mod transforms;
