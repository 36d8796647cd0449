use godot_bevy::frames::{FrameHost, FrameWork};

fn work(startup: bool, prefix: bool, process_fallback: bool, fixed_step: bool, suffix: bool) -> FrameWork {
    FrameWork { startup, prefix, process_fallback, fixed_step, suffix }
}

#[test]
fn first_frame_with_physics_steps() {
    let mut host = FrameHost::new();
    assert_eq!(host.physics_step(), work(true, true, false, true, false));
    assert_eq!(host.physics_step(), work(false, false, false, true, false));
    assert_eq!(host.process(), work(false, false, false, false, true));
    assert_eq!(host, FrameHost { started: true, prefix_done_this_frame: false });
}

#[test]
fn frame_without_physics_runs_the_prefix_as_fallback() {
    let mut host = FrameHost::new();
    assert_eq!(host.process(), work(true, true, true, false, true));
    assert_eq!(host.process(), work(false, true, true, false, true));
    assert_eq!(host.physics_step(), work(false, true, false, true, false));
    assert_eq!(host.process(), work(false, false, false, false, true));
}
