//! Which way transforms are synchronised between the engine's nodes and Bevy,
//! per sync mode. The conversions themselves are floating-point math and live
//! with the engine glue.

use vstd::prelude::*;

verus! {

/// How transforms are synchronised.
#[derive(Debug, Clone, Copy, PartialEq, Eq)]
pub enum TransformSyncMode {
    /// No synchronisation.
    Disabled,
    /// Bevy writes its transforms to the engine's nodes.
    OneWay,
    /// Bevy also reads the nodes' transforms back before its update.
    TwoWay,
}

/// The synchronisation steps that run each frame.
#[derive(Debug, Clone, Copy, PartialEq, Eq)]
pub struct SyncPlan {
    /// Changed Bevy transforms are written to 3D nodes.
    pub write_3d: bool,
    /// Changed Bevy transforms are written to 2D nodes.
    pub write_2d: bool,
    /// 3D node transforms are read into unchanged Bevy transforms.
    pub read_3d: bool,
    /// 2D node transforms are read into unchanged Bevy transforms.
    pub read_2d: bool,
}

/// The steps of a mode: nothing when disabled; otherwise Bevy writes to both
/// kinds of node and reads back from 3D nodes, and reads back from 2D nodes
/// only in two-way mode.
pub fn sync_plan(mode: TransformSyncMode) -> (p: SyncPlan)
    ensures
        p.write_3d == (mode != TransformSyncMode::Disabled),
        p.write_2d == (mode != TransformSyncMode::Disabled),
        p.read_3d == (mode != TransformSyncMode::Disabled),
        p.read_2d == (mode == TransformSyncMode::TwoWay),
{
    let enabled = !matches!(mode, TransformSyncMode::Disabled);
    SyncPlan {
        write_3d: enabled,
        write_2d: enabled,
        read_3d: enabled,
        read_2d: matches!(mode, TransformSyncMode::TwoWay),
    }
}

} // verus!
