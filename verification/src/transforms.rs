//! Transform synchronization settings, and the choice of which transforms to write to Godot.

use vstd::prelude::*;

use bevy::ecs::component::Tick;

verus! {

/// Transform synchronization modes.
#[derive(Debug, Clone, Copy, PartialEq, Eq)]
pub enum TransformSyncMode {
    /// No transform syncing: use direct Godot physics (move_and_slide, etc.).
    Disabled,
    /// One-way sync: ECS → Godot only.
    OneWay,
    /// Two-way sync: ECS ↔ Godot.
    TwoWay,
}

impl Default for TransformSyncMode {
    fn default() -> (m: TransformSyncMode)
        ensures
            m == TransformSyncMode::OneWay,
    {
        TransformSyncMode::OneWay
    }
}

/// Configuration resource for transform syncing behavior.
#[derive(Debug, Clone, Copy)]
pub struct GodotTransformConfig {
    pub sync_mode: TransformSyncMode,
}

impl Default for GodotTransformConfig {
    fn default() -> (c: GodotTransformConfig)
        ensures
            c.sync_mode == TransformSyncMode::OneWay,
    {
        GodotTransformConfig { sync_mode: TransformSyncMode::OneWay }
    }
}

impl GodotTransformConfig {
    /// Disable all transform syncing: use direct Godot physics instead.
    pub fn disabled() -> (c: GodotTransformConfig)
        ensures
            c.sync_mode == TransformSyncMode::Disabled,
    {
        GodotTransformConfig { sync_mode: TransformSyncMode::Disabled }
    }

    /// Enable one-way sync (ECS → Godot), the default behavior.
    pub fn one_way() -> (c: GodotTransformConfig)
        ensures
            c.sync_mode == TransformSyncMode::OneWay,
    {
        GodotTransformConfig { sync_mode: TransformSyncMode::OneWay }
    }

    /// Enable two-way sync (ECS ↔ Godot) for hybrid apps.
    pub fn two_way() -> (c: GodotTransformConfig)
        ensures
            c.sync_mode == TransformSyncMode::TwoWay,
    {
        GodotTransformConfig { sync_mode: TransformSyncMode::TwoWay }
    }
}

/// Whether a configuration writes ECS transforms to Godot: in one-way and two-way sync.
pub open spec fn writes_to_godot(config: GodotTransformConfig) -> bool {
    config.sync_mode != TransformSyncMode::Disabled
}

/// Whether a configuration reads Godot transforms back into the ECS: in two-way sync only.
pub open spec fn reads_from_godot(config: GodotTransformConfig) -> bool {
    config.sync_mode == TransformSyncMode::TwoWay
}

/// Whether ECS transforms are written to Godot (see [`writes_to_godot`]).
pub fn transform_sync_enabled(config: &GodotTransformConfig) -> (r: bool)
    ensures
        r == writes_to_godot(*config),
{
    match config.sync_mode {
        TransformSyncMode::Disabled => false,
        _ => true,
    }
}

/// Whether Godot transforms are read back into the ECS (see [`reads_from_godot`]).
pub fn transform_sync_twoway_enabled(config: &GodotTransformConfig) -> (r: bool)
    ensures
        r == reads_from_godot(*config),
{
    match config.sync_mode {
        TransformSyncMode::TwoWay => true,
        _ => false,
    }
}

/// What each mode syncs, as the two run conditions decide it: disabled sync neither writes to
/// Godot nor reads from it, one-way sync only writes, two-way sync writes and reads; so reading
/// from Godot always comes with writing to it.
pub proof fn lemma_sync_directions(config: GodotTransformConfig)
    ensures
        config.sync_mode == TransformSyncMode::Disabled ==> !writes_to_godot(config)
            && !reads_from_godot(config),
        config.sync_mode == TransformSyncMode::OneWay ==> writes_to_godot(config)
            && !reads_from_godot(config),
        config.sync_mode == TransformSyncMode::TwoWay ==> writes_to_godot(config)
            && reads_from_godot(config),
        reads_from_godot(config) ==> writes_to_godot(config),
{
}

/// The plugin that keeps Bevy transforms and Godot node transforms in sync.
#[derive(Debug, Clone, Copy)]
pub struct GodotTransformSyncPlugin {
    /// The mode for syncing transforms between Godot and Bevy; only relevant when `auto_sync`
    /// is true.
    pub sync_mode: TransformSyncMode,
    /// When true, the automatic transform syncing systems are added.
    pub auto_sync: bool,
}

impl Default for GodotTransformSyncPlugin {
    fn default() -> (p: GodotTransformSyncPlugin)
        ensures
            p.sync_mode == TransformSyncMode::OneWay,
            p.auto_sync,
    {
        GodotTransformSyncPlugin { sync_mode: TransformSyncMode::OneWay, auto_sync: true }
    }
}

impl GodotTransformSyncPlugin {
    /// The configuration resource that the plugin installs.
    pub fn config(&self) -> (c: GodotTransformConfig)
        ensures
            c.sync_mode == self.sync_mode,
    {
        GodotTransformConfig { sync_mode: self.sync_mode }
    }
}

/// Helper trait to disable auto sync or choose the sync mode of the transform sync plugin.
pub trait GodotTransformSyncPluginExt: Sized {
    /// Disable automatic transform syncing.
    fn without_auto_sync(self) -> Self;

    /// Configure the sync mode while keeping auto sync as it is.
    fn with_sync_mode(self, mode: TransformSyncMode) -> Self;
}

impl GodotTransformSyncPluginExt for GodotTransformSyncPlugin {
    fn without_auto_sync(self) -> (p: GodotTransformSyncPlugin)
        ensures
            !p.auto_sync,
            p.sync_mode == self.sync_mode,
    {
        GodotTransformSyncPlugin { sync_mode: self.sync_mode, auto_sync: false }
    }

    fn with_sync_mode(self, mode: TransformSyncMode) -> (p: GodotTransformSyncPlugin)
        ensures
            p.sync_mode == mode,
            p.auto_sync == self.auto_sync,
    {
        GodotTransformSyncPlugin { sync_mode: mode, auto_sync: self.auto_sync }
    }
}

/// The earlier transform plugin that syncs the combined transform components.
#[derive(Debug, Clone, Copy, Default)]
pub struct GodotTransformsPlugin;

// ---------------------------------------------------------------------------------------------
// Change ticks
// ---------------------------------------------------------------------------------------------

/// The age beyond which a change tick no longer counts as a change (`MAX_CHANGE_AGE`).
pub open spec fn max_change_age() -> int {
    4_294_967_295 - (2 * 518_400_000 - 1)
}

/// `a - b` modulo 2^32.
pub open spec fn wrapping_sub_u32(a: u32, b: u32) -> int {
    if a >= b {
        a - b
    } else {
        a - b + 4_294_967_296
    }
}

/// `x`, at most the maximal change age.
pub open spec fn clamp_age(x: int) -> int {
    if x < max_change_age() {
        x
    } else {
        max_change_age()
    }
}

/// Whether the change tick `tick` happened after `last_run`, seen from `this_run`: the age of
/// `last_run` exceeds the age of `tick`, both ages taken modulo 2^32 and clamped to the maximal
/// change age.
pub open spec fn tick_newer(tick: u32, last_run: u32, this_run: u32) -> bool {
    clamp_age(wrapping_sub_u32(this_run, last_run)) > clamp_age(wrapping_sub_u32(this_run, tick))
}

/// Bevy's `Tick::is_newer_than` on raw tick values: states it as [`tick_newer`], which is its
/// whole definition in the source of the version used.
#[verifier::external_body]
fn tick_is_newer_than(tick: u32, last_run: u32, this_run: u32) -> (r: bool)
    ensures
        r == tick_newer(tick, last_run, this_run),
{
    Tick::new(tick).is_newer_than(Tick::new(last_run), Tick::new(this_run))
}

/// A changed ECS transform: the tick of its last change, the tick at which it was last copied
/// from Godot (if ever), and whether its node is a 2D or a 3D node.
#[derive(Debug, Clone, Copy, PartialEq, Eq)]
pub struct TransformChange {
    pub last_changed: u32,
    pub last_sync: Option<u32>,
    pub is_2d: bool,
    pub is_3d: bool,
}

/// A changed transform is written to Godot unless its last change is the copy from Godot
/// itself, that is unless it was synced from Godot and has not changed since.
pub open spec fn needs_godot_write(change: TransformChange, this_run: u32) -> bool {
    match change.last_sync {
        Some(sync) => tick_newer(change.last_changed, sync, this_run),
        None => true,
    }
}

/// A transform whose last change is the copy from Godot is never written back to Godot, one
/// that was never copied from Godot always is, and one changed after its copy from Godot is
/// written back as long as that copy is within the maximal change age of the current run.
pub proof fn lemma_godot_copies_not_written_back(change: TransformChange, this_run: u32)
    ensures
        change.last_sync == Some(change.last_changed) ==> !needs_godot_write(change, this_run),
        change.last_sync is None ==> needs_godot_write(change, this_run),
        change.last_sync matches Some(sync) && wrapping_sub_u32(this_run, change.last_changed)
            < wrapping_sub_u32(this_run, sync) && wrapping_sub_u32(this_run, change.last_changed)
            < max_change_age() ==> needs_godot_write(change, this_run),
{
}

/// The indices planned for writing are exactly the indices of the changes that need writing and
/// belong to a 2D node (first list) or to a 3D node that is not a 2D node (second list), each
/// list in increasing order.
pub proof fn lemma_write_plan_members(changes: Seq<TransformChange>, this_run: u32)
    ensures
        forall|k: int|
            0 <= k < write_plan(changes, this_run).0.len() ==> {
                let i = #[trigger] write_plan(changes, this_run).0[k];
                &&& 0 <= i < changes.len()
                &&& changes[i].is_2d
                &&& needs_godot_write(changes[i], this_run)
            },
        forall|k: int|
            0 <= k < write_plan(changes, this_run).1.len() ==> {
                let i = #[trigger] write_plan(changes, this_run).1[k];
                &&& 0 <= i < changes.len()
                &&& !changes[i].is_2d
                &&& changes[i].is_3d
                &&& needs_godot_write(changes[i], this_run)
            },
        forall|k: int, l: int|
            0 <= k < l < write_plan(changes, this_run).0.len() ==> write_plan(changes, this_run).0[k]
                < write_plan(changes, this_run).0[l],
        forall|k: int, l: int|
            0 <= k < l < write_plan(changes, this_run).1.len() ==> write_plan(changes, this_run).1[k]
                < write_plan(changes, this_run).1[l],
        forall|i: int|
            0 <= i < changes.len() && #[trigger] needs_godot_write(changes[i], this_run)
                && changes[i].is_2d ==> write_plan(changes, this_run).0.contains(i),
        forall|i: int|
            0 <= i < changes.len() && #[trigger] needs_godot_write(changes[i], this_run)
                && !changes[i].is_2d && changes[i].is_3d ==> write_plan(changes, this_run).1.contains(
                i,
            ),
    decreases changes.len(),
{
    if changes.len() > 0 {
        let init = changes.drop_last();
        lemma_write_plan_members(init, this_run);
        assert forall|i: int| 0 <= i < init.len() implies init[i] == changes[i] by {}
        let (two, three) = write_plan(init, this_run);
        let n = changes.len() - 1;
        assert forall|i: int|
            0 <= i < changes.len() && #[trigger] needs_godot_write(changes[i], this_run)
                && changes[i].is_2d implies write_plan(changes, this_run).0.contains(i) by {
            if i < n {
                assert(init[i] == changes[i]);
                let k = choose|k: int| 0 <= k < two.len() && two[k] == i;
                assert(write_plan(changes, this_run).0[k] == i);
            } else {
                assert(write_plan(changes, this_run).0 == two.push(n));
                assert(write_plan(changes, this_run).0[two.len() as int] == i);
            }
        }
        assert forall|i: int|
            0 <= i < changes.len() && #[trigger] needs_godot_write(changes[i], this_run)
                && !changes[i].is_2d && changes[i].is_3d implies write_plan(
            changes,
            this_run,
        ).1.contains(i) by {
            if i < n {
                assert(init[i] == changes[i]);
                let k = choose|k: int| 0 <= k < three.len() && three[k] == i;
                assert(write_plan(changes, this_run).1[k] == i);
            } else {
                assert(write_plan(changes, this_run).1 == three.push(n));
                assert(write_plan(changes, this_run).1[three.len() as int] == i);
            }
        }
    }
}

/// Whether the changed transform must be written to Godot (see [`needs_godot_write`]).
pub fn should_write_to_godot(change: &TransformChange, this_run: u32) -> (r: bool)
    ensures
        r == needs_godot_write(*change, this_run),
{
    match change.last_sync {
        Some(sync) => tick_is_newer_than(change.last_changed, sync, this_run),
        None => true,
    }
}

/// The indices of the changes written to 2D nodes, then of those written to 3D nodes: the
/// changes that need writing, in order, a node that is both going with the 2D ones.
pub open spec fn write_plan(changes: Seq<TransformChange>, this_run: u32) -> (Seq<int>, Seq<int>)
    decreases changes.len(),
{
    if changes.len() == 0 {
        (seq![], seq![])
    } else {
        let (two, three) = write_plan(changes.drop_last(), this_run);
        let c = changes.last();
        let i = changes.len() - 1;
        if !needs_godot_write(c, this_run) {
            (two, three)
        } else if c.is_2d {
            (two.push(i), three)
        } else if c.is_3d {
            (two, three.push(i))
        } else {
            (two, three)
        }
    }
}

/// Splits the changed transforms into those to write to 2D nodes and those to write to 3D
/// nodes (see [`write_plan`]).
pub fn plan_transform_writes(changes: &Vec<TransformChange>, this_run: u32) -> (r: (
    Vec<usize>,
    Vec<usize>,
))
    ensures
        r.0@.map_values(|i: usize| i as int) == write_plan(changes@, this_run).0,
        r.1@.map_values(|i: usize| i as int) == write_plan(changes@, this_run).1,
{
    let mut two: Vec<usize> = Vec::new();
    let mut three: Vec<usize> = Vec::new();
    let mut i: usize = 0;
    while i < changes.len()
        invariant
            i <= changes@.len(),
            two@.map_values(|i: usize| i as int) == write_plan(
                changes@.subrange(0, i as int),
                this_run,
            ).0,
            three@.map_values(|i: usize| i as int) == write_plan(
                changes@.subrange(0, i as int),
                this_run,
            ).1,
        decreases changes@.len() - i,
    {
        let ghost prefix = changes@.subrange(0, i + 1);
        assert(prefix.drop_last() =~= changes@.subrange(0, i as int));
        let c = &changes[i];
        let write = should_write_to_godot(c, this_run);
        if write && c.is_2d {
            let ghost before = two@;
            two.push(i);
            assert(two@.map_values(|i: usize| i as int) =~= before.map_values(
                |i: usize| i as int,
            ).push(i as int));
        } else if write && c.is_3d {
            let ghost before = three@;
            three.push(i);
            assert(three@.map_values(|i: usize| i as int) =~= before.map_values(
                |i: usize| i as int,
            ).push(i as int));
        }
        i = i + 1;
    }
    assert(changes@.subrange(0, changes@.len() as int) =~= changes@);
    (two, three)
}

} // verus!
