use godot_bevy::transforms::{
    plan_transform_writes, should_write_to_godot, transform_sync_enabled,
    transform_sync_twoway_enabled, GodotTransformConfig, GodotTransformSyncPlugin,
    GodotTransformSyncPluginExt, TransformChange, TransformSyncMode,
};

#[test]
fn config_constructors_and_conditions() {
    assert_eq!(GodotTransformConfig::default().sync_mode, TransformSyncMode::OneWay);
    let d = GodotTransformConfig::disabled();
    let o = GodotTransformConfig::one_way();
    let t = GodotTransformConfig::two_way();
    assert!(!transform_sync_enabled(&d));
    assert!(!transform_sync_twoway_enabled(&d));
    assert!(transform_sync_enabled(&o));
    assert!(!transform_sync_twoway_enabled(&o));
    assert!(transform_sync_enabled(&t));
    assert!(transform_sync_twoway_enabled(&t));
}

#[test]
fn plugin_builders() {
    let p = GodotTransformSyncPlugin::default();
    assert_eq!(p.sync_mode, TransformSyncMode::OneWay);
    assert!(p.auto_sync);
    let p = p.with_sync_mode(TransformSyncMode::TwoWay);
    assert_eq!(p.sync_mode, TransformSyncMode::TwoWay);
    assert!(p.auto_sync);
    let p = p.without_auto_sync();
    assert!(!p.auto_sync);
    assert_eq!(p.sync_mode, TransformSyncMode::TwoWay);
    assert_eq!(p.config().sync_mode, TransformSyncMode::TwoWay);
}

#[test]
fn writes_skip_changes_that_came_from_godot() {
    let from_godot = TransformChange { last_changed: 10, last_sync: Some(10), is_2d: true, is_3d: false };
    let user_change = TransformChange { last_changed: 12, last_sync: Some(10), is_2d: false, is_3d: true };
    let never_synced = TransformChange { last_changed: 5, last_sync: None, is_2d: true, is_3d: false };
    assert!(!should_write_to_godot(&from_godot, 15));
    assert!(should_write_to_godot(&user_change, 15));
    assert!(should_write_to_godot(&never_synced, 15));
    // Ticks wrap around: a change at u32::MAX - 1 after a sync at u32::MAX - 5, seen at 3.
    let wrapped = TransformChange { last_changed: u32::MAX - 1, last_sync: Some(u32::MAX - 5), is_2d: true, is_3d: false };
    assert!(should_write_to_godot(&wrapped, 3));
    let plan = plan_transform_writes(&vec![from_godot, user_change, never_synced, wrapped], 15);
    assert_eq!(plan.0, vec![2, 3]);
    assert_eq!(plan.1, vec![1]);
}

#[test]
fn nodes_that_are_neither_2d_nor_3d_are_skipped() {
    let c = TransformChange { last_changed: 1, last_sync: None, is_2d: false, is_3d: false };
    let both = TransformChange { last_changed: 1, last_sync: None, is_2d: true, is_3d: true };
    let plan = plan_transform_writes(&vec![c, both], 2);
    assert_eq!(plan.0, vec![1]);
    assert!(plan.1.is_empty());
}
