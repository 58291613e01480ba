use godot_bevy::node_tree_view::NodeTree;
use godot_bevy::scene_tree::{
    events_from_analysis, scene_tree_signal_bindings, traverse_fallback, AddedTarget,
    GodotSceneTreePlugin, Groups, ParentLink, RemovalAction, SceneTreeEventType, SceneTreeMirror,
};

#[test]
fn groups_report_membership() {
    let groups = Groups::new(vec!["enemies".to_string(), "flying".to_string(), "boss".to_string()]);
    assert!(groups.is("enemies"));
    assert!(groups.is("flying"));
    assert!(groups.is("boss"));
    assert!(!groups.is("nonexistent"));
    let empty = Groups::new(Vec::new());
    assert!(!empty.is("any_group"));
}

#[test]
fn plugin_default_adds_child_relationship() {
    let plugin = GodotSceneTreePlugin::default();
    assert!(plugin.add_child_relationship);
    assert!(plugin.config().add_child_relationship);
    let off = GodotSceneTreePlugin { add_child_relationship: false };
    assert!(!off.config().add_child_relationship);
}

#[test]
fn analysis_events_pair_ids_with_types() {
    let ids = vec![5, 6, 7];
    let types = vec!["Node3D".to_string(), "Area2D".to_string()];
    let events = events_from_analysis(&ids, &types);
    assert_eq!(events.len(), 2);
    assert_eq!(events[0].node, 5);
    assert_eq!(events[0].event_type, SceneTreeEventType::NodeAdded);
    assert_eq!(events[0].node_type.as_deref(), Some("Node3D"));
    assert_eq!(events[1].node, 6);
    assert_eq!(events[1].node_type.as_deref(), Some("Area2D"));
}

#[test]
fn fallback_traversal_is_preorder() {
    let mut t = NodeTree::new();
    let root = t.add_node(100, "root".to_string(), None).unwrap();
    let a = t.add_node(101, "A".to_string(), Some(root)).unwrap();
    let _b = t.add_node(102, "B".to_string(), Some(root)).unwrap();
    t.add_node(103, "A1".to_string(), Some(a)).unwrap();
    let events = traverse_fallback(&t, root);
    let ids: Vec<i64> = events.iter().map(|e| e.node).collect();
    assert_eq!(ids, vec![100, 101, 103, 102]);
    assert!(events.iter().all(|e| e.event_type == SceneTreeEventType::NodeAdded));
    assert!(events.iter().all(|e| e.node_type.is_none()));
}

#[test]
fn signal_bindings_depend_on_watcher() {
    assert!(scene_tree_signal_bindings(true).is_empty());
    let b = scene_tree_signal_bindings(false);
    assert_eq!(
        b,
        vec![
            ("node_added", SceneTreeEventType::NodeAdded),
            ("node_removed", SceneTreeEventType::NodeRemoved),
            ("node_renamed", SceneTreeEventType::NodeRenamed),
        ]
    );
}

#[test]
fn mirror_added_renamed_removed() {
    let config = GodotSceneTreePlugin::default().config();
    let mut m = SceneTreeMirror::from_entities(&vec![(1, 10, false)]);
    assert_eq!(m.added_target(1, true), AddedTarget::Reuse(10));
    assert_eq!(m.added_target(2, true), AddedTarget::Spawn);
    assert_eq!(m.added_target(2, false), AddedTarget::Skip);
    // Node 2 is spawned as entity 20 under node 1.
    assert_eq!(m.record_added(2, 20, Some(1), false, &config), ParentLink::AttachTo(10));
    // The scene root never attaches to a parent.
    assert_eq!(m.record_added(1, 10, None, true, &config), ParentLink::NoParent);
    // A node whose parent has no entity yet.
    assert_eq!(m.record_added(3, 30, Some(99), false, &config), ParentLink::ParentMissing(99));
    assert_eq!(m.len(), 3);
    assert_eq!(m.node_renamed(2), Some(20));
    assert_eq!(m.node_renamed(42), None);
    assert_eq!(m.node_removed(2), RemovalAction::Despawn(20));
    assert_eq!(m.node_removed(2), RemovalAction::Untracked);
    assert_eq!(m.node_renamed(2), None);
    assert_eq!(m.len(), 2);
}

#[test]
fn mirror_without_child_relationship() {
    let config = GodotSceneTreePlugin { add_child_relationship: false }.config();
    let mut m = SceneTreeMirror::from_entities(&vec![(1, 10, false)]);
    assert_eq!(m.record_added(2, 20, Some(1), false, &config), ParentLink::NoParent);
}

#[test]
fn protected_entities_are_stripped_not_despawned() {
    let mut m = SceneTreeMirror::from_entities(&vec![(1, 10, true), (2, 11, false)]);
    assert_eq!(m.node_removed(1), RemovalAction::StripGodotComponents(10));
    assert_eq!(m.node_removed(2), RemovalAction::Despawn(11));
    // A removed node that comes back is mirrored by a new, unprotected entity.
    let config = GodotSceneTreePlugin::default().config();
    assert_eq!(m.added_target(1, true), AddedTarget::Spawn);
    m.record_added(1, 30, None, true, &config);
    assert_eq!(m.link_of(1).map(|l| l.protected), Some(false));
}

#[test]
fn protected_entity_keeps_protection_when_its_node_is_added_again() {
    let config = GodotSceneTreePlugin::default().config();
    let mut m = SceneTreeMirror::from_entities(&vec![(1, 10, true)]);
    assert_eq!(m.added_target(1, true), AddedTarget::Reuse(10));
    m.record_added(1, 10, None, true, &config);
    assert_eq!(m.link_of(1).map(|l| l.protected), Some(true));
    assert_eq!(m.node_removed(1), RemovalAction::StripGodotComponents(10));
}

#[test]
fn later_entries_replace_earlier_ones() {
    let m = SceneTreeMirror::from_entities(&vec![(1, 10, true), (1, 12, false)]);
    assert_eq!(m.len(), 1);
    let link = m.link_of(1).unwrap();
    assert_eq!(link.entity, 12);
    assert!(!link.protected);
}
