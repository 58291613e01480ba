use godot_bevy::collisions::{
    collision_event_type, collision_signal_connections, update_godot_collisions, CollisionEventType,
    CollisionTracker, Collisions, NodeEntity,
};
use godot_bevy::signals::{GodotSignal, GodotSignalArgument};

fn signal(name: &str, origin: i64, target: Option<i64>) -> GodotSignal {
    let arguments = match target {
        Some(id) => vec![GodotSignalArgument {
            variant_type: "Object".to_string(),
            value: "<Node>".to_string(),
            instance_id: Some(id),
        }],
        None => Vec::new(),
    };
    GodotSignal { name: name.to_string(), origin, target: origin, arguments }
}

#[test]
fn collision_kinds() {
    assert_eq!(collision_event_type("body_entered"), Some(CollisionEventType::Started));
    assert_eq!(collision_event_type("area_entered"), Some(CollisionEventType::Started));
    assert_eq!(collision_event_type("body_exited"), Some(CollisionEventType::Ended));
    assert_eq!(collision_event_type("area_exited"), Some(CollisionEventType::Ended));
    assert_eq!(collision_event_type("pressed"), None);
}

#[test]
fn connections_only_for_collision_bodies() {
    assert!(collision_signal_connections(false, true, false, true).is_none());
    let c = collision_signal_connections(true, true, false, false).unwrap();
    assert_eq!(c.len(), 2);
    assert_eq!(c[0].signal, "body_entered");
    assert_eq!(c[0].event_type, CollisionEventType::Started);
    assert_eq!(c[1].signal, "body_exited");
    assert_eq!(c[1].event_type, CollisionEventType::Ended);
    let c = collision_signal_connections(true, true, true, true).unwrap();
    let names: Vec<&str> = c.iter().map(|c| c.signal).collect();
    assert_eq!(names, vec!["body_entered", "body_exited", "area_entered", "area_exited"]);
}

#[test]
fn start_then_end_collision() {
    let mut trackers = vec![
        CollisionTracker { node: 1, collisions: Collisions::default() },
        CollisionTracker { node: 2, collisions: Collisions::default() },
    ];
    let all = vec![
        NodeEntity { entity: 100, node: 1 },
        NodeEntity { entity: 200, node: 2 },
        NodeEntity { entity: 300, node: 3 },
    ];
    update_godot_collisions(&mut trackers, &all, &vec![signal("body_entered", 1, Some(3))]);
    assert_eq!(trackers[0].collisions.colliding(), &[300]);
    assert_eq!(trackers[0].collisions.recent_collisions(), &[300]);
    assert!(trackers[1].collisions.colliding().is_empty());

    // Next update: recent collisions are cleared, an exit ends the collision.
    update_godot_collisions(&mut trackers, &all, &vec![signal("body_exited", 1, Some(3))]);
    assert!(trackers[0].collisions.colliding().is_empty());
    assert!(trackers[0].collisions.recent_collisions().is_empty());
}

#[test]
fn ignored_signals() {
    let mut trackers = vec![CollisionTracker { node: 1, collisions: Collisions::default() }];
    let all = vec![NodeEntity { entity: 100, node: 1 }, NodeEntity { entity: 300, node: 3 }];
    let signals = vec![
        signal("pressed", 1, Some(3)),
        signal("body_entered", 1, None),
        signal("body_entered", 9, Some(3)),
        signal("body_entered", 1, Some(77)),
    ];
    update_godot_collisions(&mut trackers, &all, &signals);
    assert!(trackers[0].collisions.colliding().is_empty());
    assert!(trackers[0].collisions.recent_collisions().is_empty());
}

#[test]
fn exit_removes_every_occurrence() {
    let mut trackers = vec![CollisionTracker { node: 1, collisions: Collisions::default() }];
    let all = vec![NodeEntity { entity: 300, node: 3 }, NodeEntity { entity: 400, node: 4 }];
    update_godot_collisions(
        &mut trackers,
        &all,
        &vec![
            signal("body_entered", 1, Some(3)),
            signal("area_entered", 1, Some(4)),
            signal("area_entered", 1, Some(3)),
        ],
    );
    assert_eq!(trackers[0].collisions.colliding(), &[300, 400, 300]);
    update_godot_collisions(&mut trackers, &all, &vec![signal("area_exited", 1, Some(3))]);
    assert_eq!(trackers[0].collisions.colliding(), &[400]);
}
