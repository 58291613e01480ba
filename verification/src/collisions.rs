//! Collision tracking from the collision signals of bodies and areas.
//!
//! Entities are identified by their bit form (`Entity::to_bits`), nodes by their instance ids.

use vstd::prelude::*;

use crate::signals::GodotSignal;
use crate::text::str_equals_chars;

verus! {

/// Plugin that keeps the [`Collisions`] of collision bodies up to date.
#[derive(Debug, Clone, Copy, Default)]
pub struct GodotCollisionsPlugin;

/// Signal emitted when a body enters.
pub const BODY_ENTERED: &'static str = "body_entered";

/// Signal emitted when a body exits.
pub const BODY_EXITED: &'static str = "body_exited";

/// Signal emitted when an area enters.
pub const AREA_ENTERED: &'static str = "area_entered";

/// Signal emitted when an area exits.
pub const AREA_EXITED: &'static str = "area_exited";

/// Whether a collision starts or ends.
#[derive(Debug, Clone, Copy, PartialEq, Eq)]
pub enum CollisionEventType {
    Started,
    Ended,
}

/// The entities a node collides with, and those it started colliding with during the current
/// update.
#[derive(Debug, Clone, PartialEq, Eq, Hash)]
pub struct Collisions {
    colliding_entities: Vec<u64>,
    recent_collisions: Vec<u64>,
}

/// The content of a [`Collisions`].
pub struct CollisionsView {
    pub colliding: Seq<u64>,
    pub recent: Seq<u64>,
}

impl View for Collisions {
    type V = CollisionsView;

    closed spec fn view(&self) -> CollisionsView {
        CollisionsView { colliding: self.colliding_entities@, recent: self.recent_collisions@ }
    }
}

impl Default for Collisions {
    fn default() -> (c: Collisions)
        ensures
            c@.colliding == Seq::<u64>::empty(),
            c@.recent == Seq::<u64>::empty(),
    {
        Collisions { colliding_entities: Vec::new(), recent_collisions: Vec::new() }
    }
}

impl Collisions {
    /// The entities currently colliding with this one.
    pub fn colliding(&self) -> (r: &[u64])
        ensures
            r@ == self@.colliding,
    {
        self.colliding_entities.as_slice()
    }

    /// The entities that started colliding with this one during the current update.
    pub fn recent_collisions(&self) -> (r: &[u64])
        ensures
            r@ == self@.recent,
    {
        self.recent_collisions.as_slice()
    }
}

/// A node that tracks its collisions.
pub struct CollisionTracker {
    pub node: i64,
    pub collisions: Collisions,
}

/// An entity and the node it mirrors.
#[derive(Debug, Clone, Copy, PartialEq, Eq)]
pub struct NodeEntity {
    pub entity: u64,
    pub node: i64,
}

/// The name `body_entered`.
pub open spec fn body_entered_name() -> Seq<char> {
    seq!['b', 'o', 'd', 'y', '_', 'e', 'n', 't', 'e', 'r', 'e', 'd']
}

/// The name `body_exited`.
pub open spec fn body_exited_name() -> Seq<char> {
    seq!['b', 'o', 'd', 'y', '_', 'e', 'x', 'i', 't', 'e', 'd']
}

/// The name `area_entered`.
pub open spec fn area_entered_name() -> Seq<char> {
    seq!['a', 'r', 'e', 'a', '_', 'e', 'n', 't', 'e', 'r', 'e', 'd']
}

/// The name `area_exited`.
pub open spec fn area_exited_name() -> Seq<char> {
    seq!['a', 'r', 'e', 'a', '_', 'e', 'x', 'i', 't', 'e', 'd']
}

/// What a signal says of collisions: entering signals start one, exiting signals end one, other
/// signals say nothing.
pub open spec fn collision_kind(name: Seq<char>) -> Option<CollisionEventType> {
    if name == body_entered_name() || name == area_entered_name() {
        Some(CollisionEventType::Started)
    } else if name == body_exited_name() || name == area_exited_name() {
        Some(CollisionEventType::Ended)
    } else {
        None
    }
}

/// The collision kind of the signal named `name` (see [`collision_kind`]).
pub fn collision_event_type(name: &str) -> (r: Option<CollisionEventType>)
    ensures
        r == collision_kind(name@),
{
    proof {
        reveal_strlit("body_entered");
        reveal_strlit("body_exited");
        reveal_strlit("area_entered");
        reveal_strlit("area_exited");
        assert(BODY_ENTERED@ =~= body_entered_name());
        assert(BODY_EXITED@ =~= body_exited_name());
        assert(AREA_ENTERED@ =~= area_entered_name());
        assert(AREA_EXITED@ =~= area_exited_name());
    }
    let body_entered = crate::text::chars_of(BODY_ENTERED);
    let area_entered = crate::text::chars_of(AREA_ENTERED);
    let body_exited = crate::text::chars_of(BODY_EXITED);
    let area_exited = crate::text::chars_of(AREA_EXITED);
    if str_equals_chars(name, &body_entered) || str_equals_chars(name, &area_entered) {
        Some(CollisionEventType::Started)
    } else if str_equals_chars(name, &body_exited) || str_equals_chars(name, &area_exited) {
        Some(CollisionEventType::Ended)
    } else {
        None
    }
}

/// A connection to make from a node's collision signal to the collision watcher.
#[derive(Debug, Clone, Copy, PartialEq, Eq)]
pub struct CollisionConnection {
    pub signal: &'static str,
    pub event_type: CollisionEventType,
}

/// The connections to make for a node given which collision signals it has: none unless it
/// has an entering signal (it is then a collision body), and otherwise one per signal it has,
/// in the order `body_entered`, `body_exited`, `area_entered`, `area_exited`, entering signals
/// reporting starts and exiting signals ends.
pub open spec fn collision_plan(
    body_entered: bool,
    body_exited: bool,
    area_entered: bool,
    area_exited: bool,
) -> Option<Seq<(Seq<char>, CollisionEventType)>> {
    if !(body_entered || area_entered) {
        None
    } else {
        let s0 = if body_entered {
            seq![(body_entered_name(), CollisionEventType::Started)]
        } else {
            seq![]
        };
        let s1 = if body_exited {
            s0.push((body_exited_name(), CollisionEventType::Ended))
        } else {
            s0
        };
        let s2 = if area_entered {
            s1.push((area_entered_name(), CollisionEventType::Started))
        } else {
            s1
        };
        let s3 = if area_exited {
            s2.push((area_exited_name(), CollisionEventType::Ended))
        } else {
            s2
        };
        Some(s3)
    }
}

/// The plan of connections as names and kinds.
pub open spec fn connection_views(v: Seq<CollisionConnection>) -> Seq<(Seq<char>, CollisionEventType)> {
    v.map_values(|c: CollisionConnection| (c.signal@, c.event_type))
}

/// The connections to make for a node with the given collision signals (see
/// [`collision_plan`]).
pub fn collision_signal_connections(
    body_entered: bool,
    body_exited: bool,
    area_entered: bool,
    area_exited: bool,
) -> (r: Option<Vec<CollisionConnection>>)
    ensures
        match r {
            Some(v) => collision_plan(body_entered, body_exited, area_entered, area_exited)
                == Some(connection_views(v@)),
            None => collision_plan(body_entered, body_exited, area_entered, area_exited) == None::<
                Seq<(Seq<char>, CollisionEventType)>,
            >,
        },
        r matches Some(v) ==> forall|i: int|
            0 <= i < v@.len() ==> Some((#[trigger] v@[i]).event_type) == collision_kind(
                v@[i].signal@,
            ),
{
    proof {
        lemma_collision_plan_kinds(body_entered, body_exited, area_entered, area_exited);
    }
    proof {
        reveal_strlit("body_entered");
        reveal_strlit("body_exited");
        reveal_strlit("area_entered");
        reveal_strlit("area_exited");
        assert(BODY_ENTERED@ =~= body_entered_name());
        assert(BODY_EXITED@ =~= body_exited_name());
        assert(AREA_ENTERED@ =~= area_entered_name());
        assert(AREA_EXITED@ =~= area_exited_name());
    }
    if !(body_entered || area_entered) {
        return None;
    }
    let mut v: Vec<CollisionConnection> = Vec::new();
    let ghost mut s: Seq<(Seq<char>, CollisionEventType)> = seq![];
    if body_entered {
        v.push(CollisionConnection { signal: BODY_ENTERED, event_type: CollisionEventType::Started });
        proof {
            s = s.push((body_entered_name(), CollisionEventType::Started));
        }
    }
    assert(connection_views(v@) =~= s);
    if body_exited {
        v.push(CollisionConnection { signal: BODY_EXITED, event_type: CollisionEventType::Ended });
        proof {
            s = s.push((body_exited_name(), CollisionEventType::Ended));
        }
    }
    assert(connection_views(v@) =~= s);
    if area_entered {
        v.push(CollisionConnection { signal: AREA_ENTERED, event_type: CollisionEventType::Started });
        proof {
            s = s.push((area_entered_name(), CollisionEventType::Started));
        }
    }
    assert(connection_views(v@) =~= s);
    if area_exited {
        v.push(CollisionConnection { signal: AREA_EXITED, event_type: CollisionEventType::Ended });
        proof {
            s = s.push((area_exited_name(), CollisionEventType::Ended));
        }
    }
    assert(connection_views(v@) =~= s);
    Some(v)
}

// ---------------------------------------------------------------------------------------------
// Updating collisions from signals
// ---------------------------------------------------------------------------------------------

/// `s` without the occurrences of `x`, the others in order.
pub open spec fn without(s: Seq<u64>, x: u64) -> Seq<u64>
    decreases s.len(),
{
    if s.len() == 0 {
        seq![]
    } else if s.last() == x {
        without(s.drop_last(), x)
    } else {
        without(s.drop_last(), x).push(s.last())
    }
}

/// A tracker's node and collisions.
pub open spec fn tracker_view(t: CollisionTracker) -> (i64, CollisionsView) {
    (t.node, t.collisions@)
}

/// The trackers' nodes and collisions.
pub open spec fn trackers_view(ts: Seq<CollisionTracker>) -> Seq<(i64, CollisionsView)> {
    ts.map_values(|t: CollisionTracker| tracker_view(t))
}

/// The entity of the first entry for `node`, from index `j` on.
pub open spec fn entity_of_node(all: Seq<NodeEntity>, node: i64, j: int) -> Option<u64>
    decreases all.len() - j,
{
    if j < 0 || j >= all.len() {
        None
    } else if all[j].node == node {
        Some(all[j].entity)
    } else {
        entity_of_node(all, node, j + 1)
    }
}

/// The index of the first tracker for `node`, from index `j` on.
pub open spec fn tracker_of_node(ts: Seq<(i64, CollisionsView)>, node: i64, j: int) -> Option<int>
    decreases ts.len() - j,
{
    if j < 0 || j >= ts.len() {
        None
    } else if ts[j].0 == node {
        Some(j)
    } else {
        tracker_of_node(ts, node, j + 1)
    }
}

/// The trackers after one signal: a collision signal whose first argument is an object mirrored
/// by an entity, sent by a node with a tracker, adds that entity to the tracker's colliding and
/// recent lists when it starts a collision, and removes it from the colliding list when it ends
/// one; any other signal changes nothing.
pub open spec fn apply_collision_signal(
    ts: Seq<(i64, CollisionsView)>,
    all: Seq<NodeEntity>,
    name: Seq<char>,
    origin: i64,
    first_arg: Option<Option<i64>>,
) -> Seq<(i64, CollisionsView)> {
    match (collision_kind(name), first_arg) {
        (Some(kind), Some(Some(target_node))) => match (
            entity_of_node(all, target_node, 0),
            tracker_of_node(ts, origin, 0),
        ) {
            (Some(target), Some(k)) => {
                let c = ts[k].1;
                let updated = match kind {
                    CollisionEventType::Started => CollisionsView {
                        colliding: c.colliding.push(target),
                        recent: c.recent.push(target),
                    },
                    CollisionEventType::Ended => CollisionsView {
                        colliding: without(c.colliding, target),
                        recent: c.recent,
                    },
                };
                ts.update(k, (ts[k].0, updated))
            },
            _ => ts,
        },
        _ => ts,
    }
}

/// The first argument of a signal, as the object instance id it may carry (`None` when the
/// signal has no argument).
pub open spec fn first_argument(sig: GodotSignal) -> Option<Option<i64>> {
    if sig.arguments@.len() == 0 {
        None
    } else {
        Some(sig.arguments@[0].instance_id)
    }
}

/// The trackers after the signals, in order.
pub open spec fn apply_collision_signals(
    ts: Seq<(i64, CollisionsView)>,
    all: Seq<NodeEntity>,
    sigs: Seq<GodotSignal>,
) -> Seq<(i64, CollisionsView)>
    decreases sigs.len(),
{
    if sigs.len() == 0 {
        ts
    } else {
        let sig = sigs.last();
        apply_collision_signal(
            apply_collision_signals(ts, all, sigs.drop_last()),
            all,
            sig.name@,
            sig.origin,
            first_argument(sig),
        )
    }
}

/// The trackers with their recent collisions emptied.
pub open spec fn clear_recent(ts: Seq<(i64, CollisionsView)>) -> Seq<(i64, CollisionsView)> {
    ts.map_values(
        |t: (i64, CollisionsView)|
            (t.0, CollisionsView { colliding: t.1.colliding, recent: Seq::<u64>::empty() }),
    )
}

fn copy_entities(v: &Vec<u64>) -> (r: Vec<u64>)
    ensures
        r@ == v@,
{
    let mut r: Vec<u64> = Vec::new();
    let mut i: usize = 0;
    while i < v.len()
        invariant
            i <= v@.len(),
            r@ == v@.subrange(0, i as int),
        decreases v@.len() - i,
    {
        r.push(v[i]);
        i = i + 1;
    }
    assert(v@.subrange(0, v@.len() as int) =~= v@);
    r
}

fn remove_entity(v: &Vec<u64>, x: u64) -> (r: Vec<u64>)
    ensures
        r@ == without(v@, x),
{
    let mut r: Vec<u64> = Vec::new();
    let mut i: usize = 0;
    while i < v.len()
        invariant
            i <= v@.len(),
            r@ == without(v@.subrange(0, i as int), x),
        decreases v@.len() - i,
    {
        assert(v@.subrange(0, i + 1).drop_last() =~= v@.subrange(0, i as int));
        if v[i] != x {
            r.push(v[i]);
        }
        i = i + 1;
    }
    assert(v@.subrange(0, v@.len() as int) =~= v@);
    r
}

fn find_entity(all: &Vec<NodeEntity>, node: i64) -> (r: Option<u64>)
    ensures
        r == entity_of_node(all@, node, 0),
{
    let mut j: usize = 0;
    while j < all.len()
        invariant
            j <= all@.len(),
            entity_of_node(all@, node, 0) == entity_of_node(all@, node, j as int),
        decreases all@.len() - j,
    {
        if all[j].node == node {
            return Some(all[j].entity);
        }
        j = j + 1;
    }
    None
}

fn find_tracker(ts: &Vec<CollisionTracker>, node: i64) -> (r: Option<usize>)
    ensures
        match r {
            Some(k) => tracker_of_node(trackers_view(ts@), node, 0) == Some(k as int) && k
                < ts@.len(),
            None => tracker_of_node(trackers_view(ts@), node, 0) == None::<int>,
        },
{
    let ghost tv = trackers_view(ts@);
    let mut j: usize = 0;
    while j < ts.len()
        invariant
            j <= ts@.len(),
            tv == trackers_view(ts@),
            tv.len() == ts@.len(),
            tracker_of_node(tv, node, 0) == tracker_of_node(tv, node, j as int),
        decreases ts@.len() - j,
    {
        assert(tv[j as int].0 == ts@[j as int].node);
        if ts[j].node == node {
            return Some(j);
        }
        j = j + 1;
    }
    None
}

/// Updates the collision trackers from the signals received since the last update: every
/// tracker's recent collisions are emptied, then the signals apply in order (see
/// [`apply_collision_signal`]).
pub fn update_godot_collisions(
    trackers: &mut Vec<CollisionTracker>,
    all_entities: &Vec<NodeEntity>,
    signals: &Vec<GodotSignal>,
)
    ensures
        trackers_view(final(trackers)@) == apply_collision_signals(
            clear_recent(trackers_view(old(trackers)@)),
            all_entities@,
            signals@,
        ),
{
    let n = trackers.len();
    let mut i: usize = 0;
    while i < n
        invariant
            n == trackers@.len(),
            n == old(trackers)@.len(),
            i <= n,
            forall|k: int|
                0 <= k < n ==> #[trigger] tracker_view(trackers@[k]) == if k < i {
                    clear_recent(trackers_view(old(trackers)@))[k]
                } else {
                    trackers_view(old(trackers)@)[k]
                },
        decreases n - i,
    {
        let colliding = copy_entities(&trackers[i].collisions.colliding_entities);
        let node = trackers[i].node;
        let ghost prior = trackers@;
        let empty: Vec<u64> = Vec::new();
        trackers.set(
            i,
            CollisionTracker {
                node,
                collisions: Collisions { colliding_entities: colliding, recent_collisions: empty },
            },
        );
        proof {
            let ov = trackers_view(old(trackers)@);
            assert(ov[i as int] == tracker_view(prior[i as int]));
            assert(empty@ =~= Seq::<u64>::empty());
            assert(clear_recent(ov)[i as int] == (
                ov[i as int].0,
                CollisionsView { colliding: ov[i as int].1.colliding, recent: Seq::<u64>::empty() },
            ));
            assert(tracker_view(trackers@[i as int]) == clear_recent(ov)[i as int]);
            assert forall|k: int| 0 <= k < n && k != i implies #[trigger] trackers@[k] == prior[k] by {}
        }
        i = i + 1;
    }
    assert(trackers_view(trackers@) =~= clear_recent(trackers_view(old(trackers)@)));
    let ghost start = trackers_view(trackers@);
    let mut s: usize = 0;
    while s < signals.len()
        invariant
            s <= signals@.len(),
            trackers_view(trackers@) == apply_collision_signals(
                start,
                all_entities@,
                signals@.subrange(0, s as int),
            ),
        decreases signals@.len() - s,
    {
        let ghost before = trackers_view(trackers@);
        assert(signals@.subrange(0, s + 1).drop_last() =~= signals@.subrange(0, s as int));
        assert(signals@.subrange(0, s + 1).last() == signals@[s as int]);
        let sig = &signals[s];
        let kind = collision_event_type(sig.name.as_str());
        let target_node = if sig.arguments.len() > 0 {
            sig.arguments[0].instance_id
        } else {
            None
        };
        if let Some(kind) = kind {
            if let Some(target_node) = target_node {
                let target = find_entity(all_entities, target_node);
                let k = find_tracker(trackers, sig.origin);
                if let (Some(target), Some(k)) = (target, k) {
                    let old_colliding = &trackers[k].collisions.colliding_entities;
                    let node = trackers[k].node;
                    let updated = match kind {
                        CollisionEventType::Started => {
                            let mut colliding = copy_entities(old_colliding);
                            colliding.push(target);
                            let mut recent = copy_entities(&trackers[k].collisions.recent_collisions);
                            recent.push(target);
                            Collisions { colliding_entities: colliding, recent_collisions: recent }
                        },
                        CollisionEventType::Ended => {
                            let colliding = remove_entity(old_colliding, target);
                            let recent = copy_entities(&trackers[k].collisions.recent_collisions);
                            Collisions { colliding_entities: colliding, recent_collisions: recent }
                        },
                    };
                    let ghost prior = trackers@;
                    trackers.set(k, CollisionTracker { node, collisions: updated });
                    proof {
                        assert(first_argument(*sig) == Some(Some(target_node)));
                        assert(before[k as int] == tracker_view(prior[k as int]));
                        let c = before[k as int].1;
                        let upd = match kind {
                            CollisionEventType::Started => CollisionsView {
                                colliding: c.colliding.push(target),
                                recent: c.recent.push(target),
                            },
                            CollisionEventType::Ended => CollisionsView {
                                colliding: without(c.colliding, target),
                                recent: c.recent,
                            },
                        };
                        assert(tracker_view(trackers@[k as int]) == (before[k as int].0, upd));
                        assert(tracker_of_node(before, sig.origin, 0) == Some(k as int));
                        assert(entity_of_node(all_entities@, target_node, 0) == Some(target));
                        assert(collision_kind(sig.name@) == Some(kind));
                        assert(apply_collision_signal(
                            before,
                            all_entities@,
                            sig.name@,
                            sig.origin,
                            first_argument(*sig),
                        ) == before.update(k as int, (before[k as int].0, upd)));
                        assert forall|j: int|
                            0 <= j < trackers@.len() && j != k implies #[trigger] trackers@[j]
                            == prior[j] by {}
                        assert(trackers_view(trackers@) =~= before.update(
                            k as int,
                            (before[k as int].0, upd),
                        ));
                    }
                    assert(trackers_view(trackers@) =~= apply_collision_signal(
                        before,
                        all_entities@,
                        sig.name@,
                        sig.origin,
                        first_argument(*sig),
                    ));
                }
            }
        }
        s = s + 1;
    }
    assert(signals@.subrange(0, signals@.len() as int) =~= signals@);
}

// ---------------------------------------------------------------------------------------------
// What the updates keep
// ---------------------------------------------------------------------------------------------

proof fn lemma_tracker_lookup_same_nodes(
    ts1: Seq<(i64, CollisionsView)>,
    ts2: Seq<(i64, CollisionsView)>,
    node: i64,
    j: int,
)
    requires
        ts1.len() == ts2.len(),
        forall|i: int| 0 <= i < ts1.len() ==> (#[trigger] ts1[i]).0 == ts2[i].0,
    ensures
        tracker_of_node(ts1, node, j) == tracker_of_node(ts2, node, j),
    decreases ts1.len() - j,
{
    if 0 <= j < ts1.len() {
        assert(ts1[j].0 == ts2[j].0);
        lemma_tracker_lookup_same_nodes(ts1, ts2, node, j + 1);
    }
}

proof fn lemma_tracker_lookup_in_range(ts: Seq<(i64, CollisionsView)>, node: i64, j: int)
    ensures
        tracker_of_node(ts, node, j) matches Some(k) ==> 0 <= k < ts.len() && ts[k].0 == node,
    decreases ts.len() - j,
{
    if 0 <= j < ts.len() {
        lemma_tracker_lookup_in_range(ts, node, j + 1);
    }
}

proof fn lemma_without_excludes(s: Seq<u64>, x: u64)
    ensures
        !without(s, x).contains(x),
    decreases s.len(),
{
    if s.len() > 0 {
        lemma_without_excludes(s.drop_last(), x);
        if s.last() != x {
            let w = without(s.drop_last(), x);
            assert forall|i: int| 0 <= i < w.push(s.last()).len() implies w.push(s.last())[i]
                != x by {
                if i < w.len() {
                    assert(w.push(s.last())[i] == w[i]);
                }
            }
        }
    }
}

/// When a collision between a tracked node and a mirrored target starts and then ends, the
/// target's entity is among the node's colliding and recent entities after the start, is no
/// longer colliding after the end, and stays among the recent ones.
pub proof fn lemma_collision_start_then_end(
    ts: Seq<(i64, CollisionsView)>,
    all: Seq<NodeEntity>,
    origin: i64,
    target_node: i64,
    start_name: Seq<char>,
    end_name: Seq<char>,
)
    requires
        collision_kind(start_name) == Some(CollisionEventType::Started),
        collision_kind(end_name) == Some(CollisionEventType::Ended),
        entity_of_node(all, target_node, 0) is Some,
        tracker_of_node(ts, origin, 0) is Some,
    ensures
        ({
            let t1 = apply_collision_signal(ts, all, start_name, origin, Some(Some(target_node)));
            let t2 = apply_collision_signal(t1, all, end_name, origin, Some(Some(target_node)));
            let k = tracker_of_node(ts, origin, 0)->Some_0;
            let e = entity_of_node(all, target_node, 0)->Some_0;
            &&& t1[k].1.colliding.contains(e)
            &&& t1[k].1.recent.contains(e)
            &&& !t2[k].1.colliding.contains(e)
            &&& t2[k].1.recent == t1[k].1.recent
        }),
{
    let t1 = apply_collision_signal(ts, all, start_name, origin, Some(Some(target_node)));
    let k = tracker_of_node(ts, origin, 0)->Some_0;
    let e = entity_of_node(all, target_node, 0)->Some_0;
    lemma_tracker_lookup_in_range(ts, origin, 0);
    assert(t1[k].1.colliding.last() == e);
    assert(t1[k].1.recent.last() == e);
    lemma_tracker_lookup_same_nodes(ts, t1, origin, 0);
    lemma_without_excludes(t1[k].1.colliding, e);
}

/// A signal that neither starts nor ends a collision leaves every tracker as it was.
pub proof fn lemma_other_signals_ignored(
    ts: Seq<(i64, CollisionsView)>,
    all: Seq<NodeEntity>,
    name: Seq<char>,
    origin: i64,
    first_arg: Option<Option<i64>>,
)
    requires
        collision_kind(name) is None,
    ensures
        apply_collision_signal(ts, all, name, origin, first_arg) == ts,
{
}

/// Each planned connection reports the collision kind of its signal: entering signals
/// (`body_entered`, `area_entered`) report a start and exiting signals (`body_exited`,
/// `area_exited`) an end; and each signal the node has is connected once it is a collision body.
pub proof fn lemma_collision_plan_kinds(
    body_entered: bool,
    body_exited: bool,
    area_entered: bool,
    area_exited: bool,
)
    ensures
        collision_plan(body_entered, body_exited, area_entered, area_exited) matches Some(plan) ==> {
            &&& forall|i: int|
                0 <= i < plan.len() ==> Some((#[trigger] plan[i]).1) == collision_kind(plan[i].0)
            &&& body_entered ==> plan.contains((body_entered_name(), CollisionEventType::Started))
            &&& body_exited ==> plan.contains((body_exited_name(), CollisionEventType::Ended))
            &&& area_entered ==> plan.contains((area_entered_name(), CollisionEventType::Started))
            &&& area_exited ==> plan.contains((area_exited_name(), CollisionEventType::Ended))
        },
        collision_plan(body_entered, body_exited, area_entered, area_exited) is None <==> !(
        body_entered || area_entered),
{
    assert(body_entered_name() != area_entered_name());
    assert(body_entered_name() != body_exited_name());
    assert(body_entered_name() != area_exited_name());
    assert(area_entered_name() != body_exited_name());
    assert(area_entered_name() != area_exited_name());
    assert(body_exited_name() != area_exited_name());
    if body_entered || area_entered {
        let s0 = if body_entered {
            seq![(body_entered_name(), CollisionEventType::Started)]
        } else {
            seq![]
        };
        let s1 = if body_exited {
            s0.push((body_exited_name(), CollisionEventType::Ended))
        } else {
            s0
        };
        let s2 = if area_entered {
            s1.push((area_entered_name(), CollisionEventType::Started))
        } else {
            s1
        };
        let s3 = if area_exited {
            s2.push((area_exited_name(), CollisionEventType::Ended))
        } else {
            s2
        };
        assert(forall|i: int| 0 <= i < s0.len() ==> Some((#[trigger] s0[i]).1) == collision_kind(s0[i].0));
        assert(forall|i: int| 0 <= i < s1.len() ==> Some((#[trigger] s1[i]).1) == collision_kind(s1[i].0)) by {
            assert forall|i: int| 0 <= i < s1.len() implies Some((#[trigger] s1[i]).1) == collision_kind(s1[i].0) by {
                if i < s0.len() { assert(s1[i] == s0[i]); }
            }
        }
        assert(forall|i: int| 0 <= i < s2.len() ==> Some((#[trigger] s2[i]).1) == collision_kind(s2[i].0)) by {
            assert forall|i: int| 0 <= i < s2.len() implies Some((#[trigger] s2[i]).1) == collision_kind(s2[i].0) by {
                if i < s1.len() { assert(s2[i] == s1[i]); }
            }
        }
        assert forall|i: int| 0 <= i < s3.len() implies Some((#[trigger] s3[i]).1) == collision_kind(s3[i].0) by {
            if i < s2.len() { assert(s3[i] == s2[i]); }
        }
        if body_entered {
            assert(s0[0] == (body_entered_name(), CollisionEventType::Started));
            assert(s1[0] == s0[0]);
            assert(s2[0] == s1[0]);
            assert(s3[0] == s2[0]);
        }
        if body_exited {
            let i = s0.len() as int;
            assert(s1[i] == (body_exited_name(), CollisionEventType::Ended));
            assert(s2[i] == s1[i]);
            assert(s3[i] == s2[i]);
        }
        if area_entered {
            let i = s1.len() as int;
            assert(s2[i] == (area_entered_name(), CollisionEventType::Started));
            assert(s3[i] == s2[i]);
        }
        if area_exited {
            let i = s2.len() as int;
            assert(s3[i] == (area_exited_name(), CollisionEventType::Ended));
        }
    }
}

/// The signals of an update apply in the order received: applying `first` and then `second`
/// is applying `first` followed by `second` in one go.
pub proof fn lemma_signals_apply_in_order(
    ts: Seq<(i64, CollisionsView)>,
    all: Seq<NodeEntity>,
    first: Seq<GodotSignal>,
    second: Seq<GodotSignal>,
)
    ensures
        apply_collision_signals(ts, all, first + second) == apply_collision_signals(
            apply_collision_signals(ts, all, first),
            all,
            second,
        ),
    decreases second.len(),
{
    if second.len() == 0 {
        assert(first + second =~= first);
    } else {
        lemma_signals_apply_in_order(ts, all, first, second.drop_last());
        assert((first + second).drop_last() =~= first + second.drop_last());
        assert((first + second).last() == second.last());
    }
}

/// When a tracked node's collision with a mirrored body starts and ends within one update (an
/// entering signal, then an exiting signal, both naming the body), the body's entity is no
/// longer colliding afterwards, and is among the recent collisions.
pub proof fn lemma_enter_then_exit_in_one_update(
    ts: Seq<(i64, CollisionsView)>,
    all: Seq<NodeEntity>,
    enter: GodotSignal,
    exit: GodotSignal,
    target_node: i64,
)
    requires
        collision_kind(enter.name@) == Some(CollisionEventType::Started),
        collision_kind(exit.name@) == Some(CollisionEventType::Ended),
        enter.origin == exit.origin,
        first_argument(enter) == Some(Some(target_node)),
        first_argument(exit) == Some(Some(target_node)),
        entity_of_node(all, target_node, 0) is Some,
        tracker_of_node(ts, enter.origin, 0) is Some,
    ensures
        ({
            let after = apply_collision_signals(ts, all, seq![enter, exit]);
            let k = tracker_of_node(ts, enter.origin, 0)->Some_0;
            let e = entity_of_node(all, target_node, 0)->Some_0;
            &&& !after[k].1.colliding.contains(e)
            &&& after[k].1.recent.contains(e)
        }),
{
    let sigs = seq![enter, exit];
    assert(sigs.drop_last() =~= seq![enter]);
    assert(seq![enter].drop_last() =~= Seq::<GodotSignal>::empty());
    assert(seq![enter].last() == enter);
    assert(sigs.last() == exit);
    assert(apply_collision_signals(ts, all, Seq::<GodotSignal>::empty()) == ts);
    assert(apply_collision_signals(ts, all, seq![enter]) == apply_collision_signal(
        ts,
        all,
        enter.name@,
        enter.origin,
        first_argument(enter),
    ));
    lemma_collision_start_then_end(
        ts,
        all,
        enter.origin,
        target_node,
        enter.name@,
        exit.name@,
    );
}

} // verus!
