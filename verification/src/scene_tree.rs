//! Mirroring of the Godot scene tree in the ECS: scene tree events, node groups, and the
//! bookkeeping that ties each node to its entity.
//!
//! Nodes are identified by their instance ids (`InstanceId::to_i64`), entities by their bit form
//! (`Entity::to_bits`).

use std::collections::HashMap;
use std::sync::mpsc::Receiver;

use vstd::prelude::*;
use vstd::string::*;

use crate::node_tree_view::{indices_as_ints, preorder, NodeTree};
use crate::text::str_equal;

verus! {

broadcast use vstd::std_specs::hash::group_hash_axioms;

#[verifier::external_type_specification]
#[verifier::external_body]
#[verifier::reject_recursive_types(T)]
pub struct ExReceiver<T>(Receiver<T>);

/// Unified scene tree plugin: access to the scene tree, scene tree events, and one entity per
/// scene tree node.
#[derive(Debug, Clone, Copy)]
pub struct GodotSceneTreePlugin {
    /// When true, adds a parent child entity relationship in ECS that mimics Godot's parent
    /// child node relationship.
    pub add_child_relationship: bool,
}

impl Default for GodotSceneTreePlugin {
    fn default() -> (p: GodotSceneTreePlugin)
        ensures
            p.add_child_relationship,
    {
        GodotSceneTreePlugin { add_child_relationship: true }
    }
}

/// Configuration resource for scene tree behavior.
#[derive(Debug, Clone, Copy)]
pub struct SceneTreeConfig {
    /// When true, adds a parent child entity relationship in ECS that mimics Godot's parent
    /// child node relationship.
    pub add_child_relationship: bool,
}

impl GodotSceneTreePlugin {
    /// The configuration resource that the plugin installs.
    pub fn config(&self) -> (c: SceneTreeConfig)
        ensures
            c.add_child_relationship == self.add_child_relationship,
    {
        SceneTreeConfig { add_child_relationship: self.add_child_relationship }
    }
}

/// What happened to a node of the scene tree.
#[derive(Debug, Clone, Copy, PartialEq, Eq)]
pub enum SceneTreeEventType {
    NodeAdded,
    NodeRemoved,
    NodeRenamed,
}

/// A scene tree event: the instance id of the node, what happened to it, and the node's class
/// name when it was analysed before being sent.
#[derive(Debug, Clone)]
pub struct SceneTreeEvent {
    pub node: i64,
    pub event_type: SceneTreeEventType,
    pub node_type: Option<String>,
}

/// Receives the scene tree events sent by the scene tree watcher.
pub struct SceneTreeEventReader(pub Receiver<SceneTreeEvent>);

/// Marks an entity so it is not despawned when its corresponding Godot Node is freed, breaking
/// the usual 1-to-1 lifetime between them.
#[derive(Debug, Clone, Copy, Default)]
pub struct ProtectedNodeEntity;

/// The groups a node belongs to.
#[derive(Debug, Clone)]
pub struct Groups {
    groups: Vec<String>,
}

impl View for Groups {
    type V = Seq<Seq<char>>;

    closed spec fn view(&self) -> Seq<Seq<char>> {
        self.groups@.map_values(|g: String| g@)
    }
}

impl Groups {
    /// The groups with the given names, in order.
    pub fn new(groups: Vec<String>) -> (g: Groups)
        ensures
            g@ == groups@.map_values(|s: String| s@),
    {
        Groups { groups }
    }

    /// Whether the node belongs to the group `group_name`.
    pub fn is(&self, group_name: &str) -> (r: bool)
        ensures
            r == self@.contains(group_name@),
    {
        let mut i: usize = 0;
        while i < self.groups.len()
            invariant
                i <= self.groups@.len(),
                self@.len() == self.groups@.len(),
                forall|j: int| 0 <= j < i ==> self@[j] != group_name@,
            decreases self.groups@.len() - i,
        {
            if str_equal(self.groups[i].as_str(), group_name) {
                assert(self@[i as int] == group_name@);
                return true;
            }
            i = i + 1;
        }
        false
    }
}

/// The event carries the class name `t`.
pub open spec fn has_node_type(e: SceneTreeEvent, t: Seq<char>) -> bool {
    match e.node_type {
        Some(s) => s@ == t,
        None => false,
    }
}

/// The initial scene tree events from a pre-analysis of the tree: one `NodeAdded` event per
/// analysed node, pairing the instance ids with the class names up to the shorter list.
pub fn events_from_analysis(instance_ids: &Vec<i64>, node_types: &Vec<String>) -> (r: Vec<
    SceneTreeEvent,
>)
    requires
        forall|i: int|
            0 <= i < instance_ids@.len() && i < node_types@.len() ==> instance_ids@[i] != 0,
    ensures
        r@.len() == if instance_ids@.len() < node_types@.len() {
            instance_ids@.len()
        } else {
            node_types@.len()
        },
        forall|i: int|
            0 <= i < r@.len() ==> (#[trigger] r@[i]).node == instance_ids@[i] && r@[i].event_type
                == SceneTreeEventType::NodeAdded && has_node_type(r@[i], node_types@[i]@),
{
    let len = if instance_ids.len() < node_types.len() {
        instance_ids.len()
    } else {
        node_types.len()
    };
    let mut events: Vec<SceneTreeEvent> = Vec::new();
    let mut i: usize = 0;
    while i < len
        invariant
            len <= instance_ids@.len(),
            len <= node_types@.len(),
            i <= len,
            events@.len() == i,
            forall|j: int|
                0 <= j < i ==> (#[trigger] events@[j]).node == instance_ids@[j]
                    && events@[j].event_type == SceneTreeEventType::NodeAdded
                    && has_node_type(events@[j], node_types@[j]@),
        decreases len - i,
    {
        let type_str = String::from_str(node_types[i].as_str());
        events.push(
            SceneTreeEvent {
                node: instance_ids[i],
                event_type: SceneTreeEventType::NodeAdded,
                node_type: Some(type_str),
            },
        );
        i = i + 1;
    }
    events
}

/// The initial scene tree events when no pre-analysis is available: one `NodeAdded` event per
/// node of the subtree at `root`, in depth-first pre-order, without class names.
pub fn traverse_fallback(tree: &NodeTree, root: usize) -> (r: Vec<SceneTreeEvent>)
    requires
        root < tree.node_seq().len(),
    ensures
        r@.len() == preorder(tree.node_seq(), root as int).len(),
        forall|i: int|
            0 <= i < r@.len() ==> (#[trigger] r@[i]).node == tree.node_seq()[preorder(
                tree.node_seq(),
                root as int,
            )[i]].instance_id && r@[i].event_type == SceneTreeEventType::NodeAdded
                && r@[i].node_type == None::<String>,
{
    let order = tree.preorder_indices(root);
    let ghost po = preorder(tree.node_seq(), root as int);
    proof {
        crate::node_tree_view::lemma_preorder_in_range(tree.node_seq(), root as int);
    }
    let mut events: Vec<SceneTreeEvent> = Vec::new();
    let mut i: usize = 0;
    while i < order.len()
        invariant
            indices_as_ints(order@) == po,
            i <= order@.len(),
            events@.len() == i,
            forall|j: int| 0 <= j < po.len() ==> 0 <= #[trigger] po[j] < tree.node_seq().len(),
            forall|j: int|
                0 <= j < i ==> (#[trigger] events@[j]).node == tree.node_seq()[po[j]].instance_id
                    && events@[j].event_type == SceneTreeEventType::NodeAdded
                    && events@[j].node_type == None::<String>,
        decreases order@.len() - i,
    {
        assert(po[i as int] == order@[i as int] as int);
        let index = order[i];
        let id = tree.node(index).instance_id;
        events.push(
            SceneTreeEvent { node: id, event_type: SceneTreeEventType::NodeAdded, node_type: None },
        );
        i = i + 1;
    }
    events
}

/// The scene tree signals to forward to the scene tree watcher when the plain watcher is used,
/// with the event type each one reports; none when the optimized watcher forwards the events
/// itself.
pub fn scene_tree_signal_bindings(optimized_watcher: bool) -> (r: Vec<
    (&'static str, SceneTreeEventType),
>)
    ensures
        optimized_watcher ==> r@.len() == 0,
        !optimized_watcher ==> r@.len() == 3 && r@[0].0@ == seq![
            'n',
            'o',
            'd',
            'e',
            '_',
            'a',
            'd',
            'd',
            'e',
            'd',
        ] && r@[0].1 == SceneTreeEventType::NodeAdded && r@[1].0@ == seq![
            'n',
            'o',
            'd',
            'e',
            '_',
            'r',
            'e',
            'm',
            'o',
            'v',
            'e',
            'd',
        ] && r@[1].1 == SceneTreeEventType::NodeRemoved && r@[2].0@ == seq![
            'n',
            'o',
            'd',
            'e',
            '_',
            'r',
            'e',
            'n',
            'a',
            'm',
            'e',
            'd',
        ] && r@[2].1 == SceneTreeEventType::NodeRenamed,
{
    let mut v: Vec<(&'static str, SceneTreeEventType)> = Vec::new();
    if !optimized_watcher {
        proof {
            reveal_strlit("node_added");
            reveal_strlit("node_removed");
            reveal_strlit("node_renamed");
        }
        v.push(("node_added", SceneTreeEventType::NodeAdded));
        v.push(("node_removed", SceneTreeEventType::NodeRemoved));
        v.push(("node_renamed", SceneTreeEventType::NodeRenamed));
    }
    v
}

// ---------------------------------------------------------------------------------------------
// Node-entity bookkeeping
// ---------------------------------------------------------------------------------------------

/// The entity that mirrors a node, and whether that entity is protected from despawning.
#[derive(Debug, Clone, Copy, PartialEq, Eq)]
pub struct EntityLink {
    pub entity: u64,
    pub protected: bool,
}

/// Which entity a node mirrors.
pub struct SceneTreeMirror {
    links: HashMap<i64, EntityLink>,
}

impl View for SceneTreeMirror {
    type V = Map<i64, EntityLink>;

    closed spec fn view(&self) -> Map<i64, EntityLink> {
        self.links@
    }
}

/// The links listed by `entries` (node, entity, protected); a later entry for a node replaces
/// an earlier one.
pub open spec fn links_from(entries: Seq<(i64, u64, bool)>) -> Map<i64, EntityLink>
    decreases entries.len(),
{
    if entries.len() == 0 {
        Map::empty()
    } else {
        let e = entries.last();
        links_from(entries.drop_last()).insert(e.0, EntityLink { entity: e.1, protected: e.2 })
    }
}

/// What to do with an added node: skip it when it is no longer valid, otherwise reuse the
/// entity that already mirrors it, or spawn a new one.
#[derive(Debug, Clone, Copy, PartialEq, Eq)]
pub enum AddedTarget {
    Skip,
    Reuse(u64),
    Spawn,
}

/// How an added node's entity joins its parent's: attached to the parent's entity, not at all,
/// or not at all because the parent node has no entity yet.
#[derive(Debug, Clone, Copy, PartialEq, Eq)]
pub enum ParentLink {
    NoParent,
    AttachTo(u64),
    ParentMissing(i64),
}

/// What to do with the entity of a removed node: nothing when no entity mirrors it, despawn it,
/// or (when it is protected) only strip the components that tie it to the node.
#[derive(Debug, Clone, Copy, PartialEq, Eq)]
pub enum RemovalAction {
    Untracked,
    Despawn(u64),
    StripGodotComponents(u64),
}

/// See [`AddedTarget`].
pub open spec fn added_target_spec(links: Map<i64, EntityLink>, node: i64, still_valid: bool) -> AddedTarget {
    if !still_valid {
        AddedTarget::Skip
    } else if links.contains_key(node) {
        AddedTarget::Reuse(links[node].entity)
    } else {
        AddedTarget::Spawn
    }
}

/// Whether `entity`, mirroring `node`, is protected: an entity that already mirrored the node
/// keeps its protection (the marker stays on the entity); any other entity is not protected.
pub open spec fn keeps_protection(links: Map<i64, EntityLink>, node: i64, entity: u64) -> bool {
    links.contains_key(node) && links[node].entity == entity && links[node].protected
}

/// The links after a node was added and is mirrored by `entity`: the node maps to that entity,
/// protected when it is the protected entity that already mirrored the node.
pub open spec fn links_after_added(links: Map<i64, EntityLink>, node: i64, entity: u64) -> Map<
    i64,
    EntityLink,
> {
    links.insert(node, EntityLink { entity, protected: keeps_protection(links, node, entity) })
}

/// See [`ParentLink`]: only with the child relationship enabled, for a node other than the
/// scene root that has a parent.
pub open spec fn parent_link_spec(
    links: Map<i64, EntityLink>,
    parent: Option<i64>,
    is_scene_root: bool,
    add_child_relationship: bool,
) -> ParentLink {
    if !add_child_relationship || is_scene_root {
        ParentLink::NoParent
    } else {
        match parent {
            None => ParentLink::NoParent,
            Some(p) => if links.contains_key(p) {
                ParentLink::AttachTo(links[p].entity)
            } else {
                ParentLink::ParentMissing(p)
            },
        }
    }
}

/// See [`RemovalAction`].
pub open spec fn removal_action_spec(links: Map<i64, EntityLink>, node: i64) -> RemovalAction {
    if !links.contains_key(node) {
        RemovalAction::Untracked
    } else if links[node].protected {
        RemovalAction::StripGodotComponents(links[node].entity)
    } else {
        RemovalAction::Despawn(links[node].entity)
    }
}

impl SceneTreeMirror {
    /// The links of the entities that already mirror nodes, given as (node, entity, protected).
    pub fn from_entities(entries: &Vec<(i64, u64, bool)>) -> (m: SceneTreeMirror)
        ensures
            m@ == links_from(entries@),
    {
        let mut links: HashMap<i64, EntityLink> = HashMap::new();
        let mut i: usize = 0;
        while i < entries.len()
            invariant
                i <= entries@.len(),
                links@ == links_from(entries@.subrange(0, i as int)),
            decreases entries@.len() - i,
        {
            assert(entries@.subrange(0, i + 1).drop_last() =~= entries@.subrange(0, i as int));
            let (node, entity, protected) = entries[i];
            links.insert(node, EntityLink { entity, protected });
            i = i + 1;
        }
        assert(entries@.subrange(0, entries@.len() as int) =~= entries@);
        SceneTreeMirror { links }
    }

    /// The link of `node`, if an entity mirrors it.
    pub fn link_of(&self, node: i64) -> (r: Option<EntityLink>)
        ensures
            r == (if self@.contains_key(node) {
                Some(self@[node])
            } else {
                None
            }),
    {
        match self.links.get(&node) {
            Some(link) => Some(*link),
            None => None,
        }
    }

    /// What to do with an added node (see [`added_target_spec`]).
    pub fn added_target(&self, node: i64, still_valid: bool) -> (r: AddedTarget)
        ensures
            r == added_target_spec(self@, node, still_valid),
    {
        if !still_valid {
            return AddedTarget::Skip;
        }
        match self.link_of(node) {
            Some(link) => AddedTarget::Reuse(link.entity),
            None => AddedTarget::Spawn,
        }
    }

    /// Records that `node` is mirrored by `entity` (protected only when it is the protected entity
    /// that already mirrored the node, see [`keeps_protection`]), and says how that entity joins
    /// its parent's (see [`parent_link_spec`], read after the record).
    pub fn record_added(
        &mut self,
        node: i64,
        entity: u64,
        parent: Option<i64>,
        is_scene_root: bool,
        config: &SceneTreeConfig,
    ) -> (r: ParentLink)
        ensures
            final(self)@ == links_after_added(old(self)@, node, entity),
            r == parent_link_spec(
                final(self)@,
                parent,
                is_scene_root,
                config.add_child_relationship,
            ),
    {
        let protected = match self.link_of(node) {
            Some(link) => link.entity == entity && link.protected,
            None => false,
        };
        self.links.insert(node, EntityLink { entity, protected });
        if !config.add_child_relationship || is_scene_root {
            return ParentLink::NoParent;
        }
        match parent {
            None => ParentLink::NoParent,
            Some(p) => match self.link_of(p) {
                Some(link) => ParentLink::AttachTo(link.entity),
                None => ParentLink::ParentMissing(p),
            },
        }
    }

    /// Forgets `node` and says what to do with its entity (see [`removal_action_spec`]).
    pub fn node_removed(&mut self, node: i64) -> (r: RemovalAction)
        ensures
            final(self)@ == old(self)@.remove(node),
            r == removal_action_spec(old(self)@, node),
    {
        let r = match self.link_of(node) {
            None => RemovalAction::Untracked,
            Some(link) => if link.protected {
                RemovalAction::StripGodotComponents(link.entity)
            } else {
                RemovalAction::Despawn(link.entity)
            },
        };
        self.links.remove(&node);
        r
    }

    /// The entity to rename after `node` was renamed, if an entity mirrors it.
    pub fn node_renamed(&self, node: i64) -> (r: Option<u64>)
        ensures
            r == (if self@.contains_key(node) {
                Some(self@[node].entity)
            } else {
                None
            }),
    {
        match self.link_of(node) {
            Some(link) => Some(link.entity),
            None => None,
        }
    }

    /// The number of mirrored nodes.
    pub fn len(&self) -> (n: usize)
        ensures
            n == self@.len(),
    {
        self.links.len()
    }
}

/// A node that was added and then removed has its entity despawned, unless that entity is the
/// protected one that already mirrored the node, which is only stripped; the other nodes keep
/// the links they had before the node was added; an added node that is added again keeps its
/// entity.
pub proof fn lemma_added_then_removed(links: Map<i64, EntityLink>, node: i64, entity: u64)
    ensures
        !keeps_protection(links, node, entity) ==> removal_action_spec(
            links_after_added(links, node, entity),
            node,
        ) == RemovalAction::Despawn(entity),
        keeps_protection(links, node, entity) ==> removal_action_spec(
            links_after_added(links, node, entity),
            node,
        ) == RemovalAction::StripGodotComponents(entity),
        links_after_added(links, node, entity).remove(node) == links.remove(node),
        added_target_spec(links_after_added(links, node, entity), node, true)
            == AddedTarget::Reuse(entity),
{
    assert(links_after_added(links, node, entity).remove(node) =~= links.remove(node));
}

/// The entity of a protected node is never despawned when the node is removed, even after the
/// node was added again and is still mirrored by that entity: only the components that tie it to
/// the node are stripped.
pub proof fn lemma_protected_entity_survives_removal(links: Map<i64, EntityLink>, node: i64)
    requires
        links.contains_key(node),
        links[node].protected,
    ensures
        removal_action_spec(links, node) == RemovalAction::StripGodotComponents(
            links[node].entity,
        ),
        added_target_spec(links, node, true) == AddedTarget::Reuse(links[node].entity),
        removal_action_spec(links_after_added(links, node, links[node].entity), node)
            == RemovalAction::StripGodotComponents(links[node].entity),
{
}

/// Adding, removing or renaming a node leaves the links of every other node unchanged.
pub proof fn lemma_events_touch_only_their_node(
    links: Map<i64, EntityLink>,
    node: i64,
    entity: u64,
    other: i64,
)
    requires
        other != node,
    ensures
        links_after_added(links, node, entity).contains_key(other) == links.contains_key(other),
        links.contains_key(other) ==> links_after_added(links, node, entity)[other]
            == links[other],
        links.remove(node).contains_key(other) == links.contains_key(other),
        links.contains_key(other) ==> links.remove(node)[other] == links[other],
{
}

} // verus!
