use godot_bevy::node_tree_view::{matches_wildcard_pattern, parse_node_pattern, split_path, NodeTree};

fn sample_tree() -> NodeTree {
    // root
    //   Level1
    //     HUD
    //       CurrentLevel
    //   Level2
    //     HUD
    //       Score
    //   PlayButton
    let mut t = NodeTree::new();
    let root = t.add_node(1, "root".to_string(), None).unwrap();
    let level1 = t.add_node(2, "Level1".to_string(), Some(root)).unwrap();
    let hud1 = t.add_node(3, "HUD".to_string(), Some(level1)).unwrap();
    t.add_node(4, "CurrentLevel".to_string(), Some(hud1)).unwrap();
    let level2 = t.add_node(5, "Level2".to_string(), Some(root)).unwrap();
    let hud2 = t.add_node(6, "HUD".to_string(), Some(level2)).unwrap();
    t.add_node(7, "Score".to_string(), Some(hud2)).unwrap();
    t.add_node(8, "PlayButton".to_string(), Some(root)).unwrap();
    assert!(t.set_scene_root(root));
    t
}

#[test]
fn wildcard_star_alone_matches_everything() {
    assert!(matches_wildcard_pattern("anything", "*"));
    assert!(matches_wildcard_pattern("", "*"));
}

#[test]
fn wildcard_prefix_and_suffix() {
    assert!(matches_wildcard_pattern("Level1", "Level*"));
    assert!(!matches_wildcard_pattern("Lev", "Level*"));
    assert!(matches_wildcard_pattern("PlayButton", "*Button"));
    assert!(!matches_wildcard_pattern("ButtonPlay", "*Button"));
}

#[test]
fn wildcard_star_in_the_middle() {
    assert!(matches_wildcard_pattern("abc", "a*c"));
    assert!(matches_wildcard_pattern("ac", "a*c"));
    assert!(!matches_wildcard_pattern("a", "a*a"));
    assert!(matches_wildcard_pattern("aa", "a*a"));
    assert!(!matches_wildcard_pattern("abd", "a*c"));
    // Only the first star splits the pattern.
    assert!(matches_wildcard_pattern("ab*c", "a*b*c"));
    assert!(!matches_wildcard_pattern("abxc", "a*b*c"));
}

#[test]
fn wildcard_without_star_is_equality() {
    assert!(matches_wildcard_pattern("exact", "exact"));
    assert!(!matches_wildcard_pattern("exact", "exacT"));
    assert!(matches_wildcard_pattern("", ""));
    assert!(matches_wildcard_pattern("héllo", "h*o"));
}

#[test]
fn split_path_drops_empty_parts() {
    let parts = split_path("/root//a/b/");
    assert_eq!(parts, vec!["root", "a", "b"]);
    assert!(split_path("").is_empty());
    assert!(split_path("///").is_empty());
    assert_eq!(split_path("x"), vec!["x"]);
}

#[test]
fn parse_absolute_and_relative_patterns() {
    let p = parse_node_pattern("/root/Level*/HUD");
    assert!(p.absolute);
    assert_eq!(p.parts, vec!["Level*", "HUD"]);
    let p = parse_node_pattern("*/HUD/CurrentLevel");
    assert!(!p.absolute);
    assert_eq!(p.parts, vec!["*", "HUD", "CurrentLevel"]);
    let p = parse_node_pattern("/Main/x");
    assert!(p.absolute);
    assert_eq!(p.parts, vec!["Main", "x"]);
    // A relative pattern keeps a leading `root`.
    let p = parse_node_pattern("root/x");
    assert!(!p.absolute);
    assert_eq!(p.parts, vec!["root", "x"]);
}

#[test]
fn find_node_by_absolute_pattern() {
    let t = sample_tree();
    let found = t.find_node_by_pattern(1, "/root/*/HUD/CurrentLevel").unwrap();
    assert_eq!(t.node(found).instance_id, 4);
    // Backtracks from Level1/HUD (no Score) to Level2/HUD/Score.
    let found = t.find_node_by_pattern(1, "/root/Level*/HUD/Score").unwrap();
    assert_eq!(t.node(found).instance_id, 7);
    let found = t.find_node_by_pattern(3, "/root/*Button").unwrap();
    assert_eq!(t.node(found).instance_id, 8);
    assert!(t.find_node_by_pattern(1, "/root/*/Missing").is_none());
}

#[test]
fn find_node_by_relative_pattern() {
    let t = sample_tree();
    let found = t.find_node_by_pattern(0, "*/HUD/CurrentLevel").unwrap();
    assert!(t.find_node_by_pattern(1, "*/HUD/CurrentLevel").is_none());
    assert_eq!(t.node(found).instance_id, 4);
    let found = t.find_node_by_pattern(4, "").unwrap();
    assert_eq!(t.node(found).instance_id, 5);
    // Exact names follow the child of that name only.
    assert!(t.find_node_by_pattern(0, "HUD").is_none());
    assert_eq!(t.find_node_by_pattern(1, "HUD"), Some(2));
    let found = t.find_node_by_pattern(4, "HUD/Score").unwrap();
    assert_eq!(t.node(found).instance_id, 7);
}

#[test]
fn absolute_pattern_without_scene_root_finds_nothing() {
    let mut t = NodeTree::new();
    let a = t.add_node(10, "A".to_string(), None).unwrap();
    t.add_node(11, "B".to_string(), Some(a)).unwrap();
    assert!(t.find_node_by_pattern(0, "/root/B").is_none());
    assert_eq!(t.find_node_by_pattern(0, "B"), Some(1));
}

#[test]
fn add_node_rejects_unknown_parent() {
    let mut t = NodeTree::new();
    assert_eq!(t.add_node(1, "a".to_string(), Some(0)), None);
    assert_eq!(t.len(), 0);
    assert_eq!(t.add_node(1, "a".to_string(), None), Some(0));
    assert!(!t.set_scene_root(3));
    assert_eq!(t.index_of(1), Some(0));
    assert_eq!(t.index_of(2), None);
}

#[test]
fn preorder_lists_subtrees_in_order() {
    let t = sample_tree();
    assert_eq!(t.preorder_indices(0), vec![0, 1, 2, 3, 4, 5, 6, 7]);
    assert_eq!(t.preorder_indices(4), vec![4, 5, 6]);
}

#[test]
fn exact_parts_resolve_like_node_paths() {
    // root(0)
    //   Level(1) owns Player(2, unique) and HUD(3)
    //     Player
    //     HUD
    //       Score(4, unique in Level)
    let mut t = NodeTree::new();
    let root = t.add_node(1, "root".to_string(), None).unwrap();
    let level = t.add_owned_node(2, "Level".to_string(), Some(root), Some(root), false).unwrap();
    let player = t.add_owned_node(3, "Player".to_string(), Some(level), Some(level), true).unwrap();
    let hud = t.add_owned_node(4, "HUD".to_string(), Some(level), Some(level), false).unwrap();
    let score = t.add_owned_node(5, "Score".to_string(), Some(hud), Some(level), true).unwrap();
    assert!(t.set_scene_root(root));
    // `.` stays, `..` goes to the parent, and the root has no parent.
    assert_eq!(t.find_node_by_pattern(hud, "."), Some(hud));
    assert_eq!(t.find_node_by_pattern(hud, "../Player"), Some(player));
    assert_eq!(t.find_node_by_pattern(root, ".."), None);
    // `%Name` looks in the node's own unique names, then in its owner's.
    assert_eq!(t.find_node_by_pattern(level, "%Score"), Some(score));
    assert_eq!(t.find_node_by_pattern(hud, "%Player"), Some(player));
    assert_eq!(t.find_node_by_pattern(root, "%Player"), None);
    assert_eq!(t.find_node_by_pattern(hud, "%HUD"), None);
    // Subnames after `:` do not move; malformed ones find nothing.
    assert_eq!(t.find_node_by_pattern(level, "HUD:position"), Some(hud));
    assert_eq!(t.find_node_by_pattern(level, "HUD:"), Some(hud));
    assert_eq!(t.find_node_by_pattern(level, ":position"), Some(level));
    assert_eq!(t.find_node_by_pattern(level, ":"), None);
    assert_eq!(t.find_node_by_pattern(level, "HUD::position"), None);
    assert_eq!(t.find_node_by_pattern(level, "HUD:a::b"), None);
    assert_eq!(t.find_node_by_pattern(level, "HUD:a:b:"), Some(hud));
}

#[test]
fn root_prefix_is_optional_in_absolute_patterns() {
    let t = sample_tree();
    for q in ["Level2/HUD/Score", "*/HUD/CurrentLevel", "Level*/HUD", "Nothing/Here", ""] {
        let with_root = t.find_node_by_pattern(3, &format!("/root/{q}"));
        let without_root = t.find_node_by_pattern(3, &format!("/{q}"));
        assert_eq!(with_root, without_root);
        assert_eq!(without_root, t.find_node_by_pattern(0, q));
    }
    assert_eq!(t.find_node_by_pattern(3, "/root//Level2//HUD/"), Some(5));
}
