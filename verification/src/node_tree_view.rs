//! Node lookup by path patterns with wildcards.
//!
//! The scene is held as a [`NodeTree`]: a snapshot of node names, parent and owner links and
//! unique-name flags, in which every node comes after its parent and the children of a node come
//! in their scene order. Exact pattern parts are resolved on that snapshot by a model of the
//! engine's node path lookup (see [`exact_step`]).

use vstd::prelude::*;
use vstd::string::*;

use crate::text::{
    chars_equal, chars_of, is_prefix_of, is_suffix_of, matches_at, str_equal, str_equals_chars,
};

verus! {

// ---------------------------------------------------------------------------------------------
// Wildcard patterns
// ---------------------------------------------------------------------------------------------

/// `k` is the position of the first `*` in `pattern`.
pub open spec fn is_first_star(pattern: Seq<char>, k: int) -> bool {
    &&& 0 <= k < pattern.len()
    &&& pattern[k] == '*'
    &&& forall|j: int| 0 <= j < k ==> pattern[j] != '*'
}

/// The position of the first `*` in `pattern` (meaningful when there is one).
pub open spec fn first_star(pattern: Seq<char>) -> int {
    choose|k: int| is_first_star(pattern, k)
}

/// Whether `text` matches `pattern`, where a `*` stands for any run of characters:
/// `*` alone matches everything; a leading `*` asks for the rest as a suffix; a trailing `*`
/// asks for the rest as a prefix; a `*` elsewhere splits the pattern at its first `*` into a
/// prefix and a suffix that must both occur without overlapping; a pattern without `*` asks for
/// equality.
pub open spec fn wildcard_matches(text: Seq<char>, pattern: Seq<char>) -> bool {
    let n = pattern.len();
    if n == 1 && pattern[0] == '*' {
        true
    } else if n > 1 && pattern[0] == '*' {
        is_suffix_of(pattern.subrange(1, n as int), text)
    } else if n > 1 && pattern[n - 1] == '*' {
        is_prefix_of(pattern.subrange(0, n - 1), text)
    } else if pattern.contains('*') {
        let k = first_star(pattern);
        let prefix = pattern.subrange(0, k);
        let suffix = pattern.subrange(k + 1, n as int);
        &&& is_prefix_of(prefix, text)
        &&& is_suffix_of(suffix, text)
        &&& text.len() >= prefix.len() + suffix.len()
    } else {
        text == pattern
    }
}

/// Whether `text` matches the wildcard `pattern` (see [`wildcard_matches`]).
pub fn matches_wildcard_pattern(text: &str, pattern: &str) -> (r: bool)
    ensures
        r == wildcard_matches(text@, pattern@),
{
    let t = chars_of(text);
    let p = chars_of(pattern);
    let n = p.len();
    if n == 1 && p[0] == '*' {
        return true;
    }
    if n > 1 && p[0] == '*' {
        if t.len() < n - 1 {
            return false;
        }
        return matches_at(&t, t.len() - (n - 1), &p, 1, n);
    }
    if n > 1 && p[n - 1] == '*' {
        return matches_at(&t, 0, &p, 0, n - 1);
    }
    let mut k: usize = 0;
    while k < n && p[k] != '*'
        invariant
            n == p@.len(),
            k <= n,
            forall|j: int| 0 <= j < k ==> p@[j] != '*',
        decreases n - k,
    {
        k = k + 1;
    }
    if k < n {
        proof {
            assert(is_first_star(p@, k as int));
            assert forall|k2: int| is_first_star(p@, k2) implies k2 == k by {
                if k2 < k {
                    assert(p@[k2] != '*');
                } else if k2 > k {
                    assert(p@[k as int] != '*');
                }
            }
            assert(p@.contains('*'));
        }
        let slen = n - k - 1;
        let pre_ok = matches_at(&t, 0, &p, 0, k);
        if !pre_ok {
            return false;
        }
        if t.len() < slen {
            return false;
        }
        let suf_ok = matches_at(&t, t.len() - slen, &p, k + 1, n);
        suf_ok && t.len() >= k + slen
    } else {
        proof {
            assert(!p@.contains('*'));
        }
        chars_equal(&t, &p)
    }
}

// ---------------------------------------------------------------------------------------------
// Splitting a path pattern
// ---------------------------------------------------------------------------------------------

/// The non-empty `/`-separated parts of `s`, in order.
pub open spec fn path_parts(s: Seq<char>) -> Seq<Seq<char>>
    decreases s.len(),
{
    if s.len() == 0 {
        seq![]
    } else {
        let prev = path_parts(s.drop_last());
        let c = s.last();
        if c == '/' {
            prev
        } else if s.len() >= 2 && s[s.len() - 2] != '/' {
            prev.update(prev.len() - 1, prev.last().push(c))
        } else {
            prev.push(seq![c])
        }
    }
}

/// Whether `part` is the name `root`.
pub open spec fn is_root_part(part: Seq<char>) -> bool {
    part == seq!['r', 'o', 'o', 't']
}

/// A pattern split into its parts: absolute patterns (leading `/`) start at the scene root, and
/// their first part is dropped when it is `root`.
pub open spec fn pattern_parts(pattern: Seq<char>) -> (bool, Seq<Seq<char>>) {
    if pattern.len() > 0 && pattern[0] == '/' {
        let parts = path_parts(pattern.subrange(1, pattern.len() as int));
        if parts.len() > 0 && is_root_part(parts[0]) {
            (true, parts.drop_first())
        } else {
            (true, parts)
        }
    } else {
        (false, path_parts(pattern))
    }
}

/// The character views of a list of strings.
pub open spec fn str_views(parts: Seq<&str>) -> Seq<Seq<char>> {
    parts.map_values(|p: &str| p@)
}

/// Splits `s` at `/` and keeps the non-empty parts.
pub fn split_path<'a>(s: &'a str) -> (parts: Vec<&'a str>)
    ensures
        str_views(parts@) == path_parts(s@),
{
    let n = s.unicode_len();
    let mut parts: Vec<&'a str> = Vec::new();
    let mut start: usize = 0;
    let mut in_run: bool = false;
    let mut i: usize = 0;
    while i < n
        invariant
            n == s@.len(),
            i <= n,
            start <= i,
            in_run ==> start < i,
            in_run == (i > 0 && s@[i - 1] != '/'),
            in_run ==> (start == 0 || s@[start - 1] == '/'),
            in_run ==> forall|j: int| start <= j < i ==> s@[j] != '/',
            path_parts(s@.subrange(0, i as int)) == (if in_run {
                str_views(parts@).push(s@.subrange(start as int, i as int))
            } else {
                str_views(parts@)
            }),
        decreases n - i,
    {
        let c = s.get_char(i);
        let ghost prefix = s@.subrange(0, i + 1);
        proof {
            assert(prefix.drop_last() =~= s@.subrange(0, i as int));
            assert(prefix.last() == c);
        }
        if c == '/' {
            if in_run {
                let part = s.substring_char(start, i);
                proof {
                    assert(str_views(parts@.push(part)) =~= str_views(parts@).push(part@));
                }
                parts.push(part);
            }
            in_run = false;
        } else {
            if in_run {
                proof {
                    let prev = path_parts(s@.subrange(0, i as int));
                    assert(prefix.len() >= 2 && prefix[prefix.len() - 2] != '/');
                    assert(prev.last().push(c) =~= s@.subrange(start as int, i + 1));
                    assert(prev.update(prev.len() - 1, prev.last().push(c)) =~= str_views(
                        parts@,
                    ).push(s@.subrange(start as int, i + 1)));
                }
            } else {
                proof {
                    assert(!(prefix.len() >= 2 && prefix[prefix.len() - 2] != '/'));
                    assert(seq![c] =~= s@.subrange(i as int, i + 1));
                }
                start = i;
                in_run = true;
            }
        }
        i = i + 1;
    }
    proof {
        assert(s@.subrange(0, n as int) =~= s@);
    }
    if in_run {
        let part = s.substring_char(start, n);
        proof {
            assert(str_views(parts@.push(part)) =~= str_views(parts@).push(part@));
        }
        parts.push(part);
    }
    parts
}

/// A path pattern split into its parts.
pub struct NodePattern<'a> {
    /// Whether the pattern starts at the scene root.
    pub absolute: bool,
    /// The name patterns to follow, one per level.
    pub parts: Vec<&'a str>,
}

/// Splits a node path pattern such as `/root/Level*/HUD` into its parts (see [`pattern_parts`]).
pub fn parse_node_pattern<'a>(pattern: &'a str) -> (r: NodePattern<'a>)
    ensures
        r.absolute == pattern_parts(pattern@).0,
        str_views(r.parts@) == pattern_parts(pattern@).1,
{
    let n = pattern.unicode_len();
    if n > 0 && pattern.get_char(0) == '/' {
        let stripped = pattern.substring_char(1, n);
        let mut parts = split_path(stripped);
        if parts.len() > 0 && str_equal(parts[0], "root") {
            proof {
                reveal_strlit("root");
                assert("root"@ =~= seq!['r', 'o', 'o', 't']);
            }
            let ghost before = parts@;
            parts.remove(0);
            proof {
                assert(str_views(parts@) =~= str_views(before).drop_first());
            }
            NodePattern { absolute: true, parts }
        } else {
            proof {
                reveal_strlit("root");
                assert("root"@ =~= seq!['r', 'o', 'o', 't']);
            }
            NodePattern { absolute: true, parts }
        }
    } else {
        NodePattern { absolute: false, parts: split_path(pattern) }
    }
}

// ---------------------------------------------------------------------------------------------
// The node tree and the search
// ---------------------------------------------------------------------------------------------

/// One node of a [`NodeTree`].
pub struct SceneNode {
    /// The engine's instance id of the node.
    pub instance_id: i64,
    /// The node's name.
    pub name: String,
    /// The index of the node's parent in the tree, if it has one there.
    pub parent: Option<usize>,
    /// The index of the node's owner in the tree, if it has one there.
    pub owner: Option<usize>,
    /// Whether the node is reachable from its owner by its unique name (`%Name`).
    pub unique_name_in_owner: bool,
}

/// A snapshot of a scene: its nodes, each after its parent, and the index of the scene root.
pub struct NodeTree {
    nodes: Vec<SceneNode>,
    scene_root: Option<usize>,
}

/// Every parent index points to an earlier node, and the scene root is a node of the tree.
pub open spec fn nodes_well_formed(nodes: Seq<SceneNode>, scene_root: Option<usize>) -> bool {
    &&& forall|i: int| 0 <= i < nodes.len() ==> parent_before(#[trigger] nodes[i], i)
    &&& match scene_root {
        Some(r) => r < nodes.len(),
        None => true,
    }
}

/// The node's parent, if any, has an index below `i`.
pub open spec fn parent_before(node: SceneNode, i: int) -> bool {
    match node.parent {
        Some(p) => p < i,
        None => true,
    }
}

/// `c` is a child of `n`.
pub open spec fn is_child(nodes: Seq<SceneNode>, n: int, c: int) -> bool {
    0 <= c < nodes.len() && nodes[c].parent == Some(n as usize)
}

/// The first child of `n` at index `j` or later that is named `name`.
pub open spec fn first_child_named(nodes: Seq<SceneNode>, n: int, name: Seq<char>, j: int) -> Option<int>
    decreases nodes.len() - j,
{
    if j < 0 || j >= nodes.len() {
        None
    } else if is_child(nodes, n, j) && nodes[j].name@ == name {
        Some(j)
    } else {
        first_child_named(nodes, n, name, j + 1)
    }
}

proof fn lemma_first_child_named_in_range(nodes: Seq<SceneNode>, n: int, name: Seq<char>, j: int)
    ensures
        first_child_named(nodes, n, name, j) matches Some(c) ==> 0 <= c < nodes.len(),
    decreases nodes.len() - j,
{
    if 0 <= j < nodes.len() {
        lemma_first_child_named_in_range(nodes, n, name, j + 1);
    }
}

/// The position of the first `:` in `part` at index `i` or later, or the length of `part` when
/// there is none.
pub open spec fn colon_pos(part: Seq<char>, i: int) -> int
    decreases part.len() - i,
{
    if i < 0 || i >= part.len() {
        part.len() as int
    } else if part[i] == ':' {
        i
    } else {
        colon_pos(part, i + 1)
    }
}

/// Whether the subnames after the `:` at `k` are well formed as the engine parses a node path:
/// no `:` comes right after that one or right after another `:`, except at the very end.
pub open spec fn subnames_valid(part: Seq<char>, k: int) -> bool {
    forall|j: int| k < j < part.len() - 1 && #[trigger] part[j] == ':' ==> j > k + 1 && part[j - 1] != ':'
}

/// The first node at index `j` or later that `owner` owns and reaches by the unique name
/// `name`.
pub open spec fn unique_owned_by(nodes: Seq<SceneNode>, owner: int, name: Seq<char>, j: int) -> Option<int>
    decreases nodes.len() - j,
{
    if j < 0 || j >= nodes.len() {
        None
    } else if nodes[j].owner == Some(owner as usize) && nodes[j].unique_name_in_owner
        && nodes[j].name@ == name {
        Some(j)
    } else {
        unique_owned_by(nodes, owner, name, j + 1)
    }
}

/// The node that the single node name `name` designates from `n`. This is a model of how the
/// engine resolves one name of a node path (`Node::get_node`); nothing proves it against the
/// engine itself. `.` is `n` itself, `..` its parent, `%Name` the node reached by that unique name from `n` or else from
/// `n`'s owner, and any other name the child of `n` with that name.
pub open spec fn name_step(nodes: Seq<SceneNode>, n: int, name: Seq<char>) -> Option<int> {
    if name == seq!['.'] {
        Some(n)
    } else if name == seq!['.', '.'] {
        match nodes[n].parent {
            Some(p) => Some(p as int),
            None => None,
        }
    } else if name.len() > 0 && name[0] == '%' {
        match unique_owned_by(nodes, n, name.drop_first(), 0) {
            Some(u) => Some(u),
            None => match nodes[n].owner {
                Some(o) => unique_owned_by(nodes, o as int, name.drop_first(), 0),
                None => None,
            },
        }
    } else {
        first_child_named(nodes, n, name, 0)
    }
}

/// The node that an exact pattern part (a node path of one name, optionally followed by
/// `:`-separated subnames, which do not move) designates from `n`. Like [`name_step`], this
/// models the engine's `has_node` and `get_node` on a snapshot of the scene, where the original
/// asks the engine itself: nothing for a malformed or empty path, `n` itself for subnames alone,
/// and otherwise the node its name designates.
pub open spec fn exact_step(nodes: Seq<SceneNode>, n: int, part: Seq<char>) -> Option<int> {
    let k = colon_pos(part, 0);
    let name = part.subrange(0, k);
    if k < part.len() && !subnames_valid(part, k) {
        None
    } else if name.len() == 0 {
        if k + 1 < part.len() {
            Some(n)
        } else {
            None
        }
    } else {
        name_step(nodes, n, name)
    }
}

proof fn lemma_colon_pos(part: Seq<char>, i: int)
    requires
        0 <= i <= part.len(),
    ensures
        i <= colon_pos(part, i) <= part.len(),
        forall|j: int| i <= j < colon_pos(part, i) ==> part[j] != ':',
        colon_pos(part, i) < part.len() ==> part[colon_pos(part, i)] == ':',
    decreases part.len() - i,
{
    if i < part.len() && part[i] != ':' {
        lemma_colon_pos(part, i + 1);
    }
}

proof fn lemma_unique_owned_by_in_range(nodes: Seq<SceneNode>, owner: int, name: Seq<char>, j: int)
    ensures
        unique_owned_by(nodes, owner, name, j) matches Some(u) ==> 0 <= u < nodes.len(),
    decreases nodes.len() - j,
{
    if 0 <= j < nodes.len() {
        lemma_unique_owned_by_in_range(nodes, owner, name, j + 1);
    }
}

/// An exact step from a node of a well-formed tree lands on a node of the tree.
proof fn lemma_exact_step_in_range(nodes: Seq<SceneNode>, n: int, part: Seq<char>)
    requires
        forall|i: int| 0 <= i < nodes.len() ==> parent_before(#[trigger] nodes[i], i),
        0 <= n < nodes.len(),
    ensures
        exact_step(nodes, n, part) matches Some(c) ==> 0 <= c < nodes.len(),
{
    let k = colon_pos(part, 0);
    let name = part.subrange(0, k);
    lemma_colon_pos(part, 0);
    lemma_first_child_named_in_range(nodes, n, name, 0);
    lemma_unique_owned_by_in_range(nodes, n, name.drop_first(), 0);
    if let Some(o) = nodes[n].owner {
        lemma_unique_owned_by_in_range(nodes, o as int, name.drop_first(), 0);
    }
    assert(parent_before(nodes[n], n));
}

/// The node reached from `n` by following `parts[depth..]`, searching depth first and trying the
/// children in order for a wildcard part (see [`find_among_children`]); an exact part moves as
/// the engine resolves it (see [`exact_step`]).
pub open spec fn find_from(nodes: Seq<SceneNode>, n: int, parts: Seq<Seq<char>>, depth: int) -> Option<int>
    decreases parts.len() - depth, nodes.len() + 1,
{
    if depth < 0 || depth >= parts.len() {
        Some(n)
    } else if parts[depth].contains('*') {
        find_among_children(nodes, n, parts, depth, 0)
    } else {
        match exact_step(nodes, n, parts[depth]) {
            Some(c) => find_from(nodes, c, parts, depth + 1),
            None => None,
        }
    }
}

/// The first result of the search from a child of `n` at index `j` or later whose name matches
/// the wildcard part `parts[depth]`.
pub open spec fn find_among_children(
    nodes: Seq<SceneNode>,
    n: int,
    parts: Seq<Seq<char>>,
    depth: int,
    j: int,
) -> Option<int>
    decreases parts.len() - depth, nodes.len() - j,
{
    if depth < 0 || depth >= parts.len() || j < 0 || j >= nodes.len() {
        None
    } else if is_child(nodes, n, j) && wildcard_matches(nodes[j].name@, parts[depth]) {
        match find_from(nodes, j, parts, depth + 1) {
            Some(r) => Some(r),
            None => find_among_children(nodes, n, parts, depth, j + 1),
        }
    } else {
        find_among_children(nodes, n, parts, depth, j + 1)
    }
}

/// The node that the pattern designates from `base`: absolute patterns start at the scene root
/// (and find nothing when the tree has none), relative ones at `base`.
pub open spec fn find_by_pattern(
    nodes: Seq<SceneNode>,
    scene_root: Option<usize>,
    base: int,
    pattern: Seq<char>,
) -> Option<int> {
    let (absolute, parts) = pattern_parts(pattern);
    if absolute {
        match scene_root {
            Some(r) => find_from(nodes, r as int, parts, 0),
            None => None,
        }
    } else {
        find_from(nodes, base, parts, 0)
    }
}

/// The nodes of the subtree at `n` in depth-first pre-order: `n`, then the subtrees of its
/// children in their order.
pub open spec fn preorder(nodes: Seq<SceneNode>, n: int) -> Seq<int>
    decreases nodes.len() - n, nodes.len() + 1,
{
    if n < 0 || n >= nodes.len() {
        seq![]
    } else {
        seq![n] + preorder_children(nodes, n, 0)
    }
}

/// The pre-order listings of the subtrees of the children of `n` at index `j` or later.
pub open spec fn preorder_children(nodes: Seq<SceneNode>, n: int, j: int) -> Seq<int>
    decreases nodes.len() - n, nodes.len() - j,
{
    if j < 0 || j >= nodes.len() || n < 0 || n >= nodes.len() {
        seq![]
    } else if is_child(nodes, n, j) && j > n {
        preorder(nodes, j) + preorder_children(nodes, n, j + 1)
    } else {
        preorder_children(nodes, n, j + 1)
    }
}

/// Every node listed by [`preorder`] is a node of the tree.
pub proof fn lemma_preorder_in_range(nodes: Seq<SceneNode>, n: int)
    ensures
        forall|i: int|
            0 <= i < preorder(nodes, n).len() ==> 0 <= #[trigger] preorder(nodes, n)[i]
                < nodes.len(),
    decreases nodes.len() - n, nodes.len() + 1,
{
    if 0 <= n < nodes.len() {
        lemma_preorder_children_in_range(nodes, n, 0);
        let rest = preorder_children(nodes, n, 0);
        assert forall|i: int|
            0 <= i < preorder(nodes, n).len() implies 0 <= #[trigger] preorder(nodes, n)[i]
            < nodes.len() by {
            if i > 0 {
                assert(preorder(nodes, n)[i] == rest[i - 1]);
            }
        }
    }
}

proof fn lemma_preorder_children_in_range(nodes: Seq<SceneNode>, n: int, j: int)
    ensures
        forall|i: int|
            0 <= i < preorder_children(nodes, n, j).len() ==> 0 <= #[trigger] preorder_children(
                nodes,
                n,
                j,
            )[i] < nodes.len(),
    decreases nodes.len() - n, nodes.len() - j,
{
    if j < 0 || j >= nodes.len() || n < 0 || n >= nodes.len() {
    } else if is_child(nodes, n, j) && j > n {
        lemma_preorder_in_range(nodes, j);
        lemma_preorder_children_in_range(nodes, n, j + 1);
        let a = preorder(nodes, j);
        let b = preorder_children(nodes, n, j + 1);
        assert forall|i: int|
            0 <= i < preorder_children(nodes, n, j).len() implies 0 <= #[trigger] preorder_children(
            nodes,
            n,
            j,
        )[i] < nodes.len() by {
            if i < a.len() {
                assert(preorder_children(nodes, n, j)[i] == a[i]);
            } else {
                assert(preorder_children(nodes, n, j)[i] == b[i - a.len()]);
            }
        }
    } else {
        lemma_preorder_children_in_range(nodes, n, j + 1);
    }
}

/// A sequence of indices taken as integers.
pub open spec fn indices_as_ints(v: Seq<usize>) -> Seq<int> {
    v.map_values(|x: usize| x as int)
}

impl NodeTree {
    #[verifier::type_invariant]
    spec fn well_formed(self) -> bool {
        nodes_well_formed(self.nodes@, self.scene_root)
    }

    /// The nodes of the tree.
    pub closed spec fn node_seq(self) -> Seq<SceneNode> {
        self.nodes@
    }

    /// The index of the scene root, if the tree has one.
    pub closed spec fn root(self) -> Option<usize> {
        self.scene_root
    }

    /// An empty tree without a scene root.
    pub fn new() -> (t: NodeTree)
        ensures
            t.node_seq() == Seq::<SceneNode>::empty(),
            t.root() == None::<usize>,
    {
        NodeTree { nodes: Vec::new(), scene_root: None }
    }

    /// The number of nodes.
    pub fn len(&self) -> (n: usize)
        ensures
            n == self.node_seq().len(),
    {
        self.nodes.len()
    }

    /// The node at `index`.
    pub fn node(&self, index: usize) -> (n: &SceneNode)
        requires
            index < self.node_seq().len(),
        ensures
            *n == self.node_seq()[index as int],
    {
        &self.nodes[index]
    }

    /// Adds a node under `parent` (or without a parent) after all others, without an owner, and
    /// returns its index; returns `None` and leaves the tree unchanged when `parent` is not a
    /// node of the tree.
    pub fn add_node(&mut self, instance_id: i64, name: String, parent: Option<usize>) -> (r: Option<
        usize,
    >)
        ensures
            match parent {
                Some(p) => p >= old(self).node_seq().len(),
                None => false,
            } ==> r == None::<usize> && final(self).node_seq() == old(self).node_seq(),
            !(match parent {
                Some(p) => p >= old(self).node_seq().len(),
                None => false,
            }) ==> r == Some(old(self).node_seq().len() as usize) && final(self).node_seq()
                == old(self).node_seq().push(
                SceneNode { instance_id, name, parent, owner: None, unique_name_in_owner: false },
            ),
            final(self).root() == old(self).root(),
    {
        self.add_owned_node(instance_id, name, parent, None, false)
    }

    /// Adds a node under `parent` (or without a parent) after all others, with its owner and
    /// whether its owner reaches it by unique name, and returns its index; returns `None` and
    /// leaves the tree unchanged when `parent` is not a node of the tree.
    pub fn add_owned_node(
        &mut self,
        instance_id: i64,
        name: String,
        parent: Option<usize>,
        owner: Option<usize>,
        unique_name_in_owner: bool,
    ) -> (r: Option<usize>)
        ensures
            match parent {
                Some(p) => p >= old(self).node_seq().len(),
                None => false,
            } ==> r == None::<usize> && final(self).node_seq() == old(self).node_seq(),
            !(match parent {
                Some(p) => p >= old(self).node_seq().len(),
                None => false,
            }) ==> r == Some(old(self).node_seq().len() as usize) && final(self).node_seq()
                == old(self).node_seq().push(
                SceneNode { instance_id, name, parent, owner, unique_name_in_owner },
            ),
            final(self).root() == old(self).root(),
    {
        proof {
            use_type_invariant(&*self);
        }
        if let Some(p) = parent {
            if p >= self.nodes.len() {
                return None;
            }
        }
        let index = self.nodes.len();
        let ghost old_nodes = self.nodes@;
        let ghost new_node = SceneNode { instance_id, name, parent, owner, unique_name_in_owner };
        assert forall|i: int| 0 <= i < old_nodes.push(new_node).len() implies parent_before(
            #[trigger] old_nodes.push(new_node)[i],
            i,
        ) by {
            if i < old_nodes.len() {
                assert(old_nodes.push(new_node)[i] == old_nodes[i]);
            }
        }
        let root = self.scene_root;
        self.scene_root = None;
        let mut nodes: Vec<SceneNode> = Vec::new();
        std::mem::swap(&mut nodes, &mut self.nodes);
        nodes.push(SceneNode { instance_id, name, parent, owner, unique_name_in_owner });
        assert(nodes@ == old_nodes.push(new_node));
        self.nodes = nodes;
        self.scene_root = root;
        Some(index)
    }

    /// Marks the node at `index` as the scene root; returns whether it is a node of the tree
    /// (the tree is unchanged otherwise).
    pub fn set_scene_root(&mut self, index: usize) -> (ok: bool)
        ensures
            ok == (index < old(self).node_seq().len()),
            final(self).node_seq() == old(self).node_seq(),
            ok ==> final(self).root() == Some(index),
            !ok ==> final(self).root() == old(self).root(),
    {
        proof {
            use_type_invariant(&*self);
        }
        if index < self.nodes.len() {
            self.scene_root = Some(index);
            true
        } else {
            false
        }
    }

    /// The index of the node with the given instance id, the first one if several have it.
    pub fn index_of(&self, instance_id: i64) -> (r: Option<usize>)
        ensures
            match r {
                Some(i) => i < self.node_seq().len() && self.node_seq()[i as int].instance_id
                    == instance_id && forall|j: int|
                    0 <= j < i ==> self.node_seq()[j].instance_id != instance_id,
                None => forall|j: int|
                    0 <= j < self.node_seq().len() ==> self.node_seq()[j].instance_id
                        != instance_id,
            },
    {
        let mut i: usize = 0;
        while i < self.nodes.len()
            invariant
                i <= self.nodes@.len(),
                forall|j: int| 0 <= j < i ==> self.nodes@[j].instance_id != instance_id,
            decreases self.nodes@.len() - i,
        {
            if self.nodes[i].instance_id == instance_id {
                return Some(i);
            }
            i = i + 1;
        }
        None
    }

    /// Appends the pre-order listing of the subtree at `n` to `out`.
    fn push_preorder(&self, n: usize, out: &mut Vec<usize>)
        requires
            n < self.node_seq().len(),
        ensures
            indices_as_ints(final(out)@) == indices_as_ints(old(out)@) + preorder(
                self.node_seq(),
                n as int,
            ),
        decreases self.node_seq().len() - n,
    {
        let ghost start = indices_as_ints(out@);
        proof {
            assert(indices_as_ints(out@.push(n)) =~= start.push(n as int));
        }
        out.push(n);
        let total = self.nodes.len();
        let mut j: usize = 0;
        while j < total
            invariant
                total == self.nodes@.len(),
                n < total,
                j <= total,
                start + preorder(self.nodes@, n as int) == indices_as_ints(out@)
                    + preorder_children(self.nodes@, n as int, j as int),
            decreases total - j,
        {
            let is_child = match self.nodes[j].parent {
                Some(p) => p == n,
                None => false,
            };
            let ghost before = indices_as_ints(out@);
            if is_child && j > n {
                self.push_preorder(j, out);
                proof {
                    assert(preorder_children(self.nodes@, n as int, j as int) == preorder(
                        self.nodes@,
                        j as int,
                    ) + preorder_children(self.nodes@, n as int, j + 1));
                    assert(before + (preorder(self.nodes@, j as int) + preorder_children(
                        self.nodes@,
                        n as int,
                        j + 1,
                    )) =~= (before + preorder(self.nodes@, j as int)) + preorder_children(
                        self.nodes@,
                        n as int,
                        j + 1,
                    ));
                }
            }
            j = j + 1;
        }
        proof {
            assert(start + preorder(self.nodes@, n as int) =~= indices_as_ints(out@) + seq![]);
        }
    }

    /// The indices of the subtree at `n` in depth-first pre-order (see [`preorder`]).
    pub fn preorder_indices(&self, n: usize) -> (r: Vec<usize>)
        requires
            n < self.node_seq().len(),
        ensures
            indices_as_ints(r@) == preorder(self.node_seq(), n as int),
    {
        let mut out: Vec<usize> = Vec::new();
        proof {
            assert(indices_as_ints(out@) =~= Seq::<int>::empty());
        }
        self.push_preorder(n, &mut out);
        proof {
            assert(Seq::<int>::empty() + preorder(self.nodes@, n as int) =~= preorder(
                self.nodes@,
                n as int,
            ));
        }
        out
    }

    /// The first child of `n` named `name`.
    fn first_child_named_from(&self, n: usize, wanted: &Vec<char>) -> (r: Option<usize>)
        ensures
            r == (match first_child_named(self.nodes@, n as int, wanted@, 0) {
                Some(c) => Some(c as usize),
                None => None::<usize>,
            }),
            r matches Some(c) ==> c < self.nodes@.len(),
    {
        proof {
            lemma_first_child_named_in_range(self.nodes@, n as int, wanted@, 0);
        }
        let mut k: usize = 0;
        while k < self.nodes.len()
            invariant
                k <= self.nodes@.len(),
                first_child_named(self.nodes@, n as int, wanted@, 0) == first_child_named(
                    self.nodes@,
                    n as int,
                    wanted@,
                    k as int,
                ),
            decreases self.nodes@.len() - k,
        {
            let is_child = match self.nodes[k].parent {
                Some(p) => p == n,
                None => false,
            };
            if is_child && str_equals_chars(self.nodes[k].name.as_str(), wanted) {
                return Some(k);
            }
            k = k + 1;
        }
        None
    }

    /// The first node that `owner` owns and reaches by the unique name `wanted`.
    fn unique_owned_by_from(&self, owner: usize, wanted: &Vec<char>) -> (r: Option<usize>)
        ensures
            r == (match unique_owned_by(self.nodes@, owner as int, wanted@, 0) {
                Some(c) => Some(c as usize),
                None => None::<usize>,
            }),
            r matches Some(c) ==> c < self.nodes@.len(),
    {
        proof {
            lemma_unique_owned_by_in_range(self.nodes@, owner as int, wanted@, 0);
        }
        let mut k: usize = 0;
        while k < self.nodes.len()
            invariant
                k <= self.nodes@.len(),
                unique_owned_by(self.nodes@, owner as int, wanted@, 0) == unique_owned_by(
                    self.nodes@,
                    owner as int,
                    wanted@,
                    k as int,
                ),
            decreases self.nodes@.len() - k,
        {
            let owned = match self.nodes[k].owner {
                Some(o) => o == owner,
                None => false,
            };
            if owned && self.nodes[k].unique_name_in_owner && str_equals_chars(
                self.nodes[k].name.as_str(),
                wanted,
            ) {
                return Some(k);
            }
            k = k + 1;
        }
        None
    }

    /// The node that the exact pattern part `part` designates from `n` (see [`exact_step`]).
    #[verifier::loop_isolation(false)]
    fn step_exact(&self, n: usize, part: &str) -> (r: Option<usize>)
        requires
            n < self.nodes@.len(),
        ensures
            r == (match exact_step(self.nodes@, n as int, part@) {
                Some(c) => Some(c as usize),
                None => None::<usize>,
            }),
            r matches Some(c) ==> c < self.nodes@.len(),
            exact_step(self.nodes@, n as int, part@) matches Some(c) ==> 0 <= c
                < self.nodes@.len(),
    {
        proof {
            use_type_invariant(self);
            lemma_exact_step_in_range(self.nodes@, n as int, part@);
            lemma_colon_pos(part@, 0);
        }
        let p = chars_of(part);
        let len = p.len();
        let mut k: usize = 0;
        while k < len && p[k] != ':'
            invariant
                k <= len,
                len == p@.len(),
                p@ == part@,
                colon_pos(p@, 0) == colon_pos(p@, k as int),
            decreases len - k,
        {
            k = k + 1;
        }
        assert(k as int == colon_pos(part@, 0));
        if k < len {
            let mut j: usize = k + 1;
            while j < len - 1
                invariant
                    k < len,
                    k + 1 <= j <= len,
                    len == p@.len(),
                    p@ == part@,
                    forall|i: int|
                        k < i < j && i < len - 1 && #[trigger] part@[i] == ':' ==> i > k + 1
                            && part@[i - 1] != ':',
                decreases len - j,
            {
                if p[j] == ':' && (j == k + 1 || p[j - 1] == ':') {
                    assert(!subnames_valid(part@, k as int));
                    return None;
                }
                j = j + 1;
            }
            assert(subnames_valid(part@, k as int));
        }
        let mut name: Vec<char> = Vec::new();
        let mut i: usize = 0;
        while i < k
            invariant
                i <= k <= len,
                len == p@.len(),
                p@ == part@,
                name@ == part@.subrange(0, i as int),
            decreases k - i,
        {
            name.push(p[i]);
            assert(name@ =~= part@.subrange(0, i + 1));
            i = i + 1;
        }
        if name.len() == 0 {
            if k + 1 < len {
                return Some(n);
            } else {
                return None;
            }
        }
        if name.len() == 1 && name[0] == '.' {
            assert(name@ =~= seq!['.']);
            return Some(n);
        }
        if name.len() == 2 && name[0] == '.' && name[1] == '.' {
            assert(name@ =~= seq!['.', '.']);
            return self.nodes[n].parent;
        }
        assert(name@ != seq!['.']);
        assert(name@ != seq!['.', '.']);
        if name[0] == '%' {
            let mut rest: Vec<char> = Vec::new();
            let mut i: usize = 1;
            while i < name.len()
                invariant
                    1 <= i <= name@.len(),
                    rest@ == name@.subrange(1, i as int),
                decreases name@.len() - i,
            {
                rest.push(name[i]);
                assert(rest@ =~= name@.subrange(1, i + 1));
                i = i + 1;
            }
            assert(rest@ =~= name@.drop_first());
            match self.unique_owned_by_from(n, &rest) {
                Some(u) => Some(u),
                None => match self.nodes[n].owner {
                    Some(o) => self.unique_owned_by_from(o, &rest),
                    None => None,
                },
            }
        } else {
            self.first_child_named_from(n, &name)
        }
    }

    /// The node reached from `current` by following `parts[depth..]` (see [`find_from`]); each
    /// part is a single node name pattern, as splitting a path at `/` gives them.
    pub fn find_node_recursive(&self, current: usize, parts: &Vec<&str>, depth: usize) -> (r: Option<
        usize,
    >)
        requires
            current < self.node_seq().len(),
            forall|i: int| 0 <= i < parts@.len() ==> !(#[trigger] parts@[i])@.contains('/'),
        ensures
            r == (match find_from(self.node_seq(), current as int, str_views(parts@), depth as int) {
                Some(c) => Some(c as usize),
                None => None::<usize>,
            }),
            r matches Some(c) ==> c < self.node_seq().len(),
        decreases parts@.len() - depth,
    {
        proof {
            use_type_invariant(self);
        }
        let ghost views = str_views(parts@);
        let total = self.nodes.len();
        assert(views.len() == parts@.len());
        if depth >= parts.len() {
            return Some(current);
        }
        let part = parts[depth];
        assert(views[depth as int] == part@);
        let wild = contains_star(part);
        if !wild {
            match self.step_exact(current, part) {
                Some(c) => {
                    assert(!views[depth as int].contains('*'));
                    assert(exact_step(self.nodes@, current as int, views[depth as int]) == Some(
                        c as int,
                    ));
                    assert(find_from(self.nodes@, current as int, views, depth as int) == find_from(
                        self.nodes@,
                        c as int,
                        views,
                        depth + 1,
                    ));
                    self.find_node_recursive(c, parts, depth + 1)
                },
                None => None,
            }
        } else {
            let mut j: usize = 0;
            while j < self.nodes.len()
                invariant
                    j <= self.nodes@.len(),
                    depth < parts.len(),
                    current < self.nodes@.len(),
                    part == parts@[depth as int],
                    views == str_views(parts@),
                    views[depth as int].contains('*'),
                    forall|i: int| 0 <= i < parts@.len() ==> !(#[trigger] parts@[i])@.contains('/'),
                    find_from(self.nodes@, current as int, views, depth as int)
                        == find_among_children(self.nodes@, current as int, views, depth as int, j as int),
                decreases self.nodes@.len() - j,
            {
                let is_child = match self.nodes[j].parent {
                    Some(p) => p == current,
                    None => false,
                };
                if is_child && matches_wildcard_pattern(self.nodes[j].name.as_str(), part) {
                    match self.find_node_recursive(j, parts, depth + 1) {
                        Some(r) => {
                            return Some(r);
                        },
                        None => {},
                    }
                }
                j = j + 1;
            }
            assert(find_among_children(self.nodes@, current as int, views, depth as int, j as int)
                == None::<int>);
            None
        }
    }

    /// Finds the node designated by `pattern` from the node at `base` (see [`find_by_pattern`]).
    ///
    /// Supports patterns like `/root/*/HUD/CurrentLevel` (any single node name where `*`
    /// appears), `/root/Level*/HUD/CurrentLevel` (names starting with `Level`) and
    /// `*/HUD/CurrentLevel` (relative to the base node).
    pub fn find_node_by_pattern(&self, base: usize, pattern: &str) -> (r: Option<usize>)
        requires
            base < self.node_seq().len(),
        ensures
            r == (match find_by_pattern(self.node_seq(), self.root(), base as int, pattern@) {
                Some(c) => Some(c as usize),
                None => None::<usize>,
            }),
            r matches Some(c) ==> c < self.node_seq().len(),
    {
        proof {
            use_type_invariant(self);
        }
        let parsed = parse_node_pattern(pattern);
        proof {
            lemma_pattern_parts_are_names(pattern@);
            assert forall|i: int| 0 <= i < parsed.parts@.len() implies !(
            #[trigger] parsed.parts@[i])@.contains('/') by {
                assert(str_views(parsed.parts@)[i] == parsed.parts@[i]@);
            }
        }
        if parsed.absolute {
            match self.scene_root {
                Some(root) => self.find_node_recursive(root, &parsed.parts, 0),
                None => None,
            }
        } else {
            self.find_node_recursive(base, &parsed.parts, 0)
        }
    }
}

/// Whether `s` holds a `*`.
pub fn contains_star(s: &str) -> (r: bool)
    ensures
        r == s@.contains('*'),
{
    let v = chars_of(s);
    let mut i: usize = 0;
    while i < v.len()
        invariant
            v@ == s@,
            i <= v@.len(),
            forall|j: int| 0 <= j < i ==> v@[j] != '*',
        decreases v@.len() - i,
    {
        if v[i] == '*' {
            return true;
        }
        i = i + 1;
    }
    false
}

// ---------------------------------------------------------------------------------------------
// What the search finds
// ---------------------------------------------------------------------------------------------

/// `r` is reached from `n` by one step per part of `parts[depth..]`: a wildcard part steps to a
/// child whose name it matches, an exact part steps as the engine resolves it (see
/// [`exact_step`]).
pub open spec fn reaches(nodes: Seq<SceneNode>, n: int, parts: Seq<Seq<char>>, depth: int, r: int) -> bool
    decreases parts.len() - depth,
{
    if depth < 0 || depth >= parts.len() {
        r == n
    } else if parts[depth].contains('*') {
        exists|c: int|
            #![trigger is_child(nodes, n, c)]
            is_child(nodes, n, c) && wildcard_matches(nodes[c].name@, parts[depth]) && reaches(
                nodes,
                c,
                parts,
                depth + 1,
                r,
            )
    } else {
        match exact_step(nodes, n, parts[depth]) {
            Some(c) => reaches(nodes, c, parts, depth + 1, r),
            None => false,
        }
    }
}

/// The node where a pattern's search starts: the scene root for absolute patterns, the base
/// node otherwise.
pub open spec fn pattern_start(scene_root: Option<usize>, base: int, pattern: Seq<char>) -> Option<
    int,
> {
    if pattern_parts(pattern).0 {
        match scene_root {
            Some(r) => Some(r as int),
            None => None,
        }
    } else {
        Some(base)
    }
}

proof fn lemma_find_sound(nodes: Seq<SceneNode>, n: int, parts: Seq<Seq<char>>, depth: int)
    ensures
        find_from(nodes, n, parts, depth) matches Some(r) ==> reaches(nodes, n, parts, depth, r),
    decreases parts.len() - depth, nodes.len() + 1,
{
    if depth < 0 || depth >= parts.len() {
    } else if parts[depth].contains('*') {
        lemma_among_sound(nodes, n, parts, depth, 0);
    } else {
        match exact_step(nodes, n, parts[depth]) {
            Some(c) => {
                lemma_find_sound(nodes, c, parts, depth + 1);
            },
            None => {},
        }
    }
}

proof fn lemma_among_sound(nodes: Seq<SceneNode>, n: int, parts: Seq<Seq<char>>, depth: int, j: int)
    requires
        0 <= depth < parts.len(),
        parts[depth].contains('*'),
    ensures
        find_among_children(nodes, n, parts, depth, j) matches Some(r) ==> reaches(
            nodes,
            n,
            parts,
            depth,
            r,
        ),
    decreases parts.len() - depth, nodes.len() - j,
{
    if j < 0 || j >= nodes.len() {
    } else {
        lemma_among_sound(nodes, n, parts, depth, j + 1);
        if is_child(nodes, n, j) && wildcard_matches(nodes[j].name@, parts[depth]) {
            lemma_find_sound(nodes, j, parts, depth + 1);
            if let Some(r) = find_from(nodes, j, parts, depth + 1) {
                assert(is_child(nodes, n, j) && wildcard_matches(nodes[j].name@, parts[depth])
                    && reaches(nodes, j, parts, depth + 1, r));
            }
        }
    }
}

proof fn lemma_find_complete(nodes: Seq<SceneNode>, n: int, parts: Seq<Seq<char>>, depth: int, r: int)
    requires
        reaches(nodes, n, parts, depth, r),
    ensures
        find_from(nodes, n, parts, depth) is Some,
    decreases parts.len() - depth, nodes.len() + 1,
{
    if depth < 0 || depth >= parts.len() {
    } else if parts[depth].contains('*') {
        let c = choose|c: int|
            #![trigger is_child(nodes, n, c)]
            is_child(nodes, n, c) && wildcard_matches(nodes[c].name@, parts[depth]) && reaches(
                nodes,
                c,
                parts,
                depth + 1,
                r,
            );
        lemma_among_complete(nodes, n, parts, depth, 0, c, r);
    } else {
        let c = exact_step(nodes, n, parts[depth])->Some_0;
        lemma_find_complete(nodes, c, parts, depth + 1, r);
    }
}

proof fn lemma_among_complete(
    nodes: Seq<SceneNode>,
    n: int,
    parts: Seq<Seq<char>>,
    depth: int,
    j: int,
    c: int,
    r: int,
)
    requires
        0 <= depth < parts.len(),
        parts[depth].contains('*'),
        0 <= j <= c,
        is_child(nodes, n, c),
        wildcard_matches(nodes[c].name@, parts[depth]),
        reaches(nodes, c, parts, depth + 1, r),
    ensures
        find_among_children(nodes, n, parts, depth, j) is Some,
    decreases parts.len() - depth, c - j,
{
    if j == c {
        lemma_find_complete(nodes, c, parts, depth + 1, r);
    } else {
        lemma_among_complete(nodes, n, parts, depth, j + 1, c, r);
    }
}

/// A node found by a pattern is reached from where the search starts by one step per part of
/// the pattern (a wildcard part to a child whose name it matches, an exact part as the engine
/// resolves it); and the search finds a node whenever some node is reached that way.
pub proof fn lemma_pattern_search_sound_and_complete(
    nodes: Seq<SceneNode>,
    scene_root: Option<usize>,
    base: int,
    pattern: Seq<char>,
)
    ensures
        find_by_pattern(nodes, scene_root, base, pattern) matches Some(r) ==> pattern_start(
            scene_root,
            base,
            pattern,
        ) matches Some(s) && reaches(nodes, s, pattern_parts(pattern).1, 0, r),
        forall|s: int, r: int|
            pattern_start(scene_root, base, pattern) == Some(s) && #[trigger] reaches(
                nodes,
                s,
                pattern_parts(pattern).1,
                0,
                r,
            ) ==> find_by_pattern(nodes, scene_root, base, pattern) is Some,
{
    let parts = pattern_parts(pattern).1;
    match pattern_start(scene_root, base, pattern) {
        Some(s) => {
            lemma_find_sound(nodes, s, parts, 0);
            assert(find_by_pattern(nodes, scene_root, base, pattern) == find_from(
                nodes,
                s,
                parts,
                0,
            ));
            assert forall|s2: int, r: int|
                pattern_start(scene_root, base, pattern) == Some(s2) && #[trigger] reaches(
                    nodes,
                    s2,
                    parts,
                    0,
                    r,
                ) implies find_by_pattern(nodes, scene_root, base, pattern) is Some by {
                lemma_find_complete(nodes, s2, parts, 0, r);
            }
        },
        None => {},
    }
}

/// The child `c` of `n` matches the wildcard part `parts[depth]` and the rest of the pattern
/// finds a node from it.
pub open spec fn leads_to_match(nodes: Seq<SceneNode>, n: int, parts: Seq<Seq<char>>, depth: int, c: int) -> bool {
    &&& is_child(nodes, n, c)
    &&& wildcard_matches(nodes[c].name@, parts[depth])
    &&& find_from(nodes, c, parts, depth + 1) is Some
}

proof fn lemma_among_first(nodes: Seq<SceneNode>, n: int, parts: Seq<Seq<char>>, depth: int, j: int)
    requires
        0 <= depth < parts.len(),
        parts[depth].contains('*'),
        0 <= j,
    ensures
        find_among_children(nodes, n, parts, depth, j) matches Some(r) ==> exists|c: int|
            #![trigger leads_to_match(nodes, n, parts, depth, c)]
            j <= c && leads_to_match(nodes, n, parts, depth, c) && find_from(
                nodes,
                c,
                parts,
                depth + 1,
            ) == Some(r) && forall|i: int|
                j <= i < c ==> !#[trigger] leads_to_match(nodes, n, parts, depth, i),
        find_among_children(nodes, n, parts, depth, j) is None ==> forall|i: int|
            j <= i ==> !#[trigger] leads_to_match(nodes, n, parts, depth, i),
    decreases nodes.len() - j,
{
    if j < nodes.len() {
        lemma_among_first(nodes, n, parts, depth, j + 1);
        if is_child(nodes, n, j) && wildcard_matches(nodes[j].name@, parts[depth]) {
            match find_from(nodes, j, parts, depth + 1) {
                Some(r) => {
                    assert(leads_to_match(nodes, n, parts, depth, j));
                },
                None => {
                    assert(!leads_to_match(nodes, n, parts, depth, j));
                    if let Some(r) = find_among_children(nodes, n, parts, depth, j) {
                        let c = choose|c: int|
                            #![trigger leads_to_match(nodes, n, parts, depth, c)]
                            j + 1 <= c && leads_to_match(nodes, n, parts, depth, c) && find_from(
                                nodes,
                                c,
                                parts,
                                depth + 1,
                            ) == Some(r) && forall|i: int|
                                j + 1 <= i < c ==> !#[trigger] leads_to_match(
                                    nodes,
                                    n,
                                    parts,
                                    depth,
                                    i,
                                );
                        assert(leads_to_match(nodes, n, parts, depth, c));
                    }
                },
            }
        } else {
            assert(!leads_to_match(nodes, n, parts, depth, j));
            if let Some(r) = find_among_children(nodes, n, parts, depth, j) {
                let c = choose|c: int|
                    #![trigger leads_to_match(nodes, n, parts, depth, c)]
                    j + 1 <= c && leads_to_match(nodes, n, parts, depth, c) && find_from(
                        nodes,
                        c,
                        parts,
                        depth + 1,
                    ) == Some(r) && forall|i: int|
                        j + 1 <= i < c ==> !#[trigger] leads_to_match(nodes, n, parts, depth, i);
                assert(leads_to_match(nodes, n, parts, depth, c));
            }
        }
    } else {
        assert forall|i: int| j <= i implies !#[trigger] leads_to_match(nodes, n, parts, depth, i) by {
        }
    }
}

/// A wildcard part takes the first child, in the order of the children, that matches it and
/// from which the rest of the pattern finds a node: the node found is the one found from that
/// child, and no earlier matching child leads to a result; when no child leads to a result,
/// nothing is found.
pub proof fn lemma_wildcard_part_takes_first_match(
    nodes: Seq<SceneNode>,
    n: int,
    parts: Seq<Seq<char>>,
    depth: int,
)
    requires
        0 <= depth < parts.len(),
        parts[depth].contains('*'),
    ensures
        find_from(nodes, n, parts, depth) matches Some(r) ==> exists|c: int|
            #![trigger leads_to_match(nodes, n, parts, depth, c)]
            leads_to_match(nodes, n, parts, depth, c) && find_from(nodes, c, parts, depth + 1)
                == Some(r) && forall|i: int|
                0 <= i < c ==> !#[trigger] leads_to_match(nodes, n, parts, depth, i),
        find_from(nodes, n, parts, depth) is None ==> forall|c: int|
            !#[trigger] leads_to_match(nodes, n, parts, depth, c),
{
    lemma_among_first(nodes, n, parts, depth, 0);
    if find_from(nodes, n, parts, depth) is None {
        assert forall|c: int| !#[trigger] leads_to_match(nodes, n, parts, depth, c) by {
            if c < 0 {
                assert(!is_child(nodes, n, c));
            }
        }
    }
    if let Some(r) = find_from(nodes, n, parts, depth) {
        let c = choose|c: int|
            #![trigger leads_to_match(nodes, n, parts, depth, c)]
            0 <= c && leads_to_match(nodes, n, parts, depth, c) && find_from(nodes, c, parts, depth + 1)
                == Some(r) && forall|i: int|
                0 <= i < c ==> !#[trigger] leads_to_match(nodes, n, parts, depth, i);
        assert(leads_to_match(nodes, n, parts, depth, c));
    }
}

/// `*` alone matches every text; a pattern without `*` matches exactly itself; a word followed
/// by `*` matches the texts that start with the word, and `*` followed by a word those that end
/// with it.
pub proof fn lemma_wildcard_basics(text: Seq<char>, word: Seq<char>)
    ensures
        wildcard_matches(text, seq!['*']),
        !word.contains('*') ==> (wildcard_matches(text, word) <==> text == word),
        word.len() > 0 && !word.contains('*') ==> (wildcard_matches(text, word.push('*'))
            <==> is_prefix_of(word, text)),
        word.len() > 0 && !word.contains('*') ==> (wildcard_matches(text, seq!['*'] + word)
            <==> is_suffix_of(word, text)),
{
    if word.len() > 0 && !word.contains('*') {
        let p = word.push('*');
        assert(p[0] == word[0]);
        assert(word[0] != '*');
        assert(p.subrange(0, p.len() - 1) =~= word);
        let q = seq!['*'] + word;
        assert(q[0] == '*');
        assert(q.subrange(1, q.len() as int) =~= word);
        if word.len() == 1 {
            assert(!(q.len() == 1));
        }
    }
}

/// `text` is `prefix`, then anything, then `suffix` exactly when it starts with `prefix`, ends
/// with `suffix`, and is long enough for both not to overlap.
proof fn lemma_prefix_mid_suffix(text: Seq<char>, prefix: Seq<char>, suffix: Seq<char>)
    ensures
        (is_prefix_of(prefix, text) && is_suffix_of(suffix, text) && text.len() >= prefix.len()
            + suffix.len()) <==> exists|mid: Seq<char>| text == prefix + mid + suffix,
{
    if is_prefix_of(prefix, text) && is_suffix_of(suffix, text) && text.len() >= prefix.len()
        + suffix.len() {
        let mid = text.subrange(prefix.len() as int, text.len() - suffix.len());
        assert(text =~= prefix + mid + suffix);
    }
    if exists|mid: Seq<char>| text == prefix + mid + suffix {
        let mid = choose|mid: Seq<char>| text == prefix + mid + suffix;
        assert(text.subrange(0, prefix.len() as int) =~= prefix);
        assert(text.subrange(text.len() - suffix.len(), text.len() as int) =~= suffix);
    }
}

/// A pattern with a single `*` matches exactly the texts made of the part before the star,
/// then any run of characters, then the part after it.
pub proof fn lemma_single_star_matches(text: Seq<char>, prefix: Seq<char>, suffix: Seq<char>)
    requires
        !prefix.contains('*'),
        !suffix.contains('*'),
    ensures
        wildcard_matches(text, prefix + seq!['*'] + suffix) <==> exists|mid: Seq<char>|
            text == prefix + mid + suffix,
{
    let p = prefix + seq!['*'] + suffix;
    let n = p.len();
    let k = prefix.len() as int;
    lemma_prefix_mid_suffix(text, prefix, suffix);
    assert(p[k] == '*');
    assert(p.subrange(0, k) =~= prefix);
    assert(p.subrange(k + 1, n as int) =~= suffix);
    if prefix.len() == 0 && suffix.len() == 0 {
        assert(text =~= prefix + text + suffix);
    } else if prefix.len() == 0 {
        assert(p[0] == '*');
        assert(is_prefix_of(prefix, text)) by {
            assert(text.subrange(0, 0) =~= prefix);
        }
    } else {
        assert(p[0] == prefix[0]);
        assert(prefix[0] != '*');
        if suffix.len() == 0 {
            assert(p[n - 1] == '*');
            assert(is_suffix_of(suffix, text)) by {
                assert(text.subrange(text.len() - 0, text.len() as int) =~= suffix);
            }
        } else {
            assert(p[n - 1] == suffix[suffix.len() - 1]);
            assert(suffix[suffix.len() - 1] != '*');
            assert(forall|j: int| 0 <= j < k ==> p[j] == prefix[j]);
            assert(is_first_star(p, k));
            assert(p.contains('*'));
            let f = first_star(p);
            assert(is_first_star(p, f));
            if f < k {
                assert(p[f] == prefix[f]);
            } else if f > k {
                assert(p[k] != '*');
            }
            assert(f == k);
        }
    }
}

/// Every part of a split pattern is non-empty and holds no `/`.
pub proof fn lemma_pattern_parts_are_names(pattern: Seq<char>)
    ensures
        forall|i: int|
            0 <= i < pattern_parts(pattern).1.len() ==> (#[trigger] pattern_parts(pattern).1[i]).len()
                > 0 && !pattern_parts(pattern).1[i].contains('/'),
{
    if pattern.len() > 0 && pattern[0] == '/' {
        let parts = path_parts(pattern.subrange(1, pattern.len() as int));
        lemma_path_parts_are_names(pattern.subrange(1, pattern.len() as int));
        if parts.len() > 0 && is_root_part(parts[0]) {
            assert forall|i: int| 0 <= i < parts.drop_first().len() implies (
            #[trigger] parts.drop_first()[i]).len() > 0 && !parts.drop_first()[i].contains('/') by {
                assert(parts.drop_first()[i] == parts[i + 1]);
            }
        }
    } else {
        lemma_path_parts_are_names(pattern);
    }
}

/// Every part of a split path is non-empty and holds no `/`.
pub proof fn lemma_path_parts_are_names(s: Seq<char>)
    ensures
        forall|i: int|
            0 <= i < path_parts(s).len() ==> (#[trigger] path_parts(s)[i]).len() > 0 && !path_parts(
                s,
            )[i].contains('/'),
    decreases s.len(),
{
    if s.len() > 0 {
        let prev = path_parts(s.drop_last());
        lemma_path_parts_are_names(s.drop_last());
        let c = s.last();
        if c == '/' {
        } else if s.len() >= 2 && s[s.len() - 2] != '/' {
            lemma_path_parts_nonempty(s.drop_last());
            let upd = prev.update(prev.len() - 1, prev.last().push(c));
            assert forall|i: int| 0 <= i < upd.len() implies (#[trigger] upd[i]).len() > 0
                && !upd[i].contains('/') by {
                if i == prev.len() - 1 {
                    let w = prev.last().push(c);
                    assert forall|j: int| 0 <= j < w.len() implies w[j] != '/' by {
                        if j < prev.last().len() {
                            assert(w[j] == prev.last()[j]);
                        }
                    }
                }
            }
        } else {
            let pushed = prev.push(seq![c]);
            assert forall|i: int| 0 <= i < pushed.len() implies (#[trigger] pushed[i]).len() > 0
                && !pushed[i].contains('/') by {
                if i < prev.len() {
                    assert(pushed[i] == prev[i]);
                } else {
                    assert(pushed[i] == seq![c]);
                    assert(seq![c][0] == c);
                }
            }
        }
    }
}

proof fn lemma_path_parts_nonempty(s: Seq<char>)
    requires
        s.len() > 0,
        s.last() != '/',
    ensures
        path_parts(s).len() > 0,
    decreases s.len(),
{
    let d = s.drop_last();
    if s.len() >= 2 && s[s.len() - 2] != '/' {
        assert(d.last() == s[s.len() - 2]);
        lemma_path_parts_nonempty(d);
    }
}

/// Splitting `a`, a `/`, then `b` gives the parts of `a` followed by those of `b`.
proof fn lemma_path_parts_concat(a: Seq<char>, b: Seq<char>)
    ensures
        path_parts(a + seq!['/'] + b) == path_parts(a) + path_parts(b),
    decreases b.len(),
{
    let s = a + seq!['/'] + b;
    if b.len() == 0 {
        assert(s.drop_last() =~= a);
        assert(path_parts(a) + path_parts(b) =~= path_parts(a));
    } else {
        let d = b.drop_last();
        lemma_path_parts_concat(a, d);
        assert(s.drop_last() =~= a + seq!['/'] + d);
        let pa = path_parts(a);
        let pd = path_parts(d);
        let c = b.last();
        assert(s.last() == c);
        if c == '/' {
        } else if b.len() >= 2 && b[b.len() - 2] != '/' {
            assert(s[s.len() - 2] == b[b.len() - 2]);
            assert(d.last() == b[b.len() - 2]);
            lemma_path_parts_nonempty(d);
            assert((pa + pd).update((pa + pd).len() - 1, (pa + pd).last().push(c)) =~= pa
                + pd.update(pd.len() - 1, pd.last().push(c)));
        } else {
            assert(s[s.len() - 2] == '/' || s.len() < 2);
            assert((pa + pd).push(seq![c]) =~= pa + pd.push(seq![c]));
        }
    }
}

/// A non-empty word without `/` splits into itself.
proof fn lemma_path_parts_word(w: Seq<char>)
    requires
        w.len() > 0,
        !w.contains('/'),
    ensures
        path_parts(w) == seq![w],
    decreases w.len(),
{
    let d = w.drop_last();
    let c = w.last();
    assert(c != '/') by {
        assert(w[w.len() - 1] == c);
    }
    assert(w.drop_last() == d);
    if w.len() == 1 {
        assert(d =~= Seq::<char>::empty());
        assert(path_parts(d) =~= Seq::<Seq<char>>::empty());
        assert(seq![c] =~= w);
        assert(Seq::<Seq<char>>::empty().push(seq![c]) =~= seq![w]);
    } else {
        assert(!d.contains('/')) by {
            if d.contains('/') {
                let j = choose|j: int| 0 <= j < d.len() && d[j] == '/';
                assert(w[j] == '/');
            }
        }
        lemma_path_parts_word(d);
        assert(w[w.len() - 2] != '/');
        assert(d.push(c) =~= w);
        assert(path_parts(d).last() == d);
        assert(seq![d].update(0, w) =~= seq![w]);
        assert(path_parts(w) == path_parts(d).update(path_parts(d).len() - 1, path_parts(
            d,
        ).last().push(c)));
    }
}

/// The parts of `/root/q` and of `/q` are those of `q` when the first part of `q` is not
/// `root`, and a relative `q` keeps its parts.
proof fn lemma_root_pattern_parts(q: Seq<char>)
    requires
        path_parts(q).len() == 0 || !is_root_part(path_parts(q)[0]),
    ensures
        pattern_parts(seq!['/', 'r', 'o', 'o', 't', '/'] + q) == (true, path_parts(q)),
        pattern_parts(seq!['/'] + q) == (true, path_parts(q)),
        q.len() == 0 || q[0] != '/' ==> pattern_parts(q) == (false, path_parts(q)),
{
    let p1 = seq!['/', 'r', 'o', 'o', 't', '/'] + q;
    let root_word = seq!['r', 'o', 'o', 't'];
    assert(p1.subrange(1, p1.len() as int) =~= root_word + seq!['/'] + q);
    lemma_path_parts_concat(root_word, q);
    assert(!root_word.contains('/')) by {
        if root_word.contains('/') {
            let j = choose|j: int| 0 <= j < root_word.len() && root_word[j] == '/';
        }
    }
    lemma_path_parts_word(root_word);
    let parts1 = path_parts(root_word) + path_parts(q);
    assert(parts1[0] == root_word);
    assert(parts1.drop_first() =~= path_parts(q));
    let p2 = seq!['/'] + q;
    assert(p2.subrange(1, p2.len() as int) =~= q);
}

/// An absolute pattern `/root/q` and `/q`, where the first part of `q` is not `root`, search
/// the parts of `q` from the scene root, and a relative pattern `q` searches them from the base
/// node; both absolute forms find the same node, and an absolute pattern finds nothing in a tree
/// without a scene root.
pub proof fn lemma_root_prefix_is_optional(
    nodes: Seq<SceneNode>,
    scene_root: Option<usize>,
    base: int,
    q: Seq<char>,
)
    requires
        path_parts(q).len() == 0 || !is_root_part(path_parts(q)[0]),
    ensures
        pattern_parts(seq!['/', 'r', 'o', 'o', 't', '/'] + q) == (true, path_parts(q)),
        pattern_parts(seq!['/'] + q) == (true, path_parts(q)),
        q.len() == 0 || q[0] != '/' ==> pattern_parts(q) == (false, path_parts(q)),
        find_by_pattern(nodes, scene_root, base, seq!['/', 'r', 'o', 'o', 't', '/'] + q)
            == find_by_pattern(nodes, scene_root, base, seq!['/'] + q),
        find_by_pattern(nodes, scene_root, base, seq!['/'] + q) == match scene_root {
            Some(r) => find_from(nodes, r as int, path_parts(q), 0),
            None => None,
        },
        q.len() == 0 || q[0] != '/' ==> find_by_pattern(nodes, scene_root, base, q) == find_from(
            nodes,
            base,
            path_parts(q),
            0,
        ),
{
    lemma_root_pattern_parts(q);
}

} // verus!
