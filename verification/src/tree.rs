//! The tree renderer: a pure recursive mapping from an ordered sequence of
//! syntax nodes to a nested, collapsible display structure. Every expandable
//! item receives an identifier derived from its full structural path from
//! the root, so identifiers are collision-free across the whole rendered
//! forest, not merely among siblings.

use vstd::prelude::*;
use vstd::seq_lib::*;
use crate::node::{SyntaxNode, func_count_seq};
use crate::ids::{path_id, make_id, lemma_path_id_injective};

verus! {

/// One entry of the rendered, collapsible tree view. Items are created
/// fresh on every render pass and never mutated afterwards.
pub struct RenderedTreeItem {
    /// The display label, taken verbatim from the source node.
    pub label: String,
    /// Whether the item can be expanded: true exactly for function nodes.
    pub expandable: bool,
    /// The toggle identifier; meaningful only on expandable items, where it
    /// is unique across the whole rendered forest.
    pub id: String,
    /// The rendered nested body, in source order.
    pub children: Vec<RenderedTreeItem>,
}

/// The rendering relation for one node: the item mirrors the node's label
/// and kind; an expandable item carries the identifier of its structural
/// path and the rendering of the node's body.
pub open spec fn valid_item(item: RenderedTreeItem, node: SyntaxNode, path: Seq<usize>) -> bool
    decreases node, 1int,
{
    match node {
        SyntaxNode::Leaf { label } => {
            &&& item.label@ == label@
            &&& !item.expandable
            &&& item.children@.len() == 0
        },
        SyntaxNode::Function { label, body } => {
            &&& item.label@ == label@
            &&& item.expandable
            &&& item.id@ == path_id(path)
            &&& valid_forest_prefix(item.children@, body@, path, body@.len() as int)
        },
    }
}

/// The rendering relation for the first `k` entries of a forest rendered
/// below the given path prefix.
pub open spec fn valid_forest_prefix(
    items: Seq<RenderedTreeItem>,
    nodes: Seq<SyntaxNode>,
    prefix: Seq<usize>,
    k: int,
) -> bool
    decreases nodes, 0int, k,
{
    if k <= 0 {
        items.len() == nodes.len() && nodes.len() <= usize::MAX
    } else if k > nodes.len() {
        false
    } else {
        valid_item(items[k - 1], nodes[k - 1], prefix.push((k - 1) as usize))
            && valid_forest_prefix(items, nodes, prefix, k - 1)
    }
}

/// The rendering relation for a whole forest below the given path prefix.
pub open spec fn valid_forest(
    items: Seq<RenderedTreeItem>,
    nodes: Seq<SyntaxNode>,
    prefix: Seq<usize>,
) -> bool {
    valid_forest_prefix(items, nodes, prefix, nodes.len() as int)
}

/// The prefix form of the forest relation holds exactly when the lengths
/// agree and every rendered entry before `k` mirrors its source node.
pub proof fn lemma_valid_forest_iff(
    items: Seq<RenderedTreeItem>,
    nodes: Seq<SyntaxNode>,
    prefix: Seq<usize>,
    k: int,
)
    requires
        0 <= k <= nodes.len(),
    ensures
        valid_forest_prefix(items, nodes, prefix, k) <==> (items.len() == nodes.len()
            && nodes.len() <= usize::MAX && forall|i: int|
            0 <= i < k ==> #[trigger] valid_item(items[i], nodes[i], prefix.push(i as usize))),
    decreases k,
{
    if k > 0 {
        lemma_valid_forest_iff(items, nodes, prefix, k - 1);
        if valid_forest_prefix(items, nodes, prefix, k) {
            assert forall|i: int| 0 <= i < k implies #[trigger] valid_item(
                items[i],
                nodes[i],
                prefix.push(i as usize),
            ) by {
                if i == k - 1 {
                    assert(valid_item(items[k - 1], nodes[k - 1], prefix.push((k - 1) as usize)));
                }
            }
        }
        if items.len() == nodes.len() && nodes.len() <= usize::MAX && (forall|i: int|
            0 <= i < k ==> #[trigger] valid_item(items[i], nodes[i], prefix.push(i as usize))) {
            assert(valid_item(items[k - 1], nodes[k - 1], prefix.push((k - 1) as usize)));
        }
    }
}

/// Renders one node below the given structural path.
fn render_node(node: &SyntaxNode, path: Vec<usize>) -> (item: RenderedTreeItem)
    ensures
        valid_item(item, *node, path@),
    decreases *node,
{
    match node {
        SyntaxNode::Leaf { label } => RenderedTreeItem {
            label: label.clone(),
            expandable: false,
            id: String::new(),
            children: Vec::new(),
        },
        SyntaxNode::Function { label, body } => {
            let id = make_id(&path);
            let children = render_forest(body, &path);
            RenderedTreeItem { label: label.clone(), expandable: true, id, children }
        },
    }
}

/// Renders every node of a forest, in order, below the given path prefix.
fn render_forest(nodes: &Vec<SyntaxNode>, prefix: &Vec<usize>) -> (items: Vec<RenderedTreeItem>)
    ensures
        valid_forest(items@, nodes@, prefix@),
    decreases nodes@,
{
    let mut items: Vec<RenderedTreeItem> = Vec::new();
    let n = nodes.len();
    let mut i: usize = 0;
    while i < n
        invariant
            0 <= i <= n,
            n == nodes@.len(),
            items@.len() == i,
            forall|j: int|
                0 <= j < i ==> #[trigger] valid_item(items@[j], nodes@[j], prefix@.push(
                    j as usize,
                )),
        decreases n - i,
    {
        let mut path: Vec<usize> = Vec::new();
        let mut k: usize = 0;
        while k < prefix.len()
            invariant
                0 <= k <= prefix@.len(),
                path@ == prefix@.take(k as int),
            decreases prefix@.len() - k,
        {
            path.push(prefix[k]);
            proof {
                assert(path@ =~= prefix@.take(k + 1 as int));
            }
            k = k + 1;
        }
        proof {
            assert(path@ =~= prefix@);
        }
        path.push(i);
        let item = render_node(&nodes[i], path);
        items.push(item);
        i = i + 1;
    }
    proof {
        lemma_valid_forest_iff(items@, nodes@, prefix@, n as int);
    }
    items
}

/// Renders a whole parsed forest into the collapsible display structure:
/// one item per node in source order, leaves flat, function nodes
/// expandable with their body rendered beneath them.
pub fn render_tree(nodes: &Vec<SyntaxNode>) -> (items: Vec<RenderedTreeItem>)
    ensures
        valid_forest(items@, nodes@, Seq::empty()),
{
    let empty: Vec<usize> = Vec::new();
    render_forest(nodes, &empty)
}

/// The node addressed by a path of positional indices: the path `[i]` names
/// the `i`-th root, and longer paths descend into function bodies.
pub open spec fn node_at(nodes: Seq<SyntaxNode>, path: Seq<usize>) -> Option<SyntaxNode>
    decreases path.len(),
{
    if path.len() == 0 {
        None
    } else if path[0] as int >= nodes.len() {
        None
    } else {
        let n = nodes[path[0] as int];
        if path.len() == 1 {
            Some(n)
        } else {
            match n {
                SyntaxNode::Leaf { .. } => None,
                SyntaxNode::Function { body, .. } => node_at(body@, path.drop_first()),
            }
        }
    }
}

/// The rendered item addressed by a path of positional indices.
pub open spec fn item_at(items: Seq<RenderedTreeItem>, path: Seq<usize>) -> Option<
    RenderedTreeItem,
>
    decreases path.len(),
{
    if path.len() == 0 {
        None
    } else if path[0] as int >= items.len() {
        None
    } else {
        let it = items[path[0] as int];
        if path.len() == 1 {
            Some(it)
        } else {
            item_at(it.children@, path.drop_first())
        }
    }
}

/// Law: rendering preserves the tree's structure exactly. A rendered item
/// exists at a path precisely where a source node exists at the same path —
/// so every item's depth equals the nesting depth of its source node and
/// sibling order is preserved — with the same label, expandable exactly for
/// function nodes, and, on expandable items, the identifier of the full
/// structural path.
pub proof fn lemma_structure_preserved(
    items: Seq<RenderedTreeItem>,
    nodes: Seq<SyntaxNode>,
    prefix: Seq<usize>,
    path: Seq<usize>,
)
    requires
        valid_forest(items, nodes, prefix),
    ensures
        (node_at(nodes, path) is Some) == (item_at(items, path) is Some),
        node_at(nodes, path) matches Some(n) ==> item_at(items, path) matches Some(it) && {
            &&& it.label@ == n.spec_label()
            &&& it.expandable == n.is_function()
            &&& n.is_function() ==> it.id@ == path_id(prefix + path)
        },
    decreases path.len(),
{
    lemma_valid_forest_iff(items, nodes, prefix, nodes.len() as int);
    if path.len() == 0 || path[0] as int >= nodes.len() {
    } else {
        let i0 = path[0] as int;
        assert(valid_item(items[i0], nodes[i0], prefix.push(i0 as usize)));
        assert(i0 as usize == path[0]);
        if path.len() == 1 {
            assert(prefix + path =~= prefix.push(path[0]));
        } else {
            match nodes[i0] {
                SyntaxNode::Leaf { .. } => {
                    assert(item_at(items[i0].children@, path.drop_first()) is None);
                },
                SyntaxNode::Function { body, .. } => {
                    lemma_structure_preserved(
                        items[i0].children@,
                        body@,
                        prefix.push(path[0]),
                        path.drop_first(),
                    );
                    assert(prefix + path =~= prefix.push(path[0]) + path.drop_first());
                },
            }
        }
    }
}

/// The identifiers of the expandable items of a subtree, in preorder.
pub open spec fn item_ids(item: RenderedTreeItem) -> Seq<Seq<char>>
    decreases item, 1int, 0int,
{
    if item.expandable {
        seq![item.id@] + forest_ids_from(item.children@, 0)
    } else {
        forest_ids_from(item.children@, 0)
    }
}

/// The identifiers of the expandable items of a forest from position `k`
/// on, in preorder.
pub open spec fn forest_ids_from(items: Seq<RenderedTreeItem>, k: int) -> Seq<Seq<char>>
    decreases items, 0int, items.len() - k,
{
    if k < 0 || k >= items.len() {
        Seq::empty()
    } else {
        item_ids(items[k]) + forest_ids_from(items, k + 1)
    }
}

/// The identifiers of the expandable items of a rendered forest, in
/// preorder.
pub open spec fn forest_ids(items: Seq<RenderedTreeItem>) -> Seq<Seq<char>> {
    forest_ids_from(items, 0)
}

/// The structural paths of the function nodes of a subtree, in preorder,
/// the node itself standing at `path`.
pub open spec fn node_func_paths(node: SyntaxNode, path: Seq<usize>) -> Seq<Seq<usize>>
    decreases node, 1int, 0int,
{
    match node {
        SyntaxNode::Leaf { .. } => Seq::empty(),
        SyntaxNode::Function { body, .. } => seq![path] + forest_func_paths(body@, path, 0),
    }
}

/// The structural paths of the function nodes of a forest from position `k`
/// on, below the given prefix, in preorder.
pub open spec fn forest_func_paths(nodes: Seq<SyntaxNode>, prefix: Seq<usize>, k: int) -> Seq<
    Seq<usize>,
>
    decreases nodes, 0int, nodes.len() - k,
{
    if k < 0 || k >= nodes.len() {
        Seq::empty()
    } else {
        node_func_paths(nodes[k], prefix.push(k as usize)) + forest_func_paths(nodes, prefix, k + 1)
    }
}

/// Mapping a path sequence through the identifier encoding distributes over
/// concatenation.
proof fn lemma_map_id_concat(a: Seq<Seq<usize>>, b: Seq<Seq<usize>>)
    ensures
        (a + b).map_values(|p: Seq<usize>| path_id(p)) == a.map_values(|p: Seq<usize>| path_id(p))
            + b.map_values(|p: Seq<usize>| path_id(p)),
{
    assert((a + b).map_values(|p: Seq<usize>| path_id(p)) =~= a.map_values(
        |p: Seq<usize>| path_id(p),
    ) + b.map_values(|p: Seq<usize>| path_id(p)));
}

/// The expandable identifiers of a rendered subtree are exactly the
/// identifier encodings of the function-node paths of its source.
proof fn lemma_item_ids_are_paths(item: RenderedTreeItem, node: SyntaxNode, path: Seq<usize>)
    requires
        valid_item(item, node, path),
    ensures
        item_ids(item) == node_func_paths(node, path).map_values(|p: Seq<usize>| path_id(p)),
    decreases node, 1int, 0int,
{
    match node {
        SyntaxNode::Leaf { .. } => {
            assert(item_ids(item) =~= Seq::<Seq<char>>::empty());
            assert(node_func_paths(node, path).map_values(|p: Seq<usize>| path_id(p))
                =~= Seq::<Seq<char>>::empty());
        },
        SyntaxNode::Function { body, .. } => {
            lemma_forest_ids_are_paths(item.children@, body@, path, 0);
            lemma_map_id_concat(seq![path], forest_func_paths(body@, path, 0));
            assert(seq![path].map_values(|p: Seq<usize>| path_id(p)) =~= seq![path_id(path)]);
            assert(item_ids(item) == seq![item.id@] + forest_ids_from(item.children@, 0));
        },
    }
}

/// The expandable identifiers of a rendered forest are exactly the
/// identifier encodings of the function-node paths of its source.
proof fn lemma_forest_ids_are_paths(
    items: Seq<RenderedTreeItem>,
    nodes: Seq<SyntaxNode>,
    prefix: Seq<usize>,
    k: int,
)
    requires
        valid_forest(items, nodes, prefix),
        0 <= k,
    ensures
        forest_ids_from(items, k) == forest_func_paths(nodes, prefix, k).map_values(
            |p: Seq<usize>| path_id(p),
        ),
    decreases nodes, 0int, nodes.len() - k,
{
    lemma_valid_forest_iff(items, nodes, prefix, nodes.len() as int);
    if k >= nodes.len() {
        assert(forest_ids_from(items, k) =~= Seq::<Seq<char>>::empty());
        assert(forest_func_paths(nodes, prefix, k).map_values(|p: Seq<usize>| path_id(p))
            =~= Seq::<Seq<char>>::empty());
    } else {
        assert(valid_item(items[k], nodes[k], prefix.push(k as usize)));
        lemma_item_ids_are_paths(items[k], nodes[k], prefix.push(k as usize));
        lemma_forest_ids_are_paths(items, nodes, prefix, k + 1);
        lemma_map_id_concat(
            node_func_paths(nodes[k], prefix.push(k as usize)),
            forest_func_paths(nodes, prefix, k + 1),
        );
    }
}

/// Every function-node path of a subtree at `path` starts with `path`.
proof fn lemma_node_paths_shape(item: RenderedTreeItem, node: SyntaxNode, path: Seq<usize>)
    requires
        valid_item(item, node, path),
    ensures
        forall|j: int|
            0 <= j < node_func_paths(node, path).len() ==> {
                let q = #[trigger] node_func_paths(node, path)[j];
                q.len() >= path.len() && q.take(path.len() as int) == path
            },
    decreases node, 1int, 0int,
{
    match node {
        SyntaxNode::Leaf { .. } => {},
        SyntaxNode::Function { body, .. } => {
            lemma_forest_paths_shape(item.children@, body@, path, 0);
            assert(path.take(path.len() as int) =~= path);
            assert forall|j: int| 0 <= j < node_func_paths(node, path).len() implies {
                let q = #[trigger] node_func_paths(node, path)[j];
                q.len() >= path.len() && q.take(path.len() as int) == path
            } by {
                let q = node_func_paths(node, path)[j];
                if j >= 1 {
                    let r = forest_func_paths(body@, path, 0)[j - 1];
                    assert(q == r);
                    assert(r.take(path.len() as int + 1) == path.push(r[path.len() as int]));
                    assert(q.take(path.len() as int) =~= path);
                }
            }
        },
    }
}

/// Every function-node path of a forest below `prefix`, from position `k`
/// on, extends `prefix` by an index between `k` and the forest's length.
proof fn lemma_forest_paths_shape(
    items: Seq<RenderedTreeItem>,
    nodes: Seq<SyntaxNode>,
    prefix: Seq<usize>,
    k: int,
)
    requires
        valid_forest(items, nodes, prefix),
        0 <= k,
    ensures
        forall|j: int|
            0 <= j < forest_func_paths(nodes, prefix, k).len() ==> {
                let q = #[trigger] forest_func_paths(nodes, prefix, k)[j];
                &&& q.len() > prefix.len()
                &&& q.take(prefix.len() as int + 1) == prefix.push(q[prefix.len() as int])
                &&& k <= q[prefix.len() as int] as int
                &&& (q[prefix.len() as int] as int) < nodes.len()
            },
    decreases nodes, 0int, nodes.len() - k,
{
    lemma_valid_forest_iff(items, nodes, prefix, nodes.len() as int);
    if 0 <= k < nodes.len() {
        assert(valid_item(items[k], nodes[k], prefix.push(k as usize)));
        lemma_node_paths_shape(items[k], nodes[k], prefix.push(k as usize));
        lemma_forest_paths_shape(items, nodes, prefix, k + 1);
        let own = node_func_paths(nodes[k], prefix.push(k as usize));
        let rest = forest_func_paths(nodes, prefix, k + 1);
        assert forall|j: int| 0 <= j < forest_func_paths(nodes, prefix, k).len() implies {
            let q = #[trigger] forest_func_paths(nodes, prefix, k)[j];
            &&& q.len() > prefix.len()
            &&& q.take(prefix.len() as int + 1) == prefix.push(q[prefix.len() as int])
            &&& k <= q[prefix.len() as int] as int
                &&& (q[prefix.len() as int] as int) < nodes.len()
        } by {
            let q = forest_func_paths(nodes, prefix, k)[j];
            if j < own.len() {
                assert(q == own[j]);
                assert(q.take(prefix.len() as int + 1) == prefix.push(k as usize));
                assert(q[prefix.len() as int] == q.take(prefix.len() as int + 1)[prefix.len() as int]);
            } else {
                assert(q == rest[j - own.len()]);
            }
        }
    }
}

/// Helper: a concatenation of two duplicate-free sequences with no element
/// in common is duplicate-free.
proof fn lemma_no_dup_concat<A>(a: Seq<A>, b: Seq<A>)
    requires
        a.no_duplicates(),
        b.no_duplicates(),
        forall|i: int, j: int| 0 <= i < a.len() && 0 <= j < b.len() ==> a[i] != b[j],
    ensures
        (a + b).no_duplicates(),
{
    assert forall|i: int, j: int|
        0 <= i < (a + b).len() && 0 <= j < (a + b).len() && i != j implies (a + b)[i] != (a
        + b)[j] by {
        if i < a.len() && j < a.len() {
            assert(a[i] != a[j]);
        } else if i >= a.len() && j >= a.len() {
            assert(b[i - a.len()] != b[j - a.len()]);
        }
    }
}

/// The function-node paths of a subtree are pairwise distinct.
proof fn lemma_node_paths_distinct(item: RenderedTreeItem, node: SyntaxNode, path: Seq<usize>)
    requires
        valid_item(item, node, path),
    ensures
        node_func_paths(node, path).no_duplicates(),
    decreases node, 1int, 0int,
{
    match node {
        SyntaxNode::Leaf { .. } => {},
        SyntaxNode::Function { body, .. } => {
            lemma_forest_paths_distinct(item.children@, body@, path, 0);
            lemma_forest_paths_shape(item.children@, body@, path, 0);
            let own = seq![path];
            let rest = forest_func_paths(body@, path, 0);
            assert forall|i: int, j: int|
                0 <= i < own.len() && 0 <= j < rest.len() implies own[i] != rest[j] by {
                assert(rest[j].len() > path.len());
            }
            lemma_no_dup_concat(own, rest);
        },
    }
}

/// The function-node paths of a forest are pairwise distinct.
proof fn lemma_forest_paths_distinct(
    items: Seq<RenderedTreeItem>,
    nodes: Seq<SyntaxNode>,
    prefix: Seq<usize>,
    k: int,
)
    requires
        valid_forest(items, nodes, prefix),
        0 <= k,
    ensures
        forest_func_paths(nodes, prefix, k).no_duplicates(),
    decreases nodes, 0int, nodes.len() - k,
{
    lemma_valid_forest_iff(items, nodes, prefix, nodes.len() as int);
    if 0 <= k < nodes.len() {
        assert(valid_item(items[k], nodes[k], prefix.push(k as usize)));
        lemma_node_paths_distinct(items[k], nodes[k], prefix.push(k as usize));
        lemma_forest_paths_distinct(items, nodes, prefix, k + 1);
        lemma_node_paths_shape(items[k], nodes[k], prefix.push(k as usize));
        lemma_forest_paths_shape(items, nodes, prefix, k + 1);
        let own = node_func_paths(nodes[k], prefix.push(k as usize));
        let rest = forest_func_paths(nodes, prefix, k + 1);
        assert forall|i: int, j: int|
            0 <= i < own.len() && 0 <= j < rest.len() implies own[i] != rest[j] by {
            let q1 = own[i];
            let q2 = rest[j];
            assert(q1.take(prefix.len() as int + 1) == prefix.push(k as usize));
            assert(q1[prefix.len() as int] == q1.take(prefix.len() as int + 1)[prefix.len() as int]);
            assert(q1[prefix.len() as int] == k as usize);
            assert(q2[prefix.len() as int] as int >= k + 1);
        }
        lemma_no_dup_concat(own, rest);
    }
}

/// The number of function-node paths of a subtree is its function count.
proof fn lemma_node_paths_count(node: SyntaxNode, path: Seq<usize>)
    ensures
        node_func_paths(node, path).len() == node.func_count(),
    decreases node, 1int, 0int,
{
    match node {
        SyntaxNode::Leaf { .. } => {},
        SyntaxNode::Function { body, .. } => {
            lemma_forest_paths_count(body@, path, 0);
            assert(body@.skip(0) =~= body@);
        },
    }
}

/// The number of function-node paths of a forest from position `k` on is
/// the function count of the remaining nodes.
proof fn lemma_forest_paths_count(nodes: Seq<SyntaxNode>, prefix: Seq<usize>, k: int)
    requires
        0 <= k <= nodes.len(),
    ensures
        forest_func_paths(nodes, prefix, k).len() == func_count_seq(nodes.skip(k)),
    decreases nodes, 0int, nodes.len() - k,
{
    if k < nodes.len() {
        lemma_node_paths_count(nodes[k], prefix.push(k as usize));
        lemma_forest_paths_count(nodes, prefix, k + 1);
        assert(nodes.skip(k)[0] == nodes[k]);
        assert(nodes.skip(k).drop_first() =~= nodes.skip(k + 1));
    }
}

/// Law: across a whole rendered forest the identifiers handed to expandable
/// items are pairwise distinct, and their number — hence also the size of
/// their set — equals the number of function nodes in the source forest,
/// including function nodes at equal depth in distinct branches.
pub proof fn lemma_ids_collision_free(items: Seq<RenderedTreeItem>, nodes: Seq<SyntaxNode>)
    requires
        valid_forest(items, nodes, Seq::empty()),
    ensures
        forest_ids(items).no_duplicates(),
        forest_ids(items).len() == func_count_seq(nodes),
        forest_ids(items).to_set().len() == func_count_seq(nodes),
{
    let prefix = Seq::<usize>::empty();
    let paths = forest_func_paths(nodes, prefix, 0);
    let ids = forest_ids_from(items, 0);
    lemma_forest_ids_are_paths(items, nodes, prefix, 0);
    lemma_forest_paths_distinct(items, nodes, prefix, 0);
    lemma_forest_paths_shape(items, nodes, prefix, 0);
    lemma_forest_paths_count(nodes, prefix, 0);
    assert(nodes.skip(0) =~= nodes);
    assert(ids.len() == paths.len());
    assert forall|i: int, j: int|
        0 <= i < ids.len() && 0 <= j < ids.len() && i != j implies ids[i] != ids[j] by {
        assert(ids[i] == path_id(paths[i]));
        assert(ids[j] == path_id(paths[j]));
        assert(paths[i].len() > 0);
        assert(paths[j].len() > 0);
        assert(paths[i] != paths[j]);
        if path_id(paths[i]) == path_id(paths[j]) {
            lemma_path_id_injective(paths[i], paths[j]);
        }
    }
    ids.unique_seq_to_set();
}

} // verus!
