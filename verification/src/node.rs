//! The syntax-tree model: one parsed program element, either a leaf or a
//! function node carrying a nested body. The body is owned exclusively by
//! its node, so the tree is a finite rose tree traversed by structural
//! recursion.

use vstd::prelude::*;

verus! {

/// One parsed syntax-tree node. Every kind other than a function definition
/// is a leaf for rendering purposes: the renderer only distinguishes
/// "has a nested body" from "does not".
pub enum SyntaxNode {
    /// A node without nested children, shown by its label alone.
    Leaf { label: String },
    /// A function definition: its label plus the ordered nested body.
    Function { label: String, body: Vec<SyntaxNode> },
}

impl SyntaxNode {
    /// The display label of this node.
    pub open spec fn spec_label(self) -> Seq<char> {
        match self {
            SyntaxNode::Leaf { label } => label@,
            SyntaxNode::Function { label, .. } => label@,
        }
    }

    /// Whether this node carries a nested body.
    pub open spec fn is_function(self) -> bool {
        self is Function
    }

    /// How many function nodes this subtree holds, the node itself included.
    pub open spec fn func_count(self) -> nat
        decreases self, 0int,
    {
        match self {
            SyntaxNode::Leaf { .. } => 0,
            SyntaxNode::Function { body, .. } => 1 + func_count_seq(body@),
        }
    }

    /// Structural equality of two nodes: same kind, same label text, and
    /// children equal element by element.
    pub open spec fn eq_spec(self, other: SyntaxNode) -> bool
        decreases self, 0int,
    {
        match (self, other) {
            (SyntaxNode::Leaf { label: l1 }, SyntaxNode::Leaf { label: l2 }) => l1@ == l2@,
            (
                SyntaxNode::Function { label: l1, body: b1 },
                SyntaxNode::Function { label: l2, body: b2 },
            ) => l1@ == l2@ && nodes_eq_prefix(b1@, b2@, b1@.len() as int),
            _ => false,
        }
    }

    /// Decides structural equality of two nodes.
    pub fn structural_eq(&self, other: &SyntaxNode) -> (r: bool)
        ensures
            r == self.eq_spec(*other),
        decreases *self,
    {
        match self {
            SyntaxNode::Leaf { label: l1 } => match other {
                SyntaxNode::Leaf { label: l2 } => l1.eq(l2),
                _ => false,
            },
            SyntaxNode::Function { label: l1, body: b1 } => match other {
                SyntaxNode::Function { label: l2, body: b2 } => l1.eq(l2) && nodes_eq(b1, b2),
                _ => false,
            },
        }
    }
}

/// How many function nodes a forest holds, over all its subtrees.
pub open spec fn func_count_seq(nodes: Seq<SyntaxNode>) -> nat
    decreases nodes, 1int,
{
    if nodes.len() == 0 {
        0
    } else {
        nodes[0].func_count() + func_count_seq(nodes.drop_first())
    }
}

/// Structural equality of the first `k` nodes of two forests of equal length.
pub open spec fn nodes_eq_prefix(a: Seq<SyntaxNode>, b: Seq<SyntaxNode>, k: int) -> bool
    decreases a, k,
{
    if k <= 0 {
        a.len() == b.len()
    } else if k > a.len() {
        false
    } else {
        a[k - 1].eq_spec(b[k - 1]) && nodes_eq_prefix(a, b, k - 1)
    }
}

/// Structural equality of two forests: same length, nodes equal pairwise.
pub open spec fn nodes_eq_spec(a: Seq<SyntaxNode>, b: Seq<SyntaxNode>) -> bool {
    nodes_eq_prefix(a, b, a.len() as int)
}

/// The prefix equality holds exactly when the lengths agree and every node
/// before `k` equals its counterpart.
pub proof fn lemma_nodes_eq_prefix_iff(a: Seq<SyntaxNode>, b: Seq<SyntaxNode>, k: int)
    requires
        0 <= k <= a.len(),
    ensures
        nodes_eq_prefix(a, b, k) <==> (a.len() == b.len() && forall|i: int|
            0 <= i < k ==> #[trigger] a[i].eq_spec(b[i])),
    decreases k,
{
    if k > 0 {
        lemma_nodes_eq_prefix_iff(a, b, k - 1);
        if nodes_eq_prefix(a, b, k) {
            assert forall|i: int| 0 <= i < k implies #[trigger] a[i].eq_spec(b[i]) by {
                if i == k - 1 {
                    assert(a[k - 1].eq_spec(b[k - 1]));
                }
            }
        }
        if a.len() == b.len() && (forall|i: int| 0 <= i < k ==> #[trigger] a[i].eq_spec(b[i])) {
            assert(a[k - 1].eq_spec(b[k - 1]));
            assert(nodes_eq_prefix(a, b, k - 1));
        }
    }
}

/// Decides structural equality of two forests.
pub fn nodes_eq(a: &Vec<SyntaxNode>, b: &Vec<SyntaxNode>) -> (r: bool)
    ensures
        r == nodes_eq_spec(a@, b@),
    decreases a@,
{
    proof {
        lemma_nodes_eq_prefix_iff(a@, b@, a@.len() as int);
    }
    if a.len() != b.len() {
        return false;
    }
    let n = a.len();
    let mut i: usize = 0;
    while i < n
        invariant
            n == a@.len() == b@.len(),
            0 <= i <= n,
            forall|j: int| 0 <= j < i ==> #[trigger] a@[j].eq_spec(b@[j]),
            nodes_eq_spec(a@, b@) <==> (forall|j: int|
                0 <= j < n ==> #[trigger] a@[j].eq_spec(b@[j])),
        decreases n - i,
    {
        if !a[i].structural_eq(&b[i]) {
            return false;
        }
        i = i + 1;
    }
    true
}

/// Structural equality of nodes is reflexive.
pub proof fn lemma_node_eq_refl(n: SyntaxNode)
    ensures
        n.eq_spec(n),
    decreases n,
{
    match n {
        SyntaxNode::Leaf { .. } => {},
        SyntaxNode::Function { body, .. } => {
            lemma_nodes_eq_refl(body@);
        },
    }
}

/// Structural equality of forests is reflexive.
pub proof fn lemma_nodes_eq_refl(nodes: Seq<SyntaxNode>)
    ensures
        nodes_eq_spec(nodes, nodes),
    decreases nodes,
{
    assert forall|i: int| 0 <= i < nodes.len() implies #[trigger] nodes[i].eq_spec(
        nodes[i],
    ) by {
        lemma_node_eq_refl(nodes[i]);
    }
    lemma_nodes_eq_prefix_iff(nodes, nodes, nodes.len() as int);
}

} // verus!
