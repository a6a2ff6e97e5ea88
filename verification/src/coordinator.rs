//! The execution coordinator: it hands committed input to the interpreter
//! boundary and normalizes what comes back into exactly one of two shapes —
//! a full success (value, token stream, syntax tree) or a bare failure
//! message. Partial success does not exist, and the coordinator adds no
//! behaviour of its own: the result is a pure function of the boundary's
//! outcome, so re-running the same committed input against the same
//! interpreter yields the same result.

use vstd::prelude::*;
use crate::node::{SyntaxNode, nodes_eq, nodes_eq_spec};
use crate::tokens::{RenderedToken, render_tokens, valid_token};
use crate::tree::{RenderedTreeItem, render_tree, valid_forest};

verus! {

/// What the interpreter boundary reported for one run, its parts already
/// turned into their textual representations. The boundary is synchronous
/// and deterministic per input; the coordinator treats it as opaque.
pub enum InterpreterOutcome {
    /// The run completed: the produced value, the ordered lexical token
    /// stream, and the parsed top-level syntax-tree sequence.
    Completed { value: String, tokens: Vec<String>, syntax_tree: Vec<SyntaxNode> },
    /// The run failed; the boundary's message, verbatim.
    Aborted { message: String },
}

/// The normalized result of one execution. Exactly one variant is ever
/// populated.
pub enum ExecutionResult {
    /// The produced value, the token stream and the syntax tree, all
    /// carried over unchanged from the boundary.
    Success { value: String, tokens: Vec<String>, tree: Vec<SyntaxNode> },
    /// The boundary's failure message, verbatim; no partial results.
    Failure { message: String },
}

/// How an outcome normalizes: completion carries its three parts over
/// unchanged, failure carries the message over unchanged.
pub open spec fn normalize_spec(outcome: InterpreterOutcome) -> ExecutionResult {
    match outcome {
        InterpreterOutcome::Completed { value, tokens, syntax_tree } => ExecutionResult::Success {
            value,
            tokens,
            tree: syntax_tree,
        },
        InterpreterOutcome::Aborted { message } => ExecutionResult::Failure { message },
    }
}

/// Normalizes one boundary outcome into the execution result: success with
/// all three parts, or the failure message verbatim — nothing else.
pub fn execute(outcome: InterpreterOutcome) -> (r: ExecutionResult)
    ensures
        r == normalize_spec(outcome),
{
    match outcome {
        InterpreterOutcome::Completed { value, tokens, syntax_tree } => ExecutionResult::Success {
            value,
            tokens,
            tree: syntax_tree,
        },
        InterpreterOutcome::Aborted { message } => ExecutionResult::Failure { message },
    }
}

/// Textual equality of two token streams.
pub open spec fn tokens_eq_spec(a: Seq<String>, b: Seq<String>) -> bool {
    a.len() == b.len() && forall|i: int| 0 <= i < a.len() ==> #[trigger] a[i]@ == b[i]@
}

/// Structural equality of two execution results: same variant and equal
/// contents, text compared character by character.
pub open spec fn result_eq_spec(a: ExecutionResult, b: ExecutionResult) -> bool {
    match (a, b) {
        (
            ExecutionResult::Success { value: v1, tokens: t1, tree: n1 },
            ExecutionResult::Success { value: v2, tokens: t2, tree: n2 },
        ) => v1@ == v2@ && tokens_eq_spec(t1@, t2@) && nodes_eq_spec(n1@, n2@),
        (
            ExecutionResult::Failure { message: m1 },
            ExecutionResult::Failure { message: m2 },
        ) => m1@ == m2@,
        _ => false,
    }
}

/// Structural equality of two boundary outcomes.
pub open spec fn outcome_eq_spec(a: InterpreterOutcome, b: InterpreterOutcome) -> bool {
    match (a, b) {
        (
            InterpreterOutcome::Completed { value: v1, tokens: t1, syntax_tree: n1 },
            InterpreterOutcome::Completed { value: v2, tokens: t2, syntax_tree: n2 },
        ) => v1@ == v2@ && tokens_eq_spec(t1@, t2@) && nodes_eq_spec(n1@, n2@),
        (
            InterpreterOutcome::Aborted { message: m1 },
            InterpreterOutcome::Aborted { message: m2 },
        ) => m1@ == m2@,
        _ => false,
    }
}

/// Decides textual equality of two token streams.
pub fn tokens_eq(a: &Vec<String>, b: &Vec<String>) -> (r: bool)
    ensures
        r == tokens_eq_spec(a@, b@),
{
    if a.len() != b.len() {
        return false;
    }
    let n = a.len();
    let mut i: usize = 0;
    while i < n
        invariant
            0 <= i <= n,
            n == a@.len() == b@.len(),
            forall|j: int| 0 <= j < i ==> #[trigger] a@[j]@ == b@[j]@,
        decreases n - i,
    {
        if !a[i].eq(&b[i]) {
            return false;
        }
        i = i + 1;
    }
    true
}

/// Decides structural equality of two execution results.
pub fn result_eq(a: &ExecutionResult, b: &ExecutionResult) -> (r: bool)
    ensures
        r == result_eq_spec(*a, *b),
{
    match a {
        ExecutionResult::Success { value: v1, tokens: t1, tree: n1 } => match b {
            ExecutionResult::Success { value: v2, tokens: t2, tree: n2 } => v1.eq(v2)
                && tokens_eq(t1, t2) && nodes_eq(n1, n2),
            _ => false,
        },
        ExecutionResult::Failure { message: m1 } => match b {
            ExecutionResult::Failure { message: m2 } => m1.eq(m2),
            _ => false,
        },
    }
}

/// Equality of boundary outcomes is reflexive: the outcome of re-running
/// one committed input against the deterministic interpreter equals itself
/// even when the run builds fresh strings and nodes.
pub proof fn lemma_outcome_eq_refl(o: InterpreterOutcome)
    ensures
        outcome_eq_spec(o, o),
{
    match o {
        InterpreterOutcome::Completed { syntax_tree, .. } => {
            crate::node::lemma_nodes_eq_refl(syntax_tree@);
        },
        InterpreterOutcome::Aborted { .. } => {},
    }
}

/// Law: execution is deterministic. The result is a pure function of the
/// boundary's outcome, so two runs whose boundary outcomes agree — as the
/// deterministic interpreter guarantees for one committed input — normalize
/// to equal execution results.
pub proof fn lemma_execute_deterministic(o1: InterpreterOutcome, o2: InterpreterOutcome)
    requires
        outcome_eq_spec(o1, o2),
    ensures
        result_eq_spec(normalize_spec(o1), normalize_spec(o2)),
{
}

/// What the page shows for one execution: either the three parallel panels
/// or the bare error message, never a mixture.
pub enum RenderedView {
    /// The produced value, the numbered token list, and the collapsible
    /// tree, shown together.
    Output {
        value: String,
        token_list: Vec<RenderedToken>,
        tree_view: Vec<RenderedTreeItem>,
    },
    /// Only the failure message; the value, token and tree panels are
    /// suppressed.
    ErrorMessage { message: String },
}

/// Whether a result is small enough to render: the token list is numbered
/// with machine integers.
pub open spec fn result_renderable(result: ExecutionResult) -> bool {
    match result {
        ExecutionResult::Success { tokens, .. } => tokens@.len() < usize::MAX,
        ExecutionResult::Failure { .. } => true,
    }
}

/// How a view reflects a result: success shows the value verbatim next to
/// the numbered token list and the rendered tree; failure shows exactly the
/// message and nothing else.
pub open spec fn view_reflects(result: ExecutionResult, v: RenderedView) -> bool {
    match (result, v) {
        (
            ExecutionResult::Success { value, tokens, tree },
            RenderedView::Output { value: shown, token_list, tree_view },
        ) => {
            &&& shown@ == value@
            &&& token_list@.len() == tokens@.len()
            &&& forall|i: int|
                0 <= i < token_list@.len() ==> #[trigger] valid_token(token_list@[i], tokens@, i)
            &&& valid_forest(tree_view@, tree@, Seq::empty())
        },
        (
            ExecutionResult::Failure { message },
            RenderedView::ErrorMessage { message: shown },
        ) => shown@ == message@,
        _ => false,
    }
}

/// Composes the page's output region for one execution result: on success
/// the value, the numbered token list and the collapsible tree; on failure
/// only the error message.
pub fn compose_view(result: &ExecutionResult) -> (v: RenderedView)
    requires
        result_renderable(*result),
    ensures
        view_reflects(*result, v),
{
    match result {
        ExecutionResult::Success { value, tokens, tree } => {
            let token_list = render_tokens(tokens);
            let tree_view = render_tree(tree);
            RenderedView::Output { value: value.clone(), token_list, tree_view }
        },
        ExecutionResult::Failure { message } => RenderedView::ErrorMessage {
            message: message.clone(),
        },
    }
}

} // verus!
