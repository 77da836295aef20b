//! The node type of the expression DAG, and the error taxonomy.

use vstd::prelude::*;

verus! {

/// A handle to one node of an `Arena`. Handles are plain indices; two handles
/// into the same arena denote the same subexpression exactly when they are
/// equal, because the arena interns structurally identical nodes.
///
/// A handle carries no arena identity. A handle from another arena whose
/// index happens to be in range is indistinguishable from one of this
/// arena's own and is not rejected; only out-of-range handles are detected
/// as `ArenaMismatch`.
#[derive(Clone, Copy, Debug, PartialEq, Eq, Structural, Hash)]
pub struct NodeRef {
    pub index: usize,
}

/// Unary operation kinds.
#[derive(Clone, Copy, Debug, PartialEq, Eq, Structural, Hash)]
pub enum UnOp {
    Neg,
    Abs,
}

/// Binary operation kinds.
#[derive(Clone, Copy, Debug, PartialEq, Eq, Structural, Hash)]
pub enum BinOp {
    Add,
    Sub,
    Mul,
    Div,
    Min,
    Max,
}

/// One operation in the expression graph. Children are arena indices that
/// always point at earlier nodes, which keeps the graph acyclic.
#[derive(Clone, Copy, Debug, PartialEq, Eq, Structural, Hash)]
#[allow(inconsistent_fields)]
pub enum Node {
    Const { value: i64 },
    Var { index: usize },
    Unary { op: UnOp, child: usize },
    Binary { op: BinOp, lhs: usize, rhs: usize },
}

/// Why a builder call or an evaluation failed.
#[derive(Clone, Copy, Debug, PartialEq, Eq, Structural, Hash)]
pub enum Error {
    /// A constant outside the representable value range was supplied.
    InvalidValue,
    /// A handle did not belong to the arena it was used with.
    ArenaMismatch,
    /// An operation was evaluated outside its mathematical domain.
    DomainError,
    /// A free variable was not bound by the evaluation context.
    UnboundVariable,
    /// An intermediate result fell outside the representable value range.
    Overflow,
}

/// A node may only refer to children strictly below `bound`.
pub open spec fn node_valid(n: Node, bound: int) -> bool {
    match n {
        Node::Const { .. } => true,
        Node::Var { .. } => true,
        Node::Unary { op: _, child } => (child as int) < bound,
        Node::Binary { op: _, lhs, rhs } => (lhs as int) < bound && (rhs as int) < bound,
    }
}

/// Well-formed node store: children precede their parents (acyclicity), and
/// no two slots hold the same node (deduplication).
pub open spec fn nodes_wf(s: Seq<Node>) -> bool {
    &&& forall|j: int| 0 <= j < s.len() ==> node_valid(#[trigger] s[j], j)
    &&& forall|j: int, k: int| 0 <= j < k < s.len() ==> s[j] != s[k]
}

/// `s2` keeps every node of `s1` at its place and may append more.
pub open spec fn extends(s2: Seq<Node>, s1: Seq<Node>) -> bool {
    &&& s2.len() >= s1.len()
    &&& forall|j: int| 0 <= j < s1.len() ==> s2[j] == #[trigger] s1[j]
}

pub proof fn lemma_extends_trans(a: Seq<Node>, b: Seq<Node>, c: Seq<Node>)
    requires
        extends(b, a),
        extends(c, b),
    ensures
        extends(c, a),
{
}

/// Structurally different nodes never share a slot, so distinct handles of a
/// well-formed arena always denote structurally distinct nodes.
pub proof fn lemma_distinct_refs(s: Seq<Node>, i: int, j: int)
    requires
        nodes_wf(s),
        0 <= i < s.len(),
        0 <= j < s.len(),
        i != j,
    ensures
        s[i] != s[j],
{
}

} // verus!
