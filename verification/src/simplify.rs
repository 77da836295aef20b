//! The optimizer: rewrite a tree into an equivalent smaller form.
//!
//! Simplification rebuilds a tree bottom-up through the builder's rewrites,
//! so constants fold, identities vanish, and the result is deduplicated. Its
//! image is exactly the trees in normal form, on which it is the identity;
//! running it twice therefore returns the very same handle.

use vstd::prelude::*;
use crate::node::{Node, NodeRef, UnOp, BinOp, Error, nodes_wf, node_valid, extends};
use crate::arena::{Arena, lemma_intern_props, lemma_find_interned};
use crate::builder::{
    spec_make_unary, spec_make_binary, fold_unary, fold_binary, unary_shortcut, binary_shortcut,
    is_const_of, lemma_make_unary_props, lemma_make_binary_props, lemma_make_unary_eval,
    lemma_make_binary_eval,
};
use crate::semantics::{SVal, seval, lemma_seval_prefix};

verus! {

/// No builder rewrite applies to a unary node over this operand.
pub open spec fn no_unary_rule(op: UnOp, c: Node) -> bool {
    &&& fold_unary(op, c) is None
    &&& unary_shortcut(op, c, 0) is None
}

/// No builder rewrite applies to a binary node over these operands.
pub open spec fn no_binary_rule(op: BinOp, a: Node, b: Node, ai: int, bi: int) -> bool {
    &&& fold_binary(op, a, b) is None
    &&& !(op == BinOp::Mul && (is_const_of(a, 0) || is_const_of(b, 0)))
    &&& binary_shortcut(op, a, b, ai, bi) is None
}

/// A tree in normal form: every subexpression was built by the rewriting
/// constructors and no rewrite applies anywhere in it.
pub open spec fn is_normal(s: Seq<Node>, i: int) -> bool
    decreases i,
{
    &&& 0 <= i < s.len()
    &&& match s[i] {
        Node::Const { .. } => true,
        Node::Var { .. } => true,
        Node::Unary { op, child } => (child as int) < i && is_normal(s, child as int)
            && no_unary_rule(op, s[child as int]),
        Node::Binary { op, lhs, rhs } => (lhs as int) < i && (rhs as int) < i && is_normal(
            s,
            lhs as int,
        ) && is_normal(s, rhs as int) && no_binary_rule(
            op,
            s[lhs as int],
            s[rhs as int],
            lhs as int,
            rhs as int,
        ),
    }
}

/// What simplification does to the store: rebuild each node bottom-up
/// through the rewriting constructors.
pub open spec fn spec_simp(s: Seq<Node>, i: int) -> (Seq<Node>, int)
    decreases i,
{
    if !(0 <= i < s.len()) {
        (s, i)
    } else {
        match s[i] {
            Node::Const { .. } => (s, i),
            Node::Var { .. } => (s, i),
            Node::Unary { op, child } => if (child as int) < i {
                let (s1, c1) = spec_simp(s, child as int);
                spec_make_unary(s1, op, c1)
            } else {
                (s, i)
            },
            Node::Binary { op, lhs, rhs } => if (lhs as int) < i && (rhs as int) < i {
                let (s1, l1) = spec_simp(s, lhs as int);
                let (s2, r1) = spec_simp(s1, rhs as int);
                spec_make_binary(s2, op, l1, r1)
            } else {
                (s, i)
            },
        }
    }
}

/// Normality only looks below a node, so appended nodes never disturb it.
pub proof fn lemma_normal_extends(s1: Seq<Node>, s2: Seq<Node>, i: int)
    requires
        extends(s2, s1),
        is_normal(s1, i),
        i < s1.len(),
    ensures
        is_normal(s2, i),
    decreases i,
{
    assert(s2[i] == s1[i]);
    match s1[i] {
        Node::Unary { op, child } => {
            lemma_normal_extends(s1, s2, child as int);
            assert(s2[child as int] == s1[child as int]);
        },
        Node::Binary { op, lhs, rhs } => {
            lemma_normal_extends(s1, s2, lhs as int);
            lemma_normal_extends(s1, s2, rhs as int);
            assert(s2[lhs as int] == s1[lhs as int]);
            assert(s2[rhs as int] == s1[rhs as int]);
        },
        _ => {},
    }
}

/// The rewriting unary constructor yields a tree in normal form whenever its
/// operand is in normal form.
pub proof fn lemma_make_unary_normal(s: Seq<Node>, op: UnOp, c: int)
    requires
        nodes_wf(s),
        0 <= c < s.len(),
        s.len() <= usize::MAX,
        is_normal(s, c),
    ensures
        ({
            let (s2, r) = spec_make_unary(s, op, c);
            is_normal(s2, r)
        }),
{
    lemma_make_unary_props(s, op, c);
    let (s2, r) = spec_make_unary(s, op, c);
    match fold_unary(op, s[c]) {
        Some(v) => {
            lemma_intern_props(s, Node::Const { value: v });
            assert(s2[r] == (Node::Const { value: v }));
        },
        None => {
            match unary_shortcut(op, s[c], c) {
                Some(t) => {
                    assert(is_normal(s, t));
                },
                None => {
                    lemma_intern_props(s, Node::Unary { op: op, child: c as usize });
                    assert(s2[r] == (Node::Unary { op: op, child: c as usize }));
                    assert(node_valid(s2[r], r));
                    lemma_normal_extends(s, s2, c);
                    assert(s2[c] == s[c]);
                    assert(no_unary_rule(op, s2[c]));
                },
            }
        },
    }
}

/// The rewriting binary constructor yields a tree in normal form whenever
/// both operands are in normal form.
pub proof fn lemma_make_binary_normal(s: Seq<Node>, op: BinOp, a: int, b: int)
    requires
        nodes_wf(s),
        0 <= a < s.len(),
        0 <= b < s.len(),
        s.len() <= usize::MAX,
        is_normal(s, a),
        is_normal(s, b),
    ensures
        ({
            let (s2, r) = spec_make_binary(s, op, a, b);
            is_normal(s2, r)
        }),
{
    lemma_make_binary_props(s, op, a, b);
    let (s2, r) = spec_make_binary(s, op, a, b);
    match fold_binary(op, s[a], s[b]) {
        Some(v) => {
            lemma_intern_props(s, Node::Const { value: v });
            assert(s2[r] == (Node::Const { value: v }));
        },
        None => {
            if op == BinOp::Mul && (is_const_of(s[a], 0) || is_const_of(s[b], 0)) {
                lemma_intern_props(s, Node::Const { value: 0 });
                assert(s2[r] == (Node::Const { value: 0 }));
            } else {
                match binary_shortcut(op, s[a], s[b], a, b) {
                    Some(t) => {
                        assert(is_normal(s, t));
                    },
                    None => {
                        lemma_intern_props(
                            s,
                            Node::Binary { op: op, lhs: a as usize, rhs: b as usize },
                        );
                        assert(s2[r] == (Node::Binary { op: op, lhs: a as usize, rhs: b as usize }));
                        assert(node_valid(s2[r], r));
                        lemma_normal_extends(s, s2, a);
                        lemma_normal_extends(s, s2, b);
                        assert(s2[a] == s[a] && s2[b] == s[b]);
                        assert(no_binary_rule(op, s2[a], s2[b], a, b));
                    },
                }
            }
        },
    }
}

/// Simplification is idempotent: on a tree already in normal form it is the
/// identity, returning the same handle and leaving the store unchanged; and
/// `simplify` only produces trees in normal form.
pub proof fn lemma_simp_normal_identity(s: Seq<Node>, i: int)
    requires
        nodes_wf(s),
        s.len() <= usize::MAX,
        is_normal(s, i),
    ensures
        spec_simp(s, i) == (s, i),
    decreases i,
{
    match s[i] {
        Node::Const { .. } => {},
        Node::Var { .. } => {},
        Node::Unary { op, child } => {
            lemma_simp_normal_identity(s, child as int);
            assert(unary_shortcut(op, s[child as int], child as int) is None);
            lemma_find_interned(s, s[i], i);
            assert(spec_make_unary(s, op, child as int) == (s, i));
        },
        Node::Binary { op, lhs, rhs } => {
            lemma_simp_normal_identity(s, lhs as int);
            lemma_simp_normal_identity(s, rhs as int);
            lemma_find_interned(s, s[i], i);
            assert(spec_make_binary(s, op, lhs as int, rhs as int) == (s, i));
        },
    }
}

impl Arena {
    fn simp_node(&mut self, i: usize) -> (r: NodeRef)
        requires
            nodes_wf(old(self)@),
            (i as int) < old(self)@.len(),
        ensures
            nodes_wf(final(self)@),
            extends(final(self)@, old(self)@),
            (final(self)@, r.index as int) == spec_simp(old(self)@, i as int),
            (r.index as int) < final(self)@.len(),
            is_normal(final(self)@, r.index as int),
            forall|cx: Seq<int>|
                seval(old(self)@, i as int, cx) is Num ==> #[trigger] seval(
                    final(self)@,
                    r.index as int,
                    cx,
                ) == seval(old(self)@, i as int, cx),
        decreases i,
    {
        let ghost s0 = self@;
        proof {
            assert(node_valid(s0[i as int], i as int));
        }
        let n = self.get_node(i);
        match n {
            Node::Const { .. } => NodeRef { index: i },
            Node::Var { .. } => NodeRef { index: i },
            Node::Unary { op, child } => {
                let c1 = self.simp_node(child);
                let ghost s1 = self@;
                proof {
                    self.lemma_len_bounded();
                    lemma_make_unary_normal(s1, op, c1.index as int);
                }
                let rf = self.make_unary(op, c1);
                proof {
                    crate::node::lemma_extends_trans(s0, s1, self@);
                    assert forall|cx: Seq<int>|
                        seval(s0, i as int, cx) is Num implies #[trigger] seval(
                        self@,
                        rf.index as int,
                        cx,
                    ) == seval(s0, i as int, cx) by {
                        lemma_seval_prefix(s0, s1, child as int, cx);
                        lemma_make_unary_eval(s1, op, c1.index as int, cx);
                    }
                }
                rf
            },
            Node::Binary { op, lhs, rhs } => {
                let l1 = self.simp_node(lhs);
                let ghost s1 = self@;
                let r1 = self.simp_node(rhs);
                let ghost s2 = self@;
                proof {
                    self.lemma_len_bounded();
                    lemma_normal_extends(s1, s2, l1.index as int);
                    lemma_make_binary_normal(s2, op, l1.index as int, r1.index as int);
                }
                let rf = self.make_binary(op, l1, r1);
                proof {
                    crate::node::lemma_extends_trans(s0, s1, s2);
                    crate::node::lemma_extends_trans(s0, s2, self@);
                    assert forall|cx: Seq<int>|
                        seval(s0, i as int, cx) is Num implies #[trigger] seval(
                        self@,
                        rf.index as int,
                        cx,
                    ) == seval(s0, i as int, cx) by {
                        lemma_seval_prefix(s0, s1, rhs as int, cx);
                        lemma_seval_prefix(s1, s2, l1.index as int, cx);
                        lemma_make_binary_eval(s2, op, l1.index as int, r1.index as int, cx);
                    }
                }
                rf
            },
        }
    }

    /// Rewrite the tree rooted at `t` into an equivalent smaller form.
    ///
    /// The contract carries the two optimizer laws. Equivalence: at every
    /// context where the original tree evaluates to a value, the simplified
    /// tree evaluates to the same value (behaviour may only change at points
    /// already outside the domain). Idempotence: the result is in normal
    /// form and simplifying it again returns the very same handle with the
    /// store unchanged.
    pub fn simplify(&mut self, t: NodeRef) -> (r: Result<NodeRef, Error>)
        requires
            nodes_wf(old(self)@),
        ensures
            nodes_wf(final(self)@),
            extends(final(self)@, old(self)@),
            (t.index as int) < old(self)@.len() ==> (r matches Ok(u)
                && (final(self)@, u.index as int) == spec_simp(old(self)@, t.index as int)
                && (u.index as int) < final(self)@.len()
                && is_normal(final(self)@, u.index as int)
                && spec_simp(final(self)@, u.index as int) == (final(self)@, u.index as int)
                && forall|cx: Seq<int>|
                    seval(old(self)@, t.index as int, cx) is Num ==> #[trigger] seval(
                        final(self)@,
                        u.index as int,
                        cx,
                    ) == seval(old(self)@, t.index as int, cx)),
            (t.index as int) >= old(self)@.len() ==> (r == Err::<NodeRef, Error>(
                Error::ArenaMismatch,
            ) && final(self)@ == old(self)@),
    {
        if !self.owns(t) {
            return Err(Error::ArenaMismatch);
        }
        let u = self.simp_node(t.index);
        proof {
            self.lemma_len_bounded();
            lemma_simp_normal_identity(self@, u.index as int);
        }
        Ok(u)
    }
}

} // verus!
