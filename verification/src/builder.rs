//! The builder: combinators that compose trees from pooled leaves.
//!
//! Every combinator validates its operand handles eagerly, applies the cheap
//! local rewrites (constant folding, identity and absorbing elements,
//! idempotent min/max on one shared operand), and delegates to the arena's
//! interning, so structurally identical expressions share one node.

use vstd::prelude::*;
use crate::node::{Node, NodeRef, UnOp, BinOp, Error, node_valid, nodes_wf, extends};
use crate::arena::{Arena, spec_intern, lemma_intern_props, lemma_intern_shares};
use crate::semantics::{
    SVal, un_num, bin_num, un_sval, bin_sval, seval, apply_un, apply_bin, lemma_seval_prefix,
    lemma_tdiv_by_one,
};

verus! {

/// The constant a fully constant unary node folds to, if the operation
/// succeeds on it.
pub open spec fn fold_unary(op: UnOp, c: Node) -> Option<i64> {
    match c {
        Node::Const { value } => match un_num(op, value as int) {
            SVal::Num(v) => Some(v as i64),
            _ => None,
        },
        _ => None,
    }
}

/// A unary rewrite that reuses an existing node: double negation drops both
/// signs, a nested absolute value collapses to the inner one.
pub open spec fn unary_shortcut(op: UnOp, c: Node, ci: int) -> Option<int> {
    match c {
        Node::Unary { op: cop, child: g } => if op == UnOp::Neg && cop == UnOp::Neg {
            Some(g as int)
        } else if op == UnOp::Abs && cop == UnOp::Abs {
            Some(ci)
        } else {
            None
        },
        _ => None,
    }
}

/// What building a unary node does to the store.
pub open spec fn spec_make_unary(s: Seq<Node>, op: UnOp, c: int) -> (Seq<Node>, int) {
    match fold_unary(op, s[c]) {
        Some(v) => spec_intern(s, Node::Const { value: v }),
        None => match unary_shortcut(op, s[c], c) {
            Some(t) => (s, t),
            None => spec_intern(s, Node::Unary { op: op, child: c as usize }),
        },
    }
}

pub open spec fn is_const_of(n: Node, k: int) -> bool {
    n matches Node::Const { value } && value as int == k
}

/// The constant a fully constant binary node folds to, if the operation
/// succeeds on it.
pub open spec fn fold_binary(op: BinOp, a: Node, b: Node) -> Option<i64> {
    match a {
        Node::Const { value: x } => match b {
            Node::Const { value: y } => match bin_num(op, x as int, y as int) {
                SVal::Num(v) => Some(v as i64),
                _ => None,
            },
            _ => None,
        },
        _ => None,
    }
}

/// A binary rewrite that reuses an existing operand node: additive and
/// multiplicative identities, subtraction or division by the neutral
/// element, and min/max over one shared operand.
pub open spec fn binary_shortcut(op: BinOp, a: Node, b: Node, ai: int, bi: int) -> Option<int> {
    match op {
        BinOp::Add => if is_const_of(b, 0) {
            Some(ai)
        } else if is_const_of(a, 0) {
            Some(bi)
        } else {
            None
        },
        BinOp::Sub => if is_const_of(b, 0) {
            Some(ai)
        } else {
            None
        },
        BinOp::Mul => if is_const_of(b, 1) {
            Some(ai)
        } else if is_const_of(a, 1) {
            Some(bi)
        } else {
            None
        },
        BinOp::Div => if is_const_of(b, 1) {
            Some(ai)
        } else {
            None
        },
        BinOp::Min => if ai == bi {
            Some(ai)
        } else {
            None
        },
        BinOp::Max => if ai == bi {
            Some(ai)
        } else {
            None
        },
    }
}

/// What building a binary node does to the store. Multiplication by a
/// constant zero collapses to zero; this may discard a failing operand,
/// which only changes behaviour at points already outside the domain.
pub open spec fn spec_make_binary(s: Seq<Node>, op: BinOp, a: int, b: int) -> (Seq<Node>, int) {
    match fold_binary(op, s[a], s[b]) {
        Some(v) => spec_intern(s, Node::Const { value: v }),
        None => if op == BinOp::Mul && (is_const_of(s[a], 0) || is_const_of(s[b], 0)) {
            spec_intern(s, Node::Const { value: 0 })
        } else {
            match binary_shortcut(op, s[a], s[b], a, b) {
                Some(t) => (s, t),
                None => spec_intern(s, Node::Binary { op: op, lhs: a as usize, rhs: b as usize }),
            }
        },
    }
}

pub proof fn lemma_make_unary_props(s: Seq<Node>, op: UnOp, c: int)
    requires
        nodes_wf(s),
        0 <= c < s.len(),
        s.len() <= usize::MAX,
    ensures
        ({
            let (s2, r) = spec_make_unary(s, op, c);
            &&& nodes_wf(s2)
            &&& extends(s2, s)
            &&& 0 <= r < s2.len()
        }),
{
    assert(node_valid(s[c], c));
    match fold_unary(op, s[c]) {
        Some(v) => {
            lemma_intern_props(s, Node::Const { value: v });
        },
        None => {
            match unary_shortcut(op, s[c], c) {
                Some(t) => {},
                None => {
                    lemma_intern_props(s, Node::Unary { op: op, child: c as usize });
                },
            }
        },
    }
}

pub proof fn lemma_make_binary_props(s: Seq<Node>, op: BinOp, a: int, b: int)
    requires
        nodes_wf(s),
        0 <= a < s.len(),
        0 <= b < s.len(),
        s.len() <= usize::MAX,
    ensures
        ({
            let (s2, r) = spec_make_binary(s, op, a, b);
            &&& nodes_wf(s2)
            &&& extends(s2, s)
            &&& 0 <= r < s2.len()
        }),
{
    match fold_binary(op, s[a], s[b]) {
        Some(v) => {
            lemma_intern_props(s, Node::Const { value: v });
        },
        None => {
            if op == BinOp::Mul && (is_const_of(s[a], 0) || is_const_of(s[b], 0)) {
                lemma_intern_props(s, Node::Const { value: 0 });
            } else {
                match binary_shortcut(op, s[a], s[b], a, b) {
                    Some(t) => {},
                    None => {
                        lemma_intern_props(
                            s,
                            Node::Binary { op: op, lhs: a as usize, rhs: b as usize },
                        );
                    },
                }
            }
        },
    }
}

/// Sharing: building the same unary expression again returns the same handle
/// and leaves the store unchanged.
pub proof fn lemma_make_unary_shares(s: Seq<Node>, op: UnOp, c: int)
    requires
        nodes_wf(s),
        0 <= c < s.len(),
        s.len() <= usize::MAX,
    ensures
        ({
            let (s2, r) = spec_make_unary(s, op, c);
            spec_make_unary(s2, op, c) == (s2, r)
        }),
{
    lemma_make_unary_props(s, op, c);
    let (s2, r) = spec_make_unary(s, op, c);
    assert(s2[c] == s[c]);
    match fold_unary(op, s[c]) {
        Some(v) => {
            lemma_intern_shares(s, Node::Const { value: v });
        },
        None => {
            match unary_shortcut(op, s[c], c) {
                Some(t) => {},
                None => {
                    lemma_intern_shares(s, Node::Unary { op: op, child: c as usize });
                },
            }
        },
    }
}

/// Sharing: building the same binary expression again returns the same
/// handle and leaves the store unchanged. Together with `lemma_distinct_refs`
/// this makes handle equality a structural equality test.
pub proof fn lemma_make_binary_shares(s: Seq<Node>, op: BinOp, a: int, b: int)
    requires
        nodes_wf(s),
        0 <= a < s.len(),
        0 <= b < s.len(),
        s.len() <= usize::MAX,
    ensures
        ({
            let (s2, r) = spec_make_binary(s, op, a, b);
            spec_make_binary(s2, op, a, b) == (s2, r)
        }),
{
    lemma_make_binary_props(s, op, a, b);
    let (s2, r) = spec_make_binary(s, op, a, b);
    assert(s2[a] == s[a]);
    assert(s2[b] == s[b]);
    match fold_binary(op, s[a], s[b]) {
        Some(v) => {
            lemma_intern_shares(s, Node::Const { value: v });
        },
        None => {
            if op == BinOp::Mul && (is_const_of(s[a], 0) || is_const_of(s[b], 0)) {
                lemma_intern_shares(s, Node::Const { value: 0 });
            } else {
                match binary_shortcut(op, s[a], s[b], a, b) {
                    Some(t) => {},
                    None => {
                        lemma_intern_shares(
                            s,
                            Node::Binary { op: op, lhs: a as usize, rhs: b as usize },
                        );
                    },
                }
            }
        },
    }
}

/// Wherever the unrewritten operation yields a value, the node the builder
/// hands back evaluates to that same value.
pub proof fn lemma_make_unary_eval(s: Seq<Node>, op: UnOp, c: int, cx: Seq<int>)
    requires
        nodes_wf(s),
        0 <= c < s.len(),
        s.len() <= usize::MAX,
    ensures
        ({
            let (s2, r) = spec_make_unary(s, op, c);
            un_sval(op, seval(s, c, cx)) matches SVal::Num(v) ==> seval(s2, r, cx)
                == SVal::Num(v)
        }),
{
    lemma_make_unary_props(s, op, c);
    assert(node_valid(s[c], c));
    let (s2, r) = spec_make_unary(s, op, c);
    match fold_unary(op, s[c]) {
        Some(v) => {
            lemma_intern_props(s, Node::Const { value: v });
        },
        None => {
            match unary_shortcut(op, s[c], c) {
                Some(t) => {},
                None => {
                    lemma_intern_props(s, Node::Unary { op: op, child: c as usize });
                    if 0 <= c < s.len() {
                        lemma_seval_prefix(s, s2, c, cx);
                    }
                    assert(s2[r] == (Node::Unary { op: op, child: c as usize }));
                    assert(node_valid(s2[r], r));
                },
            }
        },
    }
}

/// Wherever the unrewritten operation yields a value, the node the builder
/// hands back evaluates to that same value.
pub proof fn lemma_make_binary_eval(s: Seq<Node>, op: BinOp, a: int, b: int, cx: Seq<int>)
    requires
        nodes_wf(s),
        0 <= a < s.len(),
        0 <= b < s.len(),
        s.len() <= usize::MAX,
    ensures
        ({
            let (s2, r) = spec_make_binary(s, op, a, b);
            bin_sval(op, seval(s, a, cx), seval(s, b, cx)) matches SVal::Num(v) ==> seval(
                s2,
                r,
                cx,
            ) == SVal::Num(v)
        }),
{
    lemma_make_binary_props(s, op, a, b);
    let (s2, r) = spec_make_binary(s, op, a, b);
    let ea = seval(s, a, cx);
    let eb = seval(s, b, cx);
    match bin_sval(op, ea, eb) {
        SVal::Num(v) => {
            match fold_binary(op, s[a], s[b]) {
                Some(f) => {
                    lemma_intern_props(s, Node::Const { value: f });
                    assert(ea matches SVal::Num(x) && eb matches SVal::Num(y)
                        && bin_num(op, x, y) == SVal::Num(v));
                    assert(f as int == v);
                    assert(seval(s2, r, cx) == SVal::Num(v));
                },
                None => {
                    if op == BinOp::Mul && (is_const_of(s[a], 0) || is_const_of(s[b], 0)) {
                        lemma_intern_props(s, Node::Const { value: 0 });
                        if is_const_of(s[a], 0) {
                            assert(ea == SVal::Num(0));
                        } else {
                            assert(eb == SVal::Num(0));
                        }
                        match ea {
                            SVal::Num(x) => {
                                vstd::arithmetic::mul::lemma_mul_basics(x);
                            },
                            _ => {},
                        }
                        match eb {
                            SVal::Num(y) => {
                                vstd::arithmetic::mul::lemma_mul_basics(y);
                            },
                            _ => {},
                        }
                        assert(v == 0);
                        assert(seval(s2, r, cx) == SVal::Num(0));
                    } else {
                        match binary_shortcut(op, s[a], s[b], a, b) {
                            Some(t) => {
                                match op {
                                    BinOp::Add => {
                                        if is_const_of(s[b], 0) {
                                            assert(eb == SVal::Num(0));
                                            assert(t == a);
                                        } else {
                                            assert(ea == SVal::Num(0));
                                            assert(t == b);
                                        }
                                    },
                                    BinOp::Sub => {
                                        assert(eb == SVal::Num(0));
                                        assert(t == a);
                                    },
                                    BinOp::Mul => {
                                        match ea {
                                            SVal::Num(x) => {
                                                vstd::arithmetic::mul::lemma_mul_basics(x);
                                            },
                                            _ => {},
                                        }
                                        match eb {
                                            SVal::Num(y) => {
                                                vstd::arithmetic::mul::lemma_mul_basics(y);
                                            },
                                            _ => {},
                                        }
                                        if is_const_of(s[b], 1) {
                                            assert(eb == SVal::Num(1));
                                            assert(t == a);
                                        } else {
                                            assert(ea == SVal::Num(1));
                                            assert(t == b);
                                        }
                                    },
                                    BinOp::Div => {
                                        assert(eb == SVal::Num(1));
                                        match ea {
                                            SVal::Num(w) => {
                                                lemma_tdiv_by_one(w);
                                            },
                                            _ => {},
                                        }
                                    },
                                    BinOp::Min => {
                                        assert(a == b && t == a);
                                    },
                                    BinOp::Max => {
                                        assert(a == b && t == a);
                                    },
                                }
                                assert(seval(s2, r, cx) == SVal::Num(v));
                            },
                            None => {
                                lemma_intern_props(
                                    s,
                                    Node::Binary { op: op, lhs: a as usize, rhs: b as usize },
                                );
                                lemma_seval_prefix(s, s2, a, cx);
                                lemma_seval_prefix(s, s2, b, cx);
                                assert(s2[r] == (Node::Binary {
                                    op: op,
                                    lhs: a as usize,
                                    rhs: b as usize,
                                }));
                                assert(node_valid(s2[r], r));
                                assert(seval(s2, r, cx) == bin_sval(
                                    op,
                                    seval(s2, a, cx),
                                    seval(s2, b, cx),
                                ));
                                assert(seval(s2, r, cx) == SVal::Num(v));
                            },
                        }
                    }
                },
            }
        },
        _ => {},
    }
}

/// Exactly when a node equals the given constant.
fn node_is_const(n: Node, k: i64) -> (r: bool)
    ensures
        r == is_const_of(n, k as int),
{
    match n {
        Node::Const { value } => value == k,
        _ => false,
    }
}

impl Arena {
    pub(crate) fn make_unary(&mut self, op: UnOp, c: NodeRef) -> (r: NodeRef)
        requires
            nodes_wf(old(self)@),
            (c.index as int) < old(self)@.len(),
        ensures
            nodes_wf(final(self)@),
            extends(final(self)@, old(self)@),
            (final(self)@, r.index as int) == spec_make_unary(old(self)@, op, c.index as int),
            (r.index as int) < final(self)@.len(),
    {
        proof {
            self.lemma_len_bounded();
            lemma_make_unary_props(self@, op, c.index as int);
            assert(node_valid(self@[c.index as int], c.index as int));
        }
        let cn = self.get_node(c.index);
        match cn {
            Node::Const { value } => match apply_un(op, value) {
                Ok(v) => self.intern_node(Node::Const { value: v }),
                Err(_) => self.intern_node(Node::Unary { op: op, child: c.index }),
            },
            Node::Unary { op: cop, child: g } => {
                if op == UnOp::Neg && cop == UnOp::Neg {
                    NodeRef { index: g }
                } else if op == UnOp::Abs && cop == UnOp::Abs {
                    c
                } else {
                    self.intern_node(Node::Unary { op: op, child: c.index })
                }
            },
            _ => self.intern_node(Node::Unary { op: op, child: c.index }),
        }
    }

    pub(crate) fn make_binary(&mut self, op: BinOp, a: NodeRef, b: NodeRef) -> (r: NodeRef)
        requires
            nodes_wf(old(self)@),
            (a.index as int) < old(self)@.len(),
            (b.index as int) < old(self)@.len(),
        ensures
            nodes_wf(final(self)@),
            extends(final(self)@, old(self)@),
            (final(self)@, r.index as int) == spec_make_binary(
                old(self)@,
                op,
                a.index as int,
                b.index as int,
            ),
            (r.index as int) < final(self)@.len(),
    {
        proof {
            self.lemma_len_bounded();
            lemma_make_binary_props(self@, op, a.index as int, b.index as int);
        }
        let an = self.get_node(a.index);
        let bn = self.get_node(b.index);
        match an {
            Node::Const { value: x } => match bn {
                Node::Const { value: y } => match apply_bin(op, x, y) {
                    Ok(v) => {
                        return self.intern_node(Node::Const { value: v });
                    },
                    Err(_) => {},
                },
                _ => {},
            },
            _ => {},
        }
        if op == BinOp::Mul && (node_is_const(an, 0) || node_is_const(bn, 0)) {
            return self.intern_node(Node::Const { value: 0 });
        }
        match op {
            BinOp::Add => {
                if node_is_const(bn, 0) {
                    return a;
                }
                if node_is_const(an, 0) {
                    return b;
                }
            },
            BinOp::Sub => {
                if node_is_const(bn, 0) {
                    return a;
                }
            },
            BinOp::Mul => {
                if node_is_const(bn, 1) {
                    return a;
                }
                if node_is_const(an, 1) {
                    return b;
                }
            },
            BinOp::Div => {
                if node_is_const(bn, 1) {
                    return a;
                }
            },
            BinOp::Min => {
                if a.index == b.index {
                    return a;
                }
            },
            BinOp::Max => {
                if a.index == b.index {
                    return a;
                }
            },
        }
        self.intern_node(Node::Binary { op: op, lhs: a.index, rhs: b.index })
    }

    /// A pooled constant leaf. Every representable fixed-point value is a
    /// valid constant.
    pub fn constant(&mut self, value: i64) -> (r: NodeRef)
        requires
            nodes_wf(old(self)@),
        ensures
            nodes_wf(final(self)@),
            extends(final(self)@, old(self)@),
            (final(self)@, r.index as int) == spec_intern(old(self)@, (Node::Const { value })),
            (r.index as int) < final(self)@.len(),
            final(self)@[r.index as int] == (Node::Const { value }),
    {
        self.intern_node(Node::Const { value })
    }

    /// A pooled free-variable leaf; variable `k` is bound by slot `k` of an
    /// evaluation context.
    pub fn var(&mut self, index: usize) -> (r: NodeRef)
        requires
            nodes_wf(old(self)@),
        ensures
            nodes_wf(final(self)@),
            extends(final(self)@, old(self)@),
            (final(self)@, r.index as int) == spec_intern(old(self)@, (Node::Var { index })),
            (r.index as int) < final(self)@.len(),
            final(self)@[r.index as int] == (Node::Var { index }),
    {
        self.intern_node(Node::Var { index })
    }

    /// The spatial X coordinate, bound by context slot 0.
    pub fn var_x(&mut self) -> (r: NodeRef)
        requires
            nodes_wf(old(self)@),
        ensures
            nodes_wf(final(self)@),
            extends(final(self)@, old(self)@),
            (final(self)@, r.index as int) == spec_intern(old(self)@, (Node::Var { index: 0 })),
            (r.index as int) < final(self)@.len(),
            final(self)@[r.index as int] == (Node::Var { index: 0 }),
    {
        self.var(0)
    }

    /// The spatial Y coordinate, bound by context slot 1.
    pub fn var_y(&mut self) -> (r: NodeRef)
        requires
            nodes_wf(old(self)@),
        ensures
            nodes_wf(final(self)@),
            extends(final(self)@, old(self)@),
            (final(self)@, r.index as int) == spec_intern(old(self)@, (Node::Var { index: 1 })),
            (r.index as int) < final(self)@.len(),
            final(self)@[r.index as int] == (Node::Var { index: 1 }),
    {
        self.var(1)
    }

    /// The spatial Z coordinate, bound by context slot 2.
    pub fn var_z(&mut self) -> (r: NodeRef)
        requires
            nodes_wf(old(self)@),
        ensures
            nodes_wf(final(self)@),
            extends(final(self)@, old(self)@),
            (final(self)@, r.index as int) == spec_intern(old(self)@, (Node::Var { index: 2 })),
            (r.index as int) < final(self)@.len(),
            final(self)@[r.index as int] == (Node::Var { index: 2 }),
    {
        self.var(2)
    }

    /// Compose two trees under a binary operation; both operands must belong
    /// to this arena, a foreign handle fails the call eagerly.
    pub fn binary(&mut self, op: BinOp, a: NodeRef, b: NodeRef) -> (r: Result<NodeRef, Error>)
        requires
            nodes_wf(old(self)@),
        ensures
            nodes_wf(final(self)@),
            extends(final(self)@, old(self)@),
            ((a.index as int) < old(self)@.len() && (b.index as int) < old(self)@.len()) ==> (
                r matches Ok(t)
                && (final(self)@, t.index as int)
                    == spec_make_binary(old(self)@, op, a.index as int, b.index as int)
                && (t.index as int) < final(self)@.len()),
            !((a.index as int) < old(self)@.len() && (b.index as int) < old(self)@.len()) ==> (
                r == Err::<NodeRef, Error>(Error::ArenaMismatch) && final(self)@ == old(self)@),
    {
        if self.owns(a) && self.owns(b) {
            Ok(self.make_binary(op, a, b))
        } else {
            Err(Error::ArenaMismatch)
        }
    }

    /// Compose a tree under a unary operation; the operand must belong to
    /// this arena, a foreign handle fails the call eagerly.
    pub fn unary(&mut self, op: UnOp, c: NodeRef) -> (r: Result<NodeRef, Error>)
        requires
            nodes_wf(old(self)@),
        ensures
            nodes_wf(final(self)@),
            extends(final(self)@, old(self)@),
            ((c.index as int) < old(self)@.len()) ==> (r matches Ok(t)
                && (final(self)@, t.index as int)
                    == spec_make_unary(old(self)@, op, c.index as int)
                && (t.index as int) < final(self)@.len()),
            !((c.index as int) < old(self)@.len()) ==> (r
                == Err::<NodeRef, Error>(Error::ArenaMismatch) && final(self)@ == old(self)@),
    {
        if self.owns(c) {
            Ok(self.make_unary(op, c))
        } else {
            Err(Error::ArenaMismatch)
        }
    }
}

} // verus!
