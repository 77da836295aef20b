//! Remapping: rebuild a tree with its spatial variables substituted.
//!
//! `remap_xyz` replaces X, Y and Z by arbitrary trees; `shift` and `scale`
//! are the usual affine special cases. The result is rebuilt through the
//! rewriting constructors, so it stays deduplicated and locally simplified.

use vstd::prelude::*;
use crate::node::{Node, NodeRef, BinOp, Error, nodes_wf, node_valid, extends, lemma_extends_trans};
use crate::arena::Arena;
use crate::builder::{
    spec_make_unary, spec_make_binary, lemma_make_unary_eval, lemma_make_binary_eval,
};
use crate::semantics::{SVal, seval, in_range, tdiv, lemma_seval_prefix};
use crate::shapes::{term_var, term_num, term_bin};

verus! {

/// The coordinates a shifted tree reads: each one moved back by the offset.
pub open spec fn shift_cx(cx: Seq<int>, dx: i64, dy: i64, dz: i64) -> Seq<int> {
    seq![cx[0] - dx, cx[1] - dy, cx[2] - dz]
}

/// The coordinates a scaled tree reads: each one divided by its factor,
/// truncated toward zero on the fixed-point grid.
pub open spec fn scale_cx(cx: Seq<int>, kx: i64, ky: i64, kz: i64) -> Seq<int> {
    seq![tdiv(cx[0], kx as int), tdiv(cx[1], ky as int), tdiv(cx[2], kz as int)]
}

/// The value a substituted variable takes, when its tree evaluates to one.
pub open spec fn sub_val(s: Seq<Node>, j: int, cx: Seq<int>) -> int {
    match seval(s, j, cx) {
        SVal::Num(v) => v,
        _ => 0,
    }
}

/// The context a remapped tree is evaluated under: the values of the three
/// substituted trees at the outer context.
pub open spec fn mapped_cx(s: Seq<Node>, xs: int, ys: int, zs: int, cx: Seq<int>) -> Seq<int> {
    seq![sub_val(s, xs, cx), sub_val(s, ys, cx), sub_val(s, zs, cx)]
}

/// All three substituted trees take values at the outer context.
pub open spec fn subs_defined(s: Seq<Node>, xs: int, ys: int, zs: int, cx: Seq<int>) -> bool {
    &&& seval(s, xs, cx) is Num
    &&& seval(s, ys, cx) is Num
    &&& seval(s, zs, cx) is Num
}

/// What remapping does to the store: leaves for X, Y and Z become the
/// substituted trees, every other node is rebuilt bottom-up.
pub open spec fn spec_remap(s: Seq<Node>, i: int, xs: int, ys: int, zs: int) -> (Seq<Node>, int)
    decreases i,
{
    if !(0 <= i < s.len()) {
        (s, i)
    } else {
        match s[i] {
            Node::Const { .. } => (s, i),
            Node::Var { index } => if index == 0 {
                (s, xs)
            } else if index == 1 {
                (s, ys)
            } else if index == 2 {
                (s, zs)
            } else {
                (s, i)
            },
            Node::Unary { op, child } => if (child as int) < i {
                let (s1, c1) = spec_remap(s, child as int, xs, ys, zs);
                spec_make_unary(s1, op, c1)
            } else {
                (s, i)
            },
            Node::Binary { op, lhs, rhs } => if (lhs as int) < i && (rhs as int) < i {
                let (s1, l1) = spec_remap(s, lhs as int, xs, ys, zs);
                let (s2, r1) = spec_remap(s1, rhs as int, xs, ys, zs);
                spec_make_binary(s2, op, l1, r1)
            } else {
                (s, i)
            },
        }
    }
}

impl Arena {
    fn remap_node(&mut self, i: usize, xs: NodeRef, ys: NodeRef, zs: NodeRef) -> (r: NodeRef)
        requires
            nodes_wf(old(self)@),
            (i as int) < old(self)@.len(),
            (xs.index as int) < old(self)@.len(),
            (ys.index as int) < old(self)@.len(),
            (zs.index as int) < old(self)@.len(),
        ensures
            nodes_wf(final(self)@),
            extends(final(self)@, old(self)@),
            (final(self)@, r.index as int) == spec_remap(
                old(self)@,
                i as int,
                xs.index as int,
                ys.index as int,
                zs.index as int,
            ),
            (r.index as int) < final(self)@.len(),
            forall|cx: Seq<int>|
                (subs_defined(old(self)@, xs.index as int, ys.index as int, zs.index as int, cx)
                    && seval(
                    old(self)@,
                    i as int,
                    mapped_cx(old(self)@, xs.index as int, ys.index as int, zs.index as int, cx),
                ) is Num) ==> #[trigger] seval(final(self)@, r.index as int, cx) == seval(
                    old(self)@,
                    i as int,
                    mapped_cx(old(self)@, xs.index as int, ys.index as int, zs.index as int, cx),
                ),
        decreases i,
    {
        let ghost s0 = self@;
        let ghost xi = xs.index as int;
        let ghost yi = ys.index as int;
        let ghost zi = zs.index as int;
        proof {
            assert(node_valid(s0[i as int], i as int));
        }
        let n = self.get_node(i);
        match n {
            Node::Const { .. } => NodeRef { index: i },
            Node::Var { index } => {
                if index == 0 {
                    xs
                } else if index == 1 {
                    ys
                } else if index == 2 {
                    zs
                } else {
                    NodeRef { index: i }
                }
            },
            Node::Unary { op, child } => {
                let c1 = self.remap_node(child, xs, ys, zs);
                let ghost s1 = self@;
                proof {
                    self.lemma_len_bounded();
                }
                let rf = self.make_unary(op, c1);
                proof {
                    lemma_extends_trans(s0, s1, self@);
                    assert forall|cx: Seq<int>|
                        (subs_defined(s0, xi, yi, zi, cx) && seval(
                            s0,
                            i as int,
                            mapped_cx(s0, xi, yi, zi, cx),
                        ) is Num) implies #[trigger] seval(self@, rf.index as int, cx) == seval(
                        s0,
                        i as int,
                        mapped_cx(s0, xi, yi, zi, cx),
                    ) by {
                        lemma_seval_prefix(s0, s1, child as int, mapped_cx(s0, xi, yi, zi, cx));
                        lemma_make_unary_eval(s1, op, c1.index as int, cx);
                    }
                }
                rf
            },
            Node::Binary { op, lhs, rhs } => {
                let l1 = self.remap_node(lhs, xs, ys, zs);
                let ghost s1 = self@;
                let r1 = self.remap_node(rhs, xs, ys, zs);
                let ghost s2 = self@;
                proof {
                    self.lemma_len_bounded();
                }
                let rf = self.make_binary(op, l1, r1);
                proof {
                    lemma_extends_trans(s0, s1, s2);
                    lemma_extends_trans(s0, s2, self@);
                    assert forall|cx: Seq<int>|
                        (subs_defined(s0, xi, yi, zi, cx) && seval(
                            s0,
                            i as int,
                            mapped_cx(s0, xi, yi, zi, cx),
                        ) is Num) implies #[trigger] seval(self@, rf.index as int, cx) == seval(
                        s0,
                        i as int,
                        mapped_cx(s0, xi, yi, zi, cx),
                    ) by {
                        let mc = mapped_cx(s0, xi, yi, zi, cx);
                        lemma_seval_prefix(s0, s1, xi, cx);
                        lemma_seval_prefix(s0, s1, yi, cx);
                        lemma_seval_prefix(s0, s1, zi, cx);
                        lemma_seval_prefix(s0, s1, rhs as int, mc);
                        assert(mapped_cx(s1, xi, yi, zi, cx) == mc);
                        lemma_seval_prefix(s1, s2, l1.index as int, cx);
                        lemma_make_binary_eval(s2, op, l1.index as int, r1.index as int, cx);
                    }
                }
                rf
            },
        }
    }

    /// Rebuild the tree rooted at `t` with X, Y and Z replaced by the trees
    /// `xs`, `ys` and `zs`. Wherever the three substitutes take values and
    /// the original tree takes a value at those coordinates, the remapped
    /// tree takes that same value.
    pub fn remap_xyz(&mut self, t: NodeRef, xs: NodeRef, ys: NodeRef, zs: NodeRef) -> (r: Result<
        NodeRef,
        Error,
    >)
        requires
            nodes_wf(old(self)@),
        ensures
            nodes_wf(final(self)@),
            extends(final(self)@, old(self)@),
            ((t.index as int) < old(self)@.len() && (xs.index as int) < old(self)@.len() && (
            ys.index as int) < old(self)@.len() && (zs.index as int) < old(self)@.len()) ==> (
                r matches Ok(u)
                && (final(self)@, u.index as int) == spec_remap(
                    old(self)@,
                    t.index as int,
                    xs.index as int,
                    ys.index as int,
                    zs.index as int,
                )
                && (u.index as int) < final(self)@.len()
                && forall|cx: Seq<int>|
                    (subs_defined(old(self)@, xs.index as int, ys.index as int, zs.index as int, cx)
                        && seval(
                        old(self)@,
                        t.index as int,
                        mapped_cx(
                            old(self)@,
                            xs.index as int,
                            ys.index as int,
                            zs.index as int,
                            cx,
                        ),
                    ) is Num) ==> #[trigger] seval(final(self)@, u.index as int, cx) == seval(
                        old(self)@,
                        t.index as int,
                        mapped_cx(
                            old(self)@,
                            xs.index as int,
                            ys.index as int,
                            zs.index as int,
                            cx,
                        ),
                    )),
            !((t.index as int) < old(self)@.len() && (xs.index as int) < old(self)@.len() && (
            ys.index as int) < old(self)@.len() && (zs.index as int) < old(self)@.len()) ==> (r
                == Err::<NodeRef, Error>(Error::ArenaMismatch) && final(self)@ == old(self)@),
    {
        if self.owns(t) && self.owns(xs) && self.owns(ys) && self.owns(zs) {
            Ok(self.remap_node(t.index, xs, ys, zs))
        } else {
            Err(Error::ArenaMismatch)
        }
    }

    /// Translate the tree rooted at `t` by the given offset: the shifted
    /// tree at a point takes the value of the original at the point moved
    /// back by the offset.
    pub fn shift(&mut self, t: NodeRef, dx: i64, dy: i64, dz: i64) -> (r: Result<NodeRef, Error>)
        requires
            nodes_wf(old(self)@),
        ensures
            nodes_wf(final(self)@),
            extends(final(self)@, old(self)@),
            (t.index as int) < old(self)@.len() ==> (r matches Ok(u) && (u.index as int) < final(self)@.len() && forall|cx: Seq<int>|
                (cx.len() >= 3 && in_range(cx[0] - dx) && in_range(cx[1] - dy) && in_range(
                    cx[2] - dz,
                ) && seval(old(self)@, t.index as int, shift_cx(cx, dx, dy, dz)) is Num)
                    ==> #[trigger] seval(final(self)@, u.index as int, cx) == seval(
                    old(self)@,
                    t.index as int,
                    shift_cx(cx, dx, dy, dz),
                )),
            (t.index as int) >= old(self)@.len() ==> (r == Err::<NodeRef, Error>(
                Error::ArenaMismatch,
            ) && final(self)@ == old(self)@),
    {
        if !self.owns(t) {
            return Err(Error::ArenaMismatch);
        }
        let ghost s0 = self@;
        let x = term_var(self, 0);
        let dxn = term_num(self, dx);
        let xs = term_bin(self, BinOp::Sub, x, dxn);
        let y = term_var(self, 1);
        let dyn2 = term_num(self, dy);
        let ys = term_bin(self, BinOp::Sub, y, dyn2);
        let z = term_var(self, 2);
        let dzn = term_num(self, dz);
        let zs = term_bin(self, BinOp::Sub, z, dzn);
        let ghost sb = self@;
        let rr = self.remap_xyz(t, xs, ys, zs);
        proof {
            lemma_extends_trans(s0, sb, self@);
            let u = rr->Ok_0;
            assert forall|cx: Seq<int>|
                (cx.len() >= 3 && in_range(cx[0] - dx) && in_range(cx[1] - dy) && in_range(
                    cx[2] - dz,
                ) && seval(s0, t.index as int, shift_cx(cx, dx, dy, dz)) is Num)
                    implies #[trigger] seval(self@, u.index as int, cx) == seval(
                s0,
                t.index as int,
                shift_cx(cx, dx, dy, dz),
            ) by {
                assert(seval(sb, xs.index as int, cx) == SVal::Num(cx[0] - dx));
                assert(seval(sb, ys.index as int, cx) == SVal::Num(cx[1] - dy));
                assert(seval(sb, zs.index as int, cx) == SVal::Num(cx[2] - dz));
                assert(mapped_cx(sb, xs.index as int, ys.index as int, zs.index as int, cx)
                    =~= shift_cx(cx, dx, dy, dz));
                lemma_seval_prefix(s0, sb, t.index as int, shift_cx(cx, dx, dy, dz));
            }
        }
        rr
    }

    /// Scale the tree rooted at `t` by the given nonzero factors: the
    /// scaled tree at a point takes the value of the original at the point
    /// with each coordinate divided by its factor, truncated toward zero.
    pub fn scale(&mut self, t: NodeRef, kx: i64, ky: i64, kz: i64) -> (r: Result<NodeRef, Error>)
        requires
            nodes_wf(old(self)@),
        ensures
            nodes_wf(final(self)@),
            extends(final(self)@, old(self)@),
            (t.index as int) < old(self)@.len() ==> (r matches Ok(u) && (u.index as int) < final(self)@.len() && forall|cx: Seq<int>|
                (cx.len() >= 3 && kx != 0 && ky != 0 && kz != 0 && in_range(
                    tdiv(cx[0], kx as int),
                ) && in_range(tdiv(cx[1], ky as int)) && in_range(tdiv(cx[2], kz as int)) && seval(
                    old(self)@,
                    t.index as int,
                    scale_cx(cx, kx, ky, kz),
                ) is Num) ==> #[trigger] seval(final(self)@, u.index as int, cx) == seval(
                    old(self)@,
                    t.index as int,
                    scale_cx(cx, kx, ky, kz),
                )),
            (t.index as int) >= old(self)@.len() ==> (r == Err::<NodeRef, Error>(
                Error::ArenaMismatch,
            ) && final(self)@ == old(self)@),
    {
        if !self.owns(t) {
            return Err(Error::ArenaMismatch);
        }
        let ghost s0 = self@;
        let x = term_var(self, 0);
        let kxn = term_num(self, kx);
        let xs = term_bin(self, BinOp::Div, x, kxn);
        let y = term_var(self, 1);
        let kyn = term_num(self, ky);
        let ys = term_bin(self, BinOp::Div, y, kyn);
        let z = term_var(self, 2);
        let kzn = term_num(self, kz);
        let zs = term_bin(self, BinOp::Div, z, kzn);
        let ghost sb = self@;
        let rr = self.remap_xyz(t, xs, ys, zs);
        proof {
            lemma_extends_trans(s0, sb, self@);
            let u = rr->Ok_0;
            assert forall|cx: Seq<int>|
                (cx.len() >= 3 && kx != 0 && ky != 0 && kz != 0 && in_range(
                    tdiv(cx[0], kx as int),
                ) && in_range(tdiv(cx[1], ky as int)) && in_range(tdiv(cx[2], kz as int)) && seval(
                    s0,
                    t.index as int,
                    scale_cx(cx, kx, ky, kz),
                ) is Num) implies #[trigger] seval(self@, u.index as int, cx) == seval(
                s0,
                t.index as int,
                scale_cx(cx, kx, ky, kz),
            ) by {
                assert(seval(sb, xs.index as int, cx) == SVal::Num(tdiv(cx[0], kx as int)));
                assert(seval(sb, ys.index as int, cx) == SVal::Num(tdiv(cx[1], ky as int)));
                assert(seval(sb, zs.index as int, cx) == SVal::Num(tdiv(cx[2], kz as int)));
                assert(mapped_cx(sb, xs.index as int, ys.index as int, zs.index as int, cx)
                    =~= scale_cx(cx, kx, ky, kz));
                lemma_seval_prefix(s0, sb, t.index as int, scale_cx(cx, kx, ky, kz));
            }
        }
        rr
    }
}

} // verus!
