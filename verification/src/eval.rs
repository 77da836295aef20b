//! Scalar point evaluation: one exact value per tree and context.
//!
//! The walk is DAG-aware: values are memoized per node within one call, so a
//! subexpression shared through many paths is computed once.

use vstd::prelude::*;
use crate::node::{Node, NodeRef, Error, nodes_wf, node_valid};
use crate::arena::Arena;
use crate::semantics::{
    SVal, seval, ints_of, in_range, scalar_result, apply_un, apply_bin, lemma_seval_in_range,
};

verus! {

/// Every cached entry agrees with the mathematical evaluation.
pub open spec fn memo_ok(s: Seq<Node>, cx: Seq<int>, memo: Seq<Option<i64>>) -> bool {
    &&& memo.len() == s.len()
    &&& forall|j: int| 0 <= j < memo.len() ==> ((#[trigger] memo[j]) matches Some(v)
        ==> seval(s, j, cx) == SVal::Num(v as int))
}

impl Arena {
    fn eval_node(&self, i: usize, cx: &Vec<i64>, memo: &mut Vec<Option<i64>>) -> (r: Result<
        i64,
        Error,
    >)
        requires
            nodes_wf(self@),
            (i as int) < self@.len(),
            memo_ok(self@, ints_of(cx@), old(memo)@),
        ensures
            memo_ok(self@, ints_of(cx@), final(memo)@),
            r == scalar_result(seval(self@, i as int, ints_of(cx@))),
        decreases i,
    {
        let ghost cxs = ints_of(cx@);
        proof {
            assert(forall|k: int| 0 <= k < cxs.len() ==> in_range(#[trigger] cxs[k]));
        }
        let cached: Option<i64> = memo[i];
        match cached {
            Some(v) => {
                return Ok(v);
            },
            None => {},
        }
        let n = self.get_node(i);
        proof {
            assert(node_valid(self@[i as int], i as int));
        }
        let computed: i64 = match n {
            Node::Const { value } => value,
            Node::Var { index } => {
                if index < cx.len() {
                    cx[index]
                } else {
                    return Err(Error::UnboundVariable);
                }
            },
            Node::Unary { op, child } => {
                let c = match self.eval_node(child, cx, memo) {
                    Ok(v) => v,
                    Err(e) => {
                        return Err(e);
                    },
                };
                proof {
                    lemma_seval_in_range(self@, child as int, cxs);
                }
                match apply_un(op, c) {
                    Ok(v) => v,
                    Err(e) => {
                        return Err(e);
                    },
                }
            },
            Node::Binary { op, lhs, rhs } => {
                let l = match self.eval_node(lhs, cx, memo) {
                    Ok(v) => v,
                    Err(e) => {
                        return Err(e);
                    },
                };
                let rv = match self.eval_node(rhs, cx, memo) {
                    Ok(v) => v,
                    Err(e) => {
                        return Err(e);
                    },
                };
                proof {
                    lemma_seval_in_range(self@, lhs as int, cxs);
                    lemma_seval_in_range(self@, rhs as int, cxs);
                }
                match apply_bin(op, l, rv) {
                    Ok(v) => v,
                    Err(e) => {
                        return Err(e);
                    },
                }
            },
        };
        proof {
            assert(seval(self@, i as int, cxs) == SVal::Num(computed as int));
        }
        let ghost memo_before = memo@;
        memo[i] = Some(computed);
        proof {
            assert(memo@ == memo_before.update(i as int, Some(computed)));
            assert forall|j: int|
                0 <= j < memo@.len() implies ((#[trigger] memo@[j]) matches Some(v) ==> seval(
                self@,
                j,
                cxs,
            ) == SVal::Num(v as int)) by {
                if j != i {
                    assert(memo@[j] == memo_before[j]);
                }
            }
        }
        Ok(computed)
    }

    /// Evaluate the tree rooted at `root` at one point: context slot `k`
    /// binds variable `k`. The walk visits each distinct node once. The
    /// outcome is exactly the mathematical evaluation: the exact value, or
    /// the first reason it is undefined (a foreign handle, an unbound
    /// variable, a division by zero, a value outside the representable
    /// range).
    pub fn eval_scalar(&self, root: NodeRef, point: &Vec<i64>) -> (r: Result<i64, Error>)
        requires
            nodes_wf(self@),
        ensures
            (root.index as int) < self@.len() ==> r == scalar_result(
                seval(self@, root.index as int, ints_of(point@)),
            ),
            (root.index as int) >= self@.len() ==> r == Err::<i64, Error>(Error::ArenaMismatch),
    {
        if !self.owns(root) {
            return Err(Error::ArenaMismatch);
        }
        let n = self.len();
        let mut memo: Vec<Option<i64>> = Vec::new();
        while memo.len() < n
            invariant
                memo@.len() <= n,
                n == self@.len(),
                forall|j: int| 0 <= j < memo@.len() ==> (#[trigger] memo@[j]) is None,
            decreases n - memo@.len(),
        {
            memo.push(None);
        }
        self.eval_node(root.index, point, &mut memo)
    }
}

} // verus!
