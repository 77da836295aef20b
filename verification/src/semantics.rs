//! Scalar semantics of expression trees, as specification functions.
//!
//! Every value is an exact integer on the fixed-point grid. Each operation
//! either yields the exact mathematical result, or reports that the result
//! left the representable range, that the operation was applied outside its
//! domain, or that a free variable was unbound.

use vstd::prelude::*;
use crate::node::{Node, UnOp, BinOp, Error};

verus! {

/// Outcome of evaluating one node at a point.
pub enum SVal {
    /// The exact value.
    Num(int),
    /// Evaluated outside the mathematical domain (division by zero).
    Dom,
    /// The exact result does not fit the representable range.
    Over,
    /// A variable was not bound by the context, or a handle was foreign.
    Free,
}

pub open spec fn in_range(v: int) -> bool {
    i64::MIN <= v <= i64::MAX
}

pub open spec fn clamp(v: int) -> SVal {
    if in_range(v) {
        SVal::Num(v)
    } else {
        SVal::Over
    }
}

/// Division truncated toward zero, the convention of the evaluator.
pub open spec fn tdiv(a: int, b: int) -> int {
    if a == 0 {
        0
    } else if a > 0 && b > 0 {
        a / b
    } else if a < 0 && b < 0 {
        (a * -1) / (b * -1)
    } else if a < 0 {
        ((a * -1) / b) * -1
    } else {
        (a / (b * -1)) * -1
    }
}

pub open spec fn abs_int(a: int) -> int {
    if a >= 0 {
        a
    } else {
        -a
    }
}

pub proof fn lemma_tdiv_by_one(a: int)
    ensures
        tdiv(a, 1) == a,
{
    if a > 0 {
        vstd::arithmetic::div_mod::lemma_div_basics(a);
    } else if a < 0 {
        vstd::arithmetic::div_mod::lemma_div_basics(a * -1);
    }
}

/// Truncated division never grows the magnitude of the dividend.
pub proof fn lemma_tdiv_magnitude(a: int, b: int)
    requires
        b != 0,
    ensures
        -abs_int(a) <= tdiv(a, b) <= abs_int(a),
{
    if a != 0 {
        let n = abs_int(a);
        let d = abs_int(b);
        vstd::arithmetic::div_mod::lemma_div_pos_is_pos(n, d);
        vstd::arithmetic::div_mod::lemma_div_basics_5(n, d);
        assert(0 <= n / d <= n);
    }
}

pub open spec fn un_num(op: UnOp, a: int) -> SVal {
    match op {
        UnOp::Neg => clamp(-a),
        UnOp::Abs => clamp(if a < 0 { -a } else { a }),
    }
}

pub open spec fn bin_num(op: BinOp, a: int, b: int) -> SVal {
    match op {
        BinOp::Add => clamp(a + b),
        BinOp::Sub => clamp(a - b),
        BinOp::Mul => clamp(a * b),
        BinOp::Div => if b == 0 {
            SVal::Dom
        } else {
            clamp(tdiv(a, b))
        },
        BinOp::Min => SVal::Num(if a <= b { a } else { b }),
        BinOp::Max => SVal::Num(if a >= b { a } else { b }),
    }
}

/// Errors of the first operand win over errors of the second.
pub open spec fn un_sval(op: UnOp, a: SVal) -> SVal {
    match a {
        SVal::Num(x) => un_num(op, x),
        _ => a,
    }
}

pub open spec fn bin_sval(op: BinOp, a: SVal, b: SVal) -> SVal {
    match a {
        SVal::Num(x) => match b {
            SVal::Num(y) => bin_num(op, x, y),
            _ => b,
        },
        _ => a,
    }
}

/// Scalar evaluation of node `i` under context `cx`, which binds variable `k`
/// to `cx[k]`. Shared subgraphs have one value: the function depends only on
/// the node, never on the path that reached it.
pub open spec fn seval(s: Seq<Node>, i: int, cx: Seq<int>) -> SVal
    decreases i,
{
    if !(0 <= i < s.len()) {
        SVal::Free
    } else {
        match s[i] {
            Node::Const { value } => SVal::Num(value as int),
            Node::Var { index } => if (index as int) < cx.len() {
                SVal::Num(cx[index as int])
            } else {
                SVal::Free
            },
            Node::Unary { op, child } => if (child as int) < i {
                un_sval(op, seval(s, child as int, cx))
            } else {
                SVal::Free
            },
            Node::Binary { op, lhs, rhs } => if (lhs as int) < i && (rhs as int) < i {
                bin_sval(op, seval(s, lhs as int, cx), seval(s, rhs as int, cx))
            } else {
                SVal::Free
            },
        }
    }
}

/// The `i64` context of an evaluation call, as mathematical integers.
pub open spec fn ints_of(s: Seq<i64>) -> Seq<int> {
    Seq::new(s.len(), |k: int| s[k] as int)
}

/// How a scalar outcome is reported to the caller.
pub open spec fn scalar_result(v: SVal) -> Result<i64, Error> {
    match v {
        SVal::Num(n) => Ok(n as i64),
        SVal::Dom => Err(Error::DomainError),
        SVal::Over => Err(Error::Overflow),
        SVal::Free => Err(Error::UnboundVariable),
    }
}

/// Executable counterpart of `un_num`: exact checked arithmetic.
pub fn apply_un(op: UnOp, a: i64) -> (r: Result<i64, Error>)
    ensures
        r == scalar_result(un_num(op, a as int)),
{
    match op {
        UnOp::Neg => match (0i64).checked_sub(a) {
            Some(v) => Ok(v),
            None => Err(Error::Overflow),
        },
        UnOp::Abs => if a >= 0 {
            Ok(a)
        } else {
            match (0i64).checked_sub(a) {
                Some(v) => Ok(v),
                None => Err(Error::Overflow),
            }
        },
    }
}

/// Executable counterpart of `bin_num`: exact checked arithmetic.
pub fn apply_bin(op: BinOp, a: i64, b: i64) -> (r: Result<i64, Error>)
    ensures
        r == scalar_result(bin_num(op, a as int, b as int)),
{
    match op {
        BinOp::Add => match a.checked_add(b) {
            Some(v) => Ok(v),
            None => Err(Error::Overflow),
        },
        BinOp::Sub => match a.checked_sub(b) {
            Some(v) => Ok(v),
            None => Err(Error::Overflow),
        },
        BinOp::Mul => match a.checked_mul(b) {
            Some(v) => Ok(v),
            None => Err(Error::Overflow),
        },
        BinOp::Div => if b == 0 {
            Err(Error::DomainError)
        } else {
            match a.checked_div(b) {
                Some(v) => Ok(v),
                None => Err(Error::Overflow),
            }
        },
        BinOp::Min => Ok(if a <= b { a } else { b }),
        BinOp::Max => Ok(if a >= b { a } else { b }),
    }
}

/// Appending nodes never changes the value of the nodes already present.
pub proof fn lemma_seval_prefix(s1: Seq<Node>, s2: Seq<Node>, i: int, cx: Seq<int>)
    requires
        crate::node::extends(s2, s1),
        0 <= i < s1.len(),
    ensures
        seval(s2, i, cx) == seval(s1, i, cx),
    decreases i,
{
    assert(s2[i] == s1[i]);
    match s1[i] {
        Node::Unary { op, child } => {
            if (child as int) < i {
                lemma_seval_prefix(s1, s2, child as int, cx);
            }
        },
        Node::Binary { op, lhs, rhs } => {
            if (lhs as int) < i && (rhs as int) < i {
                lemma_seval_prefix(s1, s2, lhs as int, cx);
                lemma_seval_prefix(s1, s2, rhs as int, cx);
            }
        },
        _ => {},
    }
}

/// Scalar evaluation is deterministic: it is a function of the tree and the
/// context alone, so any two outcomes that meet the evaluator's contract for
/// the same tree and context are identical.
pub proof fn lemma_scalar_deterministic(s: Seq<Node>, i: int, cx: Seq<int>, r1: SVal, r2: SVal)
    requires
        r1 == seval(s, i, cx),
        r2 == seval(s, i, cx),
    ensures
        r1 == r2,
{
}

/// Under a context of representable values, every successful evaluation
/// yields a representable value.
pub proof fn lemma_seval_in_range(s: Seq<Node>, i: int, cx: Seq<int>)
    requires
        forall|k: int| 0 <= k < cx.len() ==> in_range(#[trigger] cx[k]),
    ensures
        seval(s, i, cx) matches SVal::Num(v) ==> in_range(v),
    decreases i,
{
    if 0 <= i < s.len() {
        match s[i] {
            Node::Unary { op, child } => {
                if (child as int) < i {
                    lemma_seval_in_range(s, child as int, cx);
                }
            },
            Node::Binary { op, lhs, rhs } => {
                if (lhs as int) < i && (rhs as int) < i {
                    lemma_seval_in_range(s, lhs as int, cx);
                    lemma_seval_in_range(s, rhs as int, cx);
                }
            },
            _ => {},
        }
    }
}

} // verus!
