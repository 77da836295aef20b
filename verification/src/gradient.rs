//! Gradient evaluation: forward-mode differentiation alongside the value.
//!
//! Each operation propagates one partial derivative per bound variable. At a
//! min/max tie the first operand's derivative wins, by definition. The
//! truncated quotient is not differentiable on the fixed-point grid, so
//! division reports a domain error in this mode.

use vstd::prelude::*;
use crate::node::{Node, NodeRef, UnOp, BinOp, Error, nodes_wf, node_valid};
use crate::arena::Arena;
use crate::semantics::{SVal, seval, ints_of, in_range, un_num, bin_num};

verus! {

/// Outcome of differentiating one node at a point: a value with one partial
/// derivative per context slot, or the first reason it is undefined.
pub enum GVal {
    Num { v: int, d: Seq<int> },
    Dom,
    Over,
    Free,
}

pub open spec fn zero_seq(n: nat) -> Seq<int> {
    Seq::new(n, |k: int| 0)
}

pub open spec fn unit_seq(n: nat, u: int) -> Seq<int> {
    Seq::new(n, |k: int| if k == u { 1int } else { 0int })
}

pub open spec fn neg_ok(d: Seq<int>) -> bool {
    forall|k: int| 0 <= k < d.len() ==> in_range(-(#[trigger] d[k]))
}

pub open spec fn seq_neg(d: Seq<int>) -> Seq<int> {
    Seq::new(d.len(), |k: int| -d[k])
}

pub open spec fn add_ok(a: Seq<int>, b: Seq<int>) -> bool {
    forall|k: int| #![trigger a[k], b[k]] 0 <= k < a.len() ==> in_range(a[k] + b[k])
}

pub open spec fn seq_sum(a: Seq<int>, b: Seq<int>) -> Seq<int> {
    Seq::new(a.len(), |k: int| a[k] + b[k])
}

pub open spec fn sub_ok(a: Seq<int>, b: Seq<int>) -> bool {
    forall|k: int| #![trigger a[k], b[k]] 0 <= k < a.len() ==> in_range(a[k] - b[k])
}

pub open spec fn seq_diff(a: Seq<int>, b: Seq<int>) -> Seq<int> {
    Seq::new(a.len(), |k: int| a[k] - b[k])
}

/// The product rule is computed as `da*b + a*db`, each step checked.
pub open spec fn mul_ok(da: Seq<int>, db: Seq<int>, a: int, b: int) -> bool {
    forall|k: int| #![trigger da[k], db[k]]
        0 <= k < da.len() ==> in_range(da[k] * b) && in_range(a * db[k]) && in_range(
            da[k] * b + a * db[k],
        )
}

pub open spec fn seq_product_rule(da: Seq<int>, db: Seq<int>, a: int, b: int) -> Seq<int> {
    Seq::new(da.len(), |k: int| da[k] * b + a * db[k])
}

pub open spec fn g_un(op: UnOp, a: GVal) -> GVal {
    match a {
        GVal::Num { v, d } => match op {
            UnOp::Neg => if in_range(-v) && neg_ok(d) {
                GVal::Num { v: -v, d: seq_neg(d) }
            } else {
                GVal::Over
            },
            UnOp::Abs => if v >= 0 {
                if in_range(v) {
                    GVal::Num { v, d }
                } else {
                    GVal::Over
                }
            } else {
                if in_range(-v) && neg_ok(d) {
                    GVal::Num { v: -v, d: seq_neg(d) }
                } else {
                    GVal::Over
                }
            },
        },
        _ => a,
    }
}

/// Errors of the first operand win; at a min/max tie the first operand's
/// derivative is selected.
pub open spec fn g_bin(op: BinOp, a: GVal, b: GVal) -> GVal {
    match a {
        GVal::Num { v: va, d: da } => match b {
            GVal::Num { v: vb, d: db } => match op {
                BinOp::Add => if in_range(va + vb) && add_ok(da, db) {
                    GVal::Num { v: va + vb, d: seq_sum(da, db) }
                } else {
                    GVal::Over
                },
                BinOp::Sub => if in_range(va - vb) && sub_ok(da, db) {
                    GVal::Num { v: va - vb, d: seq_diff(da, db) }
                } else {
                    GVal::Over
                },
                BinOp::Mul => if in_range(va * vb) && mul_ok(da, db, va, vb) {
                    GVal::Num { v: va * vb, d: seq_product_rule(da, db, va, vb) }
                } else {
                    GVal::Over
                },
                BinOp::Div => GVal::Dom,
                BinOp::Min => if va <= vb {
                    GVal::Num { v: va, d: da }
                } else {
                    GVal::Num { v: vb, d: db }
                },
                BinOp::Max => if va >= vb {
                    GVal::Num { v: va, d: da }
                } else {
                    GVal::Num { v: vb, d: db }
                },
            },
            _ => b,
        },
        _ => a,
    }
}

/// Gradient evaluation of node `i` under the point context `cx`: the value,
/// and a partial derivative per context slot.
pub open spec fn geval(s: Seq<Node>, i: int, cx: Seq<int>) -> GVal
    decreases i,
{
    if !(0 <= i < s.len()) {
        GVal::Free
    } else {
        match s[i] {
            Node::Const { value } => GVal::Num { v: value as int, d: zero_seq(cx.len()) },
            Node::Var { index } => if (index as int) < cx.len() {
                GVal::Num { v: cx[index as int], d: unit_seq(cx.len(), index as int) }
            } else {
                GVal::Free
            },
            Node::Unary { op, child } => if (child as int) < i {
                g_un(op, geval(s, child as int, cx))
            } else {
                GVal::Free
            },
            Node::Binary { op, lhs, rhs } => if (lhs as int) < i && (rhs as int) < i {
                g_bin(op, geval(s, lhs as int, cx), geval(s, rhs as int, cx))
            } else {
                GVal::Free
            },
        }
    }
}

/// Gradient evaluation is consistent with scalar evaluation: whenever it
/// yields a value and derivatives, the value is exactly the scalar
/// evaluation at the same point, with one derivative per bound variable.
pub proof fn lemma_gradient_value_consistent(s: Seq<Node>, i: int, cx: Seq<int>)
    requires
        nodes_wf(s),
    ensures
        geval(s, i, cx) matches GVal::Num { v, d } ==> seval(s, i, cx) == SVal::Num(v) && d.len()
            == cx.len(),
    decreases i,
{
    if 0 <= i < s.len() {
        match s[i] {
            Node::Unary { op, child } => {
                if (child as int) < i {
                    lemma_gradient_value_consistent(s, child as int, cx);
                }
            },
            Node::Binary { op, lhs, rhs } => {
                if (lhs as int) < i && (rhs as int) < i {
                    lemma_gradient_value_consistent(s, lhs as int, cx);
                    lemma_gradient_value_consistent(s, rhs as int, cx);
                }
            },
            _ => {},
        }
    }
}

/// A value together with one partial derivative per bound variable,
/// orderable by consumers into an outward normal at the surface.
pub struct Gradient {
    pub value: i64,
    pub partials: Vec<i64>,
}

pub open spec fn gval_of(g: Gradient) -> GVal {
    GVal::Num { v: g.value as int, d: ints_of(g.partials@) }
}

fn copy_vec(p: &Vec<i64>) -> (r: Vec<i64>)
    ensures
        r@ == p@,
{
    let mut out: Vec<i64> = Vec::new();
    let mut k: usize = 0;
    while k < p.len()
        invariant
            k <= p@.len(),
            out@.len() == k,
            forall|j: int| 0 <= j < k ==> out@[j] == p@[j],
        decreases p@.len() - k,
    {
        out.push(p[k]);
        k = k + 1;
    }
    proof {
        assert(out@ =~= p@);
    }
    out
}

fn zeros_vec(n: usize) -> (r: Vec<i64>)
    ensures
        ints_of(r@) == zero_seq(n as nat),
{
    let mut out: Vec<i64> = Vec::new();
    let mut k: usize = 0;
    while k < n
        invariant
            k <= n,
            out@.len() == k,
            forall|j: int| 0 <= j < k ==> out@[j] == 0i64,
        decreases n - k,
    {
        out.push(0);
        k = k + 1;
    }
    proof {
        assert(ints_of(out@) =~= zero_seq(n as nat));
    }
    out
}

fn unit_vec(n: usize, u: usize) -> (r: Vec<i64>)
    ensures
        ints_of(r@) == unit_seq(n as nat, u as int),
{
    let mut out: Vec<i64> = Vec::new();
    let mut k: usize = 0;
    while k < n
        invariant
            k <= n,
            out@.len() == k,
            forall|j: int| 0 <= j < k ==> out@[j] == (if j == u as int { 1i64 } else { 0i64 }),
        decreases n - k,
    {
        if k == u {
            out.push(1);
        } else {
            out.push(0);
        }
        k = k + 1;
    }
    proof {
        assert(ints_of(out@) =~= unit_seq(n as nat, u as int));
    }
    out
}

pub open spec fn sum_prefix_ok(pa: Seq<i64>, pb: Seq<i64>, out: Seq<i64>, k: int) -> bool {
    forall|j: int| #![trigger pa[j], pb[j]]
        0 <= j < k ==> in_range(pa[j] as int + pb[j] as int) && out[j] as int == pa[j] as int
            + pb[j] as int
}

pub open spec fn diff_prefix_ok(pa: Seq<i64>, pb: Seq<i64>, out: Seq<i64>, k: int) -> bool {
    forall|j: int| #![trigger pa[j], pb[j]]
        0 <= j < k ==> in_range(pa[j] as int - pb[j] as int) && out[j] as int == pa[j] as int
            - pb[j] as int
}

pub open spec fn rule_entry_ok(
    da: Seq<i64>,
    db: Seq<i64>,
    out: Seq<i64>,
    va: int,
    vb: int,
    j: int,
) -> bool {
    &&& in_range(da[j] as int * vb)
    &&& in_range(va * db[j] as int)
    &&& in_range(da[j] as int * vb + va * db[j] as int)
    &&& out[j] as int == da[j] as int * vb + va * db[j] as int
}

pub open spec fn rule_prefix_ok(
    da: Seq<i64>,
    db: Seq<i64>,
    out: Seq<i64>,
    va: int,
    vb: int,
    k: int,
) -> bool {
    forall|j: int| 0 <= j < k ==> #[trigger] rule_entry_ok(da, db, out, va, vb, j)
}

pub open spec fn neg_prefix_ok(p: Seq<i64>, out: Seq<i64>, k: int) -> bool {
    forall|j: int|
        0 <= j < k ==> in_range(-((#[trigger] p[j]) as int)) && out[j] as int == -(p[j] as int)
}

fn negate_partials(p: &Vec<i64>) -> (r: Option<Vec<i64>>)
    ensures
        r matches Some(q) ==> neg_ok(ints_of(p@)) && ints_of(q@) == seq_neg(ints_of(p@)),
        r is None ==> !neg_ok(ints_of(p@)),
{
    let mut out: Vec<i64> = Vec::new();
    let mut k: usize = 0;
    while k < p.len()
        invariant
            k <= p@.len(),
            out@.len() == k,
            neg_prefix_ok(p@, out@, k as int),
        decreases p@.len() - k,
    {
        let v = match (0i64).checked_sub(p[k]) {
            Some(v) => v,
            None => {
                proof {
                    assert(ints_of(p@)[k as int] == p@[k as int] as int);
                    assert(!neg_ok(ints_of(p@)));
                }
                return None;
            },
        };
        let ghost out0 = out@;
        out.push(v);
        k = k + 1;
        proof {
            assert forall|j: int|
                0 <= j < k implies in_range(-((#[trigger] p@[j]) as int)) && out@[j] as int == -(
            p@[j] as int) by {
                assert(out@ == out0.push(v));
                if j < k - 1 {
                    assert(out@[j] == out0[j]);
                } else {
                    assert(out@[j] == v);
                }
            }
            assert(neg_prefix_ok(p@, out@, k as int));
        }
    }
    proof {
        assert forall|j: int|
            0 <= j < ints_of(p@).len() implies in_range(-((#[trigger] ints_of(p@)[j]))) by {
            assert(ints_of(p@)[j] == p@[j] as int);
            assert(in_range(-(p@[j] as int)));
        }
        assert(ints_of(out@) =~= seq_neg(ints_of(p@)));
    }
    Some(out)
}

fn add_partials(pa: &Vec<i64>, pb: &Vec<i64>) -> (r: Option<Vec<i64>>)
    requires
        pa@.len() == pb@.len(),
    ensures
        r matches Some(q) ==> add_ok(ints_of(pa@), ints_of(pb@)) && ints_of(q@) == seq_sum(
            ints_of(pa@),
            ints_of(pb@),
        ),
        r is None ==> !add_ok(ints_of(pa@), ints_of(pb@)),
{
    let mut out: Vec<i64> = Vec::new();
    let mut k: usize = 0;
    while k < pa.len()
        invariant
            k <= pa@.len(),
            pa@.len() == pb@.len(),
            out@.len() == k,
            sum_prefix_ok(pa@, pb@, out@, k as int),
        decreases pa@.len() - k,
    {
        let v = match pa[k].checked_add(pb[k]) {
            Some(v) => v,
            None => {
                proof {
                    assert(ints_of(pa@)[k as int] == pa@[k as int] as int);
                    assert(ints_of(pb@)[k as int] == pb@[k as int] as int);
                    assert(!add_ok(ints_of(pa@), ints_of(pb@)));
                }
                return None;
            },
        };
        let ghost out0 = out@;
        out.push(v);
        k = k + 1;
        proof {
            assert forall|j: int| #![trigger pa@[j], pb@[j]]
                0 <= j < k implies in_range(pa@[j] as int + pb@[j] as int) && out@[j] as int
                == pa@[j] as int + pb@[j] as int by {
                assert(out@ == out0.push(v));
                if j < k - 1 {
                    assert(out@[j] == out0[j]);
                } else {
                    assert(out@[j] == v);
                }
            }
            assert(sum_prefix_ok(pa@, pb@, out@, k as int));
        }
    }
    proof {
        assert forall|j: int| #![trigger ints_of(pa@)[j], ints_of(pb@)[j]]
            0 <= j < ints_of(pa@).len() implies in_range(ints_of(pa@)[j] + ints_of(pb@)[j]) by {
            assert(ints_of(pa@)[j] == pa@[j] as int);
            assert(ints_of(pb@)[j] == pb@[j] as int);
        }
        assert(ints_of(out@) =~= seq_sum(ints_of(pa@), ints_of(pb@)));
    }
    Some(out)
}

fn sub_partials(pa: &Vec<i64>, pb: &Vec<i64>) -> (r: Option<Vec<i64>>)
    requires
        pa@.len() == pb@.len(),
    ensures
        r matches Some(q) ==> sub_ok(ints_of(pa@), ints_of(pb@)) && ints_of(q@) == seq_diff(
            ints_of(pa@),
            ints_of(pb@),
        ),
        r is None ==> !sub_ok(ints_of(pa@), ints_of(pb@)),
{
    let mut out: Vec<i64> = Vec::new();
    let mut k: usize = 0;
    while k < pa.len()
        invariant
            k <= pa@.len(),
            pa@.len() == pb@.len(),
            out@.len() == k,
            diff_prefix_ok(pa@, pb@, out@, k as int),
        decreases pa@.len() - k,
    {
        let v = match pa[k].checked_sub(pb[k]) {
            Some(v) => v,
            None => {
                proof {
                    assert(ints_of(pa@)[k as int] == pa@[k as int] as int);
                    assert(ints_of(pb@)[k as int] == pb@[k as int] as int);
                    assert(!sub_ok(ints_of(pa@), ints_of(pb@)));
                }
                return None;
            },
        };
        let ghost out0 = out@;
        out.push(v);
        k = k + 1;
        proof {
            assert forall|j: int| #![trigger pa@[j], pb@[j]]
                0 <= j < k implies in_range(pa@[j] as int - pb@[j] as int) && out@[j] as int
                == pa@[j] as int - pb@[j] as int by {
                assert(out@ == out0.push(v));
                if j < k - 1 {
                    assert(out@[j] == out0[j]);
                } else {
                    assert(out@[j] == v);
                }
            }
            assert(diff_prefix_ok(pa@, pb@, out@, k as int));
        }
    }
    proof {
        assert forall|j: int| #![trigger ints_of(pa@)[j], ints_of(pb@)[j]]
            0 <= j < ints_of(pa@).len() implies in_range(ints_of(pa@)[j] - ints_of(pb@)[j]) by {
            assert(ints_of(pa@)[j] == pa@[j] as int);
            assert(ints_of(pb@)[j] == pb@[j] as int);
        }
        assert(ints_of(out@) =~= seq_diff(ints_of(pa@), ints_of(pb@)));
    }
    Some(out)
}

proof fn lemma_rule_prefix_push(
    da: Seq<i64>,
    db: Seq<i64>,
    out: Seq<i64>,
    va: int,
    vb: int,
    k: int,
    v: i64,
)
    requires
        rule_prefix_ok(da, db, out, va, vb, k),
        out.len() == k,
        0 <= k < da.len(),
        in_range(da[k] as int * vb),
        in_range(va * db[k] as int),
        in_range(da[k] as int * vb + va * db[k] as int),
        v as int == da[k] as int * vb + va * db[k] as int,
    ensures
        rule_prefix_ok(da, db, out.push(v), va, vb, k + 1),
{
    let out2 = out.push(v);
    assert forall|j: int| 0 <= j < k + 1 implies #[trigger] rule_entry_ok(
        da,
        db,
        out2,
        va,
        vb,
        j,
    ) by {
        if j < k {
            assert(rule_entry_ok(da, db, out, va, vb, j));
            assert(out2[j] == out[j]);
        } else {
            assert(j == k);
            assert(out2[j] == v);
        }
    }
}

fn mul_partials(da: &Vec<i64>, db: &Vec<i64>, va: i64, vb: i64) -> (r: Option<Vec<i64>>)
    requires
        da@.len() == db@.len(),
    ensures
        r matches Some(q) ==> mul_ok(ints_of(da@), ints_of(db@), va as int, vb as int) && ints_of(
            q@,
        ) == seq_product_rule(ints_of(da@), ints_of(db@), va as int, vb as int),
        r is None ==> !mul_ok(ints_of(da@), ints_of(db@), va as int, vb as int),
{
    let mut out: Vec<i64> = Vec::new();
    let mut k: usize = 0;
    while k < da.len()
        invariant
            k <= da@.len(),
            da@.len() == db@.len(),
            out@.len() == k,
            rule_prefix_ok(da@, db@, out@, va as int, vb as int, k as int),
        decreases da@.len() - k,
    {
        let m1 = match da[k].checked_mul(vb) {
            Some(v) => v,
            None => {
                proof {
                    assert(ints_of(da@)[k as int] == da@[k as int] as int);
                    assert(ints_of(db@)[k as int] == db@[k as int] as int);
                    assert(!mul_ok(ints_of(da@), ints_of(db@), va as int, vb as int));
                }
                return None;
            },
        };
        let m2 = match va.checked_mul(db[k]) {
            Some(v) => v,
            None => {
                proof {
                    assert(ints_of(da@)[k as int] == da@[k as int] as int);
                    assert(ints_of(db@)[k as int] == db@[k as int] as int);
                    assert(!mul_ok(ints_of(da@), ints_of(db@), va as int, vb as int));
                }
                return None;
            },
        };
        let v = match m1.checked_add(m2) {
            Some(v) => v,
            None => {
                proof {
                    assert(ints_of(da@)[k as int] == da@[k as int] as int);
                    assert(ints_of(db@)[k as int] == db@[k as int] as int);
                    assert(!mul_ok(ints_of(da@), ints_of(db@), va as int, vb as int));
                }
                return None;
            },
        };
        let ghost out0 = out@;
        let ghost k0 = k as int;
        proof {
            assert(m1 as int == da@[k0] as int * (vb as int));
            assert(m2 as int == (va as int) * (db@[k0] as int));
            assert(v as int == m1 as int + m2 as int);
            lemma_rule_prefix_push(da@, db@, out0, va as int, vb as int, k0, v);
        }
        out.push(v);
        k = k + 1;
        proof {
            assert(out@ == out0.push(v));
            assert(rule_prefix_ok(da@, db@, out@, va as int, vb as int, k as int));
        }
    }
    proof {
        assert forall|j: int|
            0 <= j < ints_of(da@).len() implies in_range(
            (#[trigger] ints_of(da@)[j]) * (vb as int),
        ) && in_range(ints_of(da@)[j] * (vb as int) + (va as int) * ints_of(db@)[j]) by {
            assert(rule_entry_ok(da@, db@, out@, va as int, vb as int, j));
            assert(ints_of(da@)[j] == da@[j] as int);
            assert(ints_of(db@)[j] == db@[j] as int);
        }
        assert forall|j: int|
            0 <= j < ints_of(db@).len() implies in_range(
            (va as int) * (#[trigger] ints_of(db@)[j]),
        ) by {
            assert(rule_entry_ok(da@, db@, out@, va as int, vb as int, j));
            assert(ints_of(da@)[j] == da@[j] as int);
            assert(ints_of(db@)[j] == db@[j] as int);
        }
        assert forall|j: int|
            0 <= j < out@.len() implies ints_of(out@)[j] == seq_product_rule(
            ints_of(da@),
            ints_of(db@),
            va as int,
            vb as int,
        )[j] by {
            assert(rule_entry_ok(da@, db@, out@, va as int, vb as int, j));
            assert(ints_of(da@)[j] == da@[j] as int);
            assert(ints_of(db@)[j] == db@[j] as int);
        }
        assert(ints_of(out@) =~= seq_product_rule(
            ints_of(da@),
            ints_of(db@),
            va as int,
            vb as int,
        ));
    }
    Some(out)
}

fn g_apply_un(op: UnOp, a: &Gradient) -> (r: Result<Gradient, Error>)
    ensures
        g_un(op, gval_of(*a)) matches GVal::Num { v, d } ==> (r matches Ok(g) && g.value as int
            == v && ints_of(g.partials@) == d),
        g_un(op, gval_of(*a)) is Over ==> r == Err::<Gradient, Error>(Error::Overflow),
{
    match op {
        UnOp::Neg => {
            match (0i64).checked_sub(a.value) {
                Some(v) => match negate_partials(&a.partials) {
                    Some(q) => Ok(Gradient { value: v, partials: q }),
                    None => Err(Error::Overflow),
                },
                None => Err(Error::Overflow),
            }
        },
        UnOp::Abs => {
            if a.value >= 0 {
                Ok(Gradient { value: a.value, partials: copy_vec(&a.partials) })
            } else {
                match (0i64).checked_sub(a.value) {
                    Some(v) => match negate_partials(&a.partials) {
                        Some(q) => Ok(Gradient { value: v, partials: q }),
                        None => Err(Error::Overflow),
                    },
                    None => Err(Error::Overflow),
                }
            }
        },
    }
}

fn g_apply_bin(op: BinOp, a: &Gradient, b: &Gradient) -> (r: Result<Gradient, Error>)
    requires
        a.partials@.len() == b.partials@.len(),
    ensures
        g_bin(op, gval_of(*a), gval_of(*b)) matches GVal::Num { v, d } ==> (r matches Ok(g)
            && g.value as int == v && ints_of(g.partials@) == d),
        g_bin(op, gval_of(*a), gval_of(*b)) is Over ==> r == Err::<Gradient, Error>(
            Error::Overflow,
        ),
        g_bin(op, gval_of(*a), gval_of(*b)) is Dom ==> r == Err::<Gradient, Error>(
            Error::DomainError,
        ),
{
    match op {
        BinOp::Add => {
            match a.value.checked_add(b.value) {
                Some(v) => match add_partials(&a.partials, &b.partials) {
                    Some(q) => Ok(Gradient { value: v, partials: q }),
                    None => Err(Error::Overflow),
                },
                None => Err(Error::Overflow),
            }
        },
        BinOp::Sub => {
            match a.value.checked_sub(b.value) {
                Some(v) => match sub_partials(&a.partials, &b.partials) {
                    Some(q) => Ok(Gradient { value: v, partials: q }),
                    None => Err(Error::Overflow),
                },
                None => Err(Error::Overflow),
            }
        },
        BinOp::Mul => {
            match a.value.checked_mul(b.value) {
                Some(v) => match mul_partials(&a.partials, &b.partials, a.value, b.value) {
                    Some(q) => Ok(Gradient { value: v, partials: q }),
                    None => Err(Error::Overflow),
                },
                None => Err(Error::Overflow),
            }
        },
        BinOp::Div => Err(Error::DomainError),
        BinOp::Min => {
            if a.value <= b.value {
                Ok(Gradient { value: a.value, partials: copy_vec(&a.partials) })
            } else {
                Ok(Gradient { value: b.value, partials: copy_vec(&b.partials) })
            }
        },
        BinOp::Max => {
            if a.value >= b.value {
                Ok(Gradient { value: a.value, partials: copy_vec(&a.partials) })
            } else {
                Ok(Gradient { value: b.value, partials: copy_vec(&b.partials) })
            }
        },
    }
}

pub open spec fn gmemo_ok(s: Seq<Node>, cx: Seq<int>, memo: Seq<Option<Gradient>>) -> bool {
    &&& memo.len() == s.len()
    &&& forall|j: int| 0 <= j < memo.len() ==> ((#[trigger] memo[j]) matches Some(g)
        ==> geval(s, j, cx) == gval_of(g))
}

impl Arena {
    fn geval_node(&self, i: usize, cx: &Vec<i64>, memo: &mut Vec<Option<Gradient>>) -> (r: Result<
        Gradient,
        Error,
    >)
        requires
            nodes_wf(self@),
            (i as int) < self@.len(),
            gmemo_ok(self@, ints_of(cx@), old(memo)@),
        ensures
            gmemo_ok(self@, ints_of(cx@), final(memo)@),
            ({
                let g = geval(self@, i as int, ints_of(cx@));
                &&& (g matches GVal::Num { v, d } ==> (r matches Ok(gr) && gr.value as int == v
                    && ints_of(gr.partials@) == d))
                &&& (g is Dom ==> r == Err::<Gradient, Error>(Error::DomainError))
                &&& (g is Over ==> r == Err::<Gradient, Error>(Error::Overflow))
                &&& (g is Free ==> r == Err::<Gradient, Error>(Error::UnboundVariable))
            }),
        decreases i,
    {
        let ghost cxs = ints_of(cx@);
        match &memo[i] {
            Some(g) => {
                return Ok(Gradient { value: g.value, partials: copy_vec(&g.partials) });
            },
            None => {},
        }
        let n = self.get_node(i);
        proof {
            assert(node_valid(self@[i as int], i as int));
        }
        let computed: Gradient = match n {
            Node::Const { value } => Gradient { value, partials: zeros_vec(cx.len()) },
            Node::Var { index } => {
                if index < cx.len() {
                    Gradient { value: cx[index], partials: unit_vec(cx.len(), index) }
                } else {
                    return Err(Error::UnboundVariable);
                }
            },
            Node::Unary { op, child } => {
                let cg = match self.geval_node(child, cx, memo) {
                    Ok(g) => g,
                    Err(e) => {
                        return Err(e);
                    },
                };
                proof {
                    assert(geval(self@, child as int, cxs) == gval_of(cg));
                }
                match g_apply_un(op, &cg) {
                    Ok(g) => g,
                    Err(e) => {
                        return Err(e);
                    },
                }
            },
            Node::Binary { op, lhs, rhs } => {
                let lg = match self.geval_node(lhs, cx, memo) {
                    Ok(g) => g,
                    Err(e) => {
                        return Err(e);
                    },
                };
                let rg = match self.geval_node(rhs, cx, memo) {
                    Ok(g) => g,
                    Err(e) => {
                        return Err(e);
                    },
                };
                proof {
                    assert(geval(self@, lhs as int, cxs) == gval_of(lg));
                    assert(geval(self@, rhs as int, cxs) == gval_of(rg));
                    lemma_gradient_value_consistent(self@, lhs as int, cxs);
                    lemma_gradient_value_consistent(self@, rhs as int, cxs);
                }
                match g_apply_bin(op, &lg, &rg) {
                    Ok(g) => g,
                    Err(e) => {
                        return Err(e);
                    },
                }
            },
        };
        let stored = Gradient { value: computed.value, partials: copy_vec(&computed.partials) };
        let ghost memo_before = memo@;
        memo[i] = Some(stored);
        proof {
            assert(gval_of(memo@[i as int]->Some_0) == geval(self@, i as int, cxs));
            assert forall|j: int|
                0 <= j < memo@.len() implies ((#[trigger] memo@[j]) matches Some(g) ==> geval(
                self@,
                j,
                cxs,
            ) == gval_of(g)) by {
                if j != i {
                    assert(memo@[j] == memo_before[j]);
                }
            }
        }
        Ok(computed)
    }

    /// Evaluate the tree rooted at `root` with forward-mode derivatives:
    /// context slot `k` binds variable `k`, and the result carries one
    /// partial derivative per context slot. The value component always
    /// agrees with scalar evaluation; see `lemma_gradient_value_consistent`.
    pub fn eval_gradient(&self, root: NodeRef, point: &Vec<i64>) -> (r: Result<Gradient, Error>)
        requires
            nodes_wf(self@),
        ensures
            (root.index as int) < self@.len() ==> ({
                let g = geval(self@, root.index as int, ints_of(point@));
                &&& (g matches GVal::Num { v, d } ==> (r matches Ok(gr) && gr.value as int == v
                    && ints_of(gr.partials@) == d))
                &&& (g is Dom ==> r == Err::<Gradient, Error>(Error::DomainError))
                &&& (g is Over ==> r == Err::<Gradient, Error>(Error::Overflow))
                &&& (g is Free ==> r == Err::<Gradient, Error>(Error::UnboundVariable))
            }),
            (root.index as int) >= self@.len() ==> r == Err::<Gradient, Error>(
                Error::ArenaMismatch,
            ),
    {
        if !self.owns(root) {
            return Err(Error::ArenaMismatch);
        }
        let n = self.len();
        let mut memo: Vec<Option<Gradient>> = Vec::new();
        while memo.len() < n
            invariant
                memo@.len() <= n,
                n == self@.len(),
                forall|j: int| 0 <= j < memo@.len() ==> (#[trigger] memo@[j]) is None,
            decreases n - memo@.len(),
        {
            memo.push(None);
        }
        self.geval_node(root.index, point, &mut memo)
    }
}

} // verus!
