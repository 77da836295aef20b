//! Interval evaluation: a conservative enclosure of a tree's output over a
//! box of inputs, for spatial pruning.
//!
//! Interval evaluation never fails: wherever an exact range cannot be
//! represented (an endpoint out of range, a divisor interval containing
//! zero, an unbound variable, a foreign handle), the result widens to the
//! whole real line, so pruning consumers always terminate.

use vstd::prelude::*;
use crate::node::{Node, NodeRef, UnOp, BinOp, Error, nodes_wf, node_valid};
use crate::arena::Arena;
use crate::semantics::{
    SVal, seval, in_range, tdiv, abs_int, un_num, bin_num, lemma_tdiv_magnitude,
};

verus! {

/// A conservative range of outputs: every value the tree can take over the
/// input box lies inside it.
pub enum IVal {
    /// The whole real line.
    All,
    /// The closed range from the first to the second bound.
    Fin(int, int),
}

pub open spec fn ival_contains(v: IVal, x: int) -> bool {
    match v {
        IVal::All => true,
        IVal::Fin(lo, hi) => lo <= x <= hi,
    }
}

/// A range with representable endpoints, else the whole line.
pub open spec fn mk_ival(lo: int, hi: int) -> IVal {
    if in_range(lo) && in_range(hi) {
        IVal::Fin(lo, hi)
    } else {
        IVal::All
    }
}

pub open spec fn min_int(a: int, b: int) -> int {
    if a <= b {
        a
    } else {
        b
    }
}

pub open spec fn max_int(a: int, b: int) -> int {
    if a >= b {
        a
    } else {
        b
    }
}

pub open spec fn i_neg(a: IVal) -> IVal {
    match a {
        IVal::Fin(lo, hi) => mk_ival(-hi, -lo),
        IVal::All => IVal::All,
    }
}

pub open spec fn i_abs(a: IVal) -> IVal {
    match a {
        IVal::Fin(lo, hi) => if lo >= 0 {
            IVal::Fin(lo, hi)
        } else if hi <= 0 {
            mk_ival(-hi, -lo)
        } else {
            mk_ival(0, max_int(-lo, hi))
        },
        IVal::All => IVal::All,
    }
}

pub open spec fn i_un(op: UnOp, a: IVal) -> IVal {
    match op {
        UnOp::Neg => i_neg(a),
        UnOp::Abs => i_abs(a),
    }
}

pub open spec fn i_add(a: IVal, b: IVal) -> IVal {
    match a {
        IVal::Fin(al, ah) => match b {
            IVal::Fin(bl, bh) => mk_ival(al + bl, ah + bh),
            IVal::All => IVal::All,
        },
        IVal::All => IVal::All,
    }
}

pub open spec fn i_sub(a: IVal, b: IVal) -> IVal {
    match a {
        IVal::Fin(al, ah) => match b {
            IVal::Fin(bl, bh) => mk_ival(al - bh, ah - bl),
            IVal::All => IVal::All,
        },
        IVal::All => IVal::All,
    }
}

/// Multiplication considers all four sign combinations of the endpoints.
pub open spec fn i_mul(a: IVal, b: IVal) -> IVal {
    match a {
        IVal::Fin(al, ah) => match b {
            IVal::Fin(bl, bh) => mk_ival(
                min_int(min_int(al * bl, al * bh), min_int(ah * bl, ah * bh)),
                max_int(max_int(al * bl, al * bh), max_int(ah * bl, ah * bh)),
            ),
            IVal::All => IVal::All,
        },
        IVal::All => IVal::All,
    }
}

/// A divisor range containing zero widens to the whole line; otherwise the
/// quotient's magnitude never exceeds the dividend's.
pub open spec fn i_div(a: IVal, b: IVal) -> IVal {
    match b {
        IVal::Fin(bl, bh) => if bl <= 0 && 0 <= bh {
            IVal::All
        } else {
            match a {
                IVal::Fin(al, ah) => mk_ival(
                    -max_int(abs_int(al), abs_int(ah)),
                    max_int(abs_int(al), abs_int(ah)),
                ),
                IVal::All => IVal::All,
            }
        },
        IVal::All => IVal::All,
    }
}

pub open spec fn i_min(a: IVal, b: IVal) -> IVal {
    match a {
        IVal::Fin(al, ah) => match b {
            IVal::Fin(bl, bh) => IVal::Fin(min_int(al, bl), min_int(ah, bh)),
            IVal::All => IVal::All,
        },
        IVal::All => IVal::All,
    }
}

pub open spec fn i_max(a: IVal, b: IVal) -> IVal {
    match a {
        IVal::Fin(al, ah) => match b {
            IVal::Fin(bl, bh) => IVal::Fin(max_int(al, bl), max_int(ah, bh)),
            IVal::All => IVal::All,
        },
        IVal::All => IVal::All,
    }
}

pub open spec fn i_bin(op: BinOp, a: IVal, b: IVal) -> IVal {
    match op {
        BinOp::Add => i_add(a, b),
        BinOp::Sub => i_sub(a, b),
        BinOp::Mul => i_mul(a, b),
        BinOp::Div => i_div(a, b),
        BinOp::Min => i_min(a, b),
        BinOp::Max => i_max(a, b),
    }
}

/// Interval evaluation of node `i` under box `icx`, binding variable `k` to
/// the range `icx[k]`. It is total: anything unknown widens to the whole
/// line.
pub open spec fn ieval(s: Seq<Node>, i: int, icx: Seq<IVal>) -> IVal
    decreases i,
{
    if !(0 <= i < s.len()) {
        IVal::All
    } else {
        match s[i] {
            Node::Const { value } => IVal::Fin(value as int, value as int),
            Node::Var { index } => if (index as int) < icx.len() {
                icx[index as int]
            } else {
                IVal::All
            },
            Node::Unary { op, child } => if (child as int) < i {
                i_un(op, ieval(s, child as int, icx))
            } else {
                IVal::All
            },
            Node::Binary { op, lhs, rhs } => if (lhs as int) < i && (rhs as int) < i {
                i_bin(op, ieval(s, lhs as int, icx), ieval(s, rhs as int, icx))
            } else {
                IVal::All
            },
        }
    }
}

/// A product of values inside two ranges lies between the extreme corner
/// products.
proof fn lemma_mul_in_corners(al: int, ah: int, bl: int, bh: int, x: int, y: int)
    requires
        al <= x <= ah,
        bl <= y <= bh,
    ensures
        min_int(min_int(al * bl, al * bh), min_int(ah * bl, ah * bh)) <= x * y,
        x * y <= max_int(max_int(al * bl, al * bh), max_int(ah * bl, ah * bh)),
{
    assert(min_int(x * bl, x * bh) <= x * y && x * y <= max_int(x * bl, x * bh))
        by (nonlinear_arith)
        requires
            bl <= y <= bh,
    ;
    assert(min_int(al * bl, ah * bl) <= x * bl && x * bl <= max_int(al * bl, ah * bl))
        by (nonlinear_arith)
        requires
            al <= x <= ah,
    ;
    assert(min_int(al * bh, ah * bh) <= x * bh && x * bh <= max_int(al * bh, ah * bh))
        by (nonlinear_arith)
        requires
            al <= x <= ah,
    ;
}

proof fn lemma_i_un_sound(op: UnOp, a: IVal, x: int)
    requires
        ival_contains(a, x),
    ensures
        un_num(op, x) matches SVal::Num(v) ==> ival_contains(i_un(op, a), v),
{
}

proof fn lemma_i_bin_sound(op: BinOp, a: IVal, b: IVal, x: int, y: int)
    requires
        ival_contains(a, x),
        ival_contains(b, y),
    ensures
        bin_num(op, x, y) matches SVal::Num(v) ==> ival_contains(i_bin(op, a, b), v),
{
    match bin_num(op, x, y) {
        SVal::Num(v) => {
            match op {
                BinOp::Mul => {
                    match a {
                        IVal::Fin(al, ah) => match b {
                            IVal::Fin(bl, bh) => {
                                lemma_mul_in_corners(al, ah, bl, bh, x, y);
                            },
                            IVal::All => {},
                        },
                        IVal::All => {},
                    }
                },
                BinOp::Div => {
                    lemma_tdiv_magnitude(x, y);
                },
                _ => {},
            }
        },
        _ => {},
    }
}

/// Interval soundness: whenever every coordinate of a point lies in the
/// corresponding range of the box, and scalar evaluation at the point yields
/// a value, that value lies in the interval evaluation over the box.
pub proof fn lemma_interval_sound(s: Seq<Node>, i: int, icx: Seq<IVal>, cx: Seq<int>)
    requires
        nodes_wf(s),
        cx.len() == icx.len(),
        forall|k: int| 0 <= k < cx.len() ==> ival_contains(#[trigger] icx[k], cx[k]),
    ensures
        seval(s, i, cx) matches SVal::Num(v) ==> ival_contains(ieval(s, i, icx), v),
    decreases i,
{
    if 0 <= i < s.len() {
        match s[i] {
            Node::Unary { op, child } => {
                if (child as int) < i {
                    lemma_interval_sound(s, child as int, icx, cx);
                    match seval(s, child as int, cx) {
                        SVal::Num(w) => {
                            lemma_i_un_sound(op, ieval(s, child as int, icx), w);
                        },
                        _ => {},
                    }
                }
            },
            Node::Binary { op, lhs, rhs } => {
                if (lhs as int) < i && (rhs as int) < i {
                    lemma_interval_sound(s, lhs as int, icx, cx);
                    lemma_interval_sound(s, rhs as int, icx, cx);
                    match seval(s, lhs as int, cx) {
                        SVal::Num(w1) => {
                            match seval(s, rhs as int, cx) {
                                SVal::Num(w2) => {
                                    lemma_i_bin_sound(
                                        op,
                                        ieval(s, lhs as int, icx),
                                        ieval(s, rhs as int, icx),
                                        w1,
                                        w2,
                                    );
                                },
                                _ => {},
                            }
                        },
                        _ => {},
                    }
                }
            },
            _ => {},
        }
    }
}

/// An executable range of values.
#[derive(Clone, Copy, Debug, PartialEq, Eq, Structural)]
pub enum Interval {
    /// The whole real line: nothing is known about the output.
    All,
    /// The closed range `lo..=hi`.
    Fin { lo: i64, hi: i64 },
}

impl View for Interval {
    type V = IVal;

    open spec fn view(&self) -> IVal {
        match *self {
            Interval::All => IVal::All,
            Interval::Fin { lo, hi } => IVal::Fin(lo as int, hi as int),
        }
    }
}

impl Interval {
    /// Whether the range admits this value.
    pub fn admits(self, v: i64) -> (r: bool)
        ensures
            r == ival_contains(self@, v as int),
    {
        match self {
            Interval::All => true,
            Interval::Fin { lo, hi } => lo <= v && v <= hi,
        }
    }
}

fn abs_checked(v: i64) -> (r: Option<i64>)
    ensures
        r matches Some(a) ==> in_range(abs_int(v as int)) && a as int == abs_int(v as int),
        r is None ==> !in_range(abs_int(v as int)),
{
    if v >= 0 {
        Some(v)
    } else {
        (0i64).checked_sub(v)
    }
}

fn iv_un(op: UnOp, a: Interval) -> (r: Interval)
    ensures
        r@ == i_un(op, a@),
{
    match a {
        Interval::All => Interval::All,
        Interval::Fin { lo, hi } => match op {
            UnOp::Neg => {
                let nl = (0i64).checked_sub(hi);
                let nh = (0i64).checked_sub(lo);
                match nl {
                    Some(l2) => match nh {
                        Some(h2) => Interval::Fin { lo: l2, hi: h2 },
                        None => Interval::All,
                    },
                    None => Interval::All,
                }
            },
            UnOp::Abs => {
                if lo >= 0 {
                    Interval::Fin { lo, hi }
                } else if hi <= 0 {
                    let nl = (0i64).checked_sub(hi);
                    let nh = (0i64).checked_sub(lo);
                    match nl {
                        Some(l2) => match nh {
                            Some(h2) => Interval::Fin { lo: l2, hi: h2 },
                            None => Interval::All,
                        },
                        None => Interval::All,
                    }
                } else {
                    match (0i64).checked_sub(lo) {
                        Some(nl) => Interval::Fin { lo: 0, hi: if nl >= hi { nl } else { hi } },
                        None => Interval::All,
                    }
                }
            },
        },
    }
}

fn iv_bin(op: BinOp, a: Interval, b: Interval) -> (r: Interval)
    ensures
        r@ == i_bin(op, a@, b@),
{
    match a {
        Interval::All => Interval::All,
        Interval::Fin { lo: al, hi: ah } => match b {
            Interval::All => Interval::All,
            Interval::Fin { lo: bl, hi: bh } => match op {
                BinOp::Add => {
                    match al.checked_add(bl) {
                        Some(l2) => match ah.checked_add(bh) {
                            Some(h2) => Interval::Fin { lo: l2, hi: h2 },
                            None => Interval::All,
                        },
                        None => Interval::All,
                    }
                },
                BinOp::Sub => {
                    match al.checked_sub(bh) {
                        Some(l2) => match ah.checked_sub(bl) {
                            Some(h2) => Interval::Fin { lo: l2, hi: h2 },
                            None => Interval::All,
                        },
                        None => Interval::All,
                    }
                },
                BinOp::Mul => {
                    let p1 = al.checked_mul(bl);
                    let p2 = al.checked_mul(bh);
                    let p3 = ah.checked_mul(bl);
                    let p4 = ah.checked_mul(bh);
                    match p1 {
                        Some(q1) => match p2 {
                            Some(q2) => match p3 {
                                Some(q3) => match p4 {
                                    Some(q4) => {
                                        let lo12 = if q1 <= q2 { q1 } else { q2 };
                                        let lo34 = if q3 <= q4 { q3 } else { q4 };
                                        let hi12 = if q1 >= q2 { q1 } else { q2 };
                                        let hi34 = if q3 >= q4 { q3 } else { q4 };
                                        Interval::Fin {
                                            lo: if lo12 <= lo34 { lo12 } else { lo34 },
                                            hi: if hi12 >= hi34 { hi12 } else { hi34 },
                                        }
                                    },
                                    None => Interval::All,
                                },
                                None => Interval::All,
                            },
                            None => Interval::All,
                        },
                        None => Interval::All,
                    }
                },
                BinOp::Div => {
                    if bl <= 0 && 0 <= bh {
                        Interval::All
                    } else {
                        match abs_checked(al) {
                            Some(ma) => match abs_checked(ah) {
                                Some(mb) => {
                                    let m = if ma >= mb { ma } else { mb };
                                    Interval::Fin { lo: 0 - m, hi: m }
                                },
                                None => Interval::All,
                            },
                            None => Interval::All,
                        }
                    }
                },
                BinOp::Min => Interval::Fin {
                    lo: if al <= bl { al } else { bl },
                    hi: if ah <= bh { ah } else { bh },
                },
                BinOp::Max => Interval::Fin {
                    lo: if al >= bl { al } else { bl },
                    hi: if ah >= bh { ah } else { bh },
                },
            },
        },
    }
}

/// The `Interval` context of an evaluation call, as mathematical ranges.
pub open spec fn ivals_of(s: Seq<Interval>) -> Seq<IVal> {
    Seq::new(s.len(), |k: int| s[k]@)
}

pub open spec fn imemo_ok(s: Seq<Node>, icx: Seq<IVal>, memo: Seq<Option<Interval>>) -> bool {
    &&& memo.len() == s.len()
    &&& forall|j: int| 0 <= j < memo.len() ==> ((#[trigger] memo[j]) matches Some(v)
        ==> v@ == ieval(s, j, icx))
}

impl Arena {
    fn ieval_node(&self, i: usize, icx: &Vec<Interval>, memo: &mut Vec<Option<Interval>>) -> (r:
        Interval)
        requires
            nodes_wf(self@),
            (i as int) < self@.len(),
            imemo_ok(self@, ivals_of(icx@), old(memo)@),
        ensures
            imemo_ok(self@, ivals_of(icx@), final(memo)@),
            r@ == ieval(self@, i as int, ivals_of(icx@)),
        decreases i,
    {
        let ghost icxs = ivals_of(icx@);
        let cached: Option<Interval> = memo[i];
        match cached {
            Some(v) => {
                return v;
            },
            None => {},
        }
        let n = self.get_node(i);
        proof {
            assert(node_valid(self@[i as int], i as int));
        }
        let computed: Interval = match n {
            Node::Const { value } => Interval::Fin { lo: value, hi: value },
            Node::Var { index } => {
                if index < icx.len() {
                    icx[index]
                } else {
                    Interval::All
                }
            },
            Node::Unary { op, child } => {
                let c = self.ieval_node(child, icx, memo);
                iv_un(op, c)
            },
            Node::Binary { op, lhs, rhs } => {
                let l = self.ieval_node(lhs, icx, memo);
                let rv = self.ieval_node(rhs, icx, memo);
                iv_bin(op, l, rv)
            },
        };
        let ghost memo_before = memo@;
        memo[i] = Some(computed);
        proof {
            assert forall|j: int|
                0 <= j < memo@.len() implies ((#[trigger] memo@[j]) matches Some(v) ==> v@ == ieval(
                self@,
                j,
                icxs,
            )) by {
                if j != i {
                    assert(memo@[j] == memo_before[j]);
                }
            }
        }
        computed
    }

    /// Evaluate the tree rooted at `root` over a box: context slot `k` binds
    /// variable `k` to a range. For a handle of this arena the call always
    /// succeeds, and the result encloses every scalar evaluation at a point
    /// of the box; see `lemma_interval_sound`.
    pub fn eval_interval(&self, root: NodeRef, boxes: &Vec<Interval>) -> (r: Result<
        Interval,
        Error,
    >)
        requires
            nodes_wf(self@),
        ensures
            (root.index as int) < self@.len() ==> (r matches Ok(iv) && iv@ == ieval(
                self@,
                root.index as int,
                ivals_of(boxes@),
            )),
            (root.index as int) >= self@.len() ==> r == Err::<Interval, Error>(
                Error::ArenaMismatch,
            ),
    {
        if !self.owns(root) {
            return Err(Error::ArenaMismatch);
        }
        let n = self.len();
        let mut memo: Vec<Option<Interval>> = Vec::new();
        while memo.len() < n
            invariant
                memo@.len() <= n,
                n == self@.len(),
                forall|j: int| 0 <= j < memo@.len() ==> (#[trigger] memo@[j]) is None,
            decreases n - memo@.len(),
        {
            memo.push(None);
        }
        Ok(self.ieval_node(root.index, boxes, &mut memo))
    }
}

} // verus!
