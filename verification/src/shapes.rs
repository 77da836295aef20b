//! Named shape constructors: pre-built expression trees over the builder.
//!
//! Every shape is a pure composition of builder combinators; its sign
//! encodes inside (negative), surface (zero) and outside (positive) on the
//! fixed-point grid. The round shapes (circle, sphere, torus) deliberately
//! carry squared-offset fields rather than Euclidean distance fields: a
//! distance field needs a square root, which has no exact value on the
//! integer grid. The squared field has the same zero set and the same sign
//! everywhere, but its magnitudes and its Gradient-mode derivatives are
//! those of the quadric (for a sphere, `2*(p - centre)`, radially outward
//! but not unit length), not of the distance. Transcendental primitives
//! whose formulas leave the grid are not provided. Each constructor's
//! contract states the shape's formula: wherever the formula evaluates to
//! a value, the built tree evaluates to that same value.

use vstd::prelude::*;
use crate::node::{Node, NodeRef, UnOp, BinOp, nodes_wf, extends};
use crate::arena::{Arena, spec_intern, lemma_intern_props};
use crate::builder::{
    spec_make_unary, spec_make_binary, lemma_make_unary_eval, lemma_make_binary_eval,
};
use crate::interval::{IVal, ieval};
use crate::semantics::{SVal, seval, bin_sval, un_sval, in_range, tdiv, lemma_seval_prefix};

verus! {

pub open spec fn v_var(p: Seq<int>, k: int) -> SVal {
    if 0 <= k < p.len() {
        SVal::Num(p[k])
    } else {
        SVal::Free
    }
}

pub open spec fn v_num(c: i64) -> SVal {
    SVal::Num(c as int)
}

pub open spec fn v_bin(op: BinOp, a: SVal, b: SVal) -> SVal {
    bin_sval(op, a, b)
}

pub open spec fn v_neg(a: SVal) -> SVal {
    un_sval(UnOp::Neg, a)
}

pub open spec fn v_sq(a: SVal) -> SVal {
    bin_sval(BinOp::Mul, a, a)
}

/// The lower and upper corner the centered box reaches on one axis: the
/// centre moved by half the full width, truncated toward zero on the grid
/// (an odd width is narrowed by one grid unit).
pub open spec fn centered_lo(c: i64, w: i64) -> i64 {
    (c - tdiv(w as int, 2)) as i64
}

pub open spec fn centered_hi(c: i64, w: i64) -> i64 {
    (c + tdiv(w as int, 2)) as i64
}

/// The corner rounding moved inward on the grid; exact under the
/// constructor's range conditions.
pub open spec fn off_add(a: i64, b: i64) -> i64 {
    (a + b) as i64
}

pub open spec fn off_sub(a: i64, b: i64) -> i64 {
    (a - b) as i64
}

/// Squared distance to a centre in the XY plane, minus the squared radius.
pub open spec fn circle_val(p: Seq<int>, r: i64, cx: i64, cy: i64) -> SVal {
    v_bin(
        BinOp::Sub,
        v_bin(
            BinOp::Add,
            v_sq(v_bin(BinOp::Sub, v_var(p, 0), v_num(cx))),
            v_sq(v_bin(BinOp::Sub, v_var(p, 1), v_num(cy))),
        ),
        v_sq(v_num(r)),
    )
}

/// Inside exactly between the two bounds along one axis.
pub open spec fn slab_val(p: Seq<int>, axis: int, lo: i64, hi: i64) -> SVal {
    v_bin(
        BinOp::Max,
        v_bin(BinOp::Sub, v_num(lo), v_var(p, axis)),
        v_bin(BinOp::Sub, v_var(p, axis), v_num(hi)),
    )
}

pub open spec fn ring_val(p: Seq<int>, ro: i64, ri: i64, cx: i64, cy: i64) -> SVal {
    v_bin(BinOp::Max, circle_val(p, ro, cx, cy), v_neg(circle_val(p, ri, cx, cy)))
}

pub open spec fn rectangle_val(p: Seq<int>, ax: i64, ay: i64, bx: i64, by: i64) -> SVal {
    v_bin(BinOp::Max, slab_val(p, 0, ax, bx), slab_val(p, 1, ay, by))
}

/// The two inset rectangles of a rounded rectangle, united.
pub open spec fn round_rects_val(
    p: Seq<int>,
    ax: i64,
    ay: i64,
    bx: i64,
    by: i64,
    xl: i64,
    yl: i64,
    xh: i64,
    yh: i64,
) -> SVal {
    v_bin(BinOp::Min, rectangle_val(p, ax, yl, bx, yh), rectangle_val(p, xl, ay, xh, by))
}

/// The four corner circles of a rounded rectangle, united.
pub open spec fn round_corners_val(
    p: Seq<int>,
    r: i64,
    xl: i64,
    yl: i64,
    xh: i64,
    yh: i64,
) -> SVal {
    v_bin(
        BinOp::Min,
        v_bin(BinOp::Min, circle_val(p, r, xl, yl), circle_val(p, r, xh, yl)),
        v_bin(BinOp::Min, circle_val(p, r, xl, yh), circle_val(p, r, xh, yh)),
    )
}

/// A rectangle with its four corners rounded to radius `r`: the union
/// (pointwise minimum) of two inset rectangles and four corner circles.
pub open spec fn rounded_rectangle_val(
    p: Seq<int>,
    ax: i64,
    ay: i64,
    bx: i64,
    by: i64,
    r: i64,
) -> SVal {
    let xl = off_add(ax, r);
    let yl = off_add(ay, r);
    let xh = off_sub(bx, r);
    let yh = off_sub(by, r);
    v_bin(
        BinOp::Min,
        round_rects_val(p, ax, ay, bx, by, xl, yl, xh, yh),
        round_corners_val(p, r, xl, yl, xh, yh),
    )
}

/// One oriented triangle edge from `u` to `v`: negative on the left side,
/// where a counter-clockwise triangle's interior lies.
pub open spec fn edge_val(p: Seq<int>, ux: i64, uy: i64, vx: i64, vy: i64) -> SVal {
    v_bin(
        BinOp::Sub,
        v_bin(
            BinOp::Mul,
            v_bin(BinOp::Sub, v_num(vy), v_num(uy)),
            v_bin(BinOp::Sub, v_var(p, 0), v_num(ux)),
        ),
        v_bin(
            BinOp::Mul,
            v_bin(BinOp::Sub, v_num(vx), v_num(ux)),
            v_bin(BinOp::Sub, v_var(p, 1), v_num(uy)),
        ),
    )
}

/// A triangle with counter-clockwise corners: the intersection (pointwise
/// maximum) of its three oriented edge half-planes.
pub open spec fn triangle_val(
    p: Seq<int>,
    ax: i64,
    ay: i64,
    bx: i64,
    by: i64,
    cx: i64,
    cy: i64,
) -> SVal {
    v_bin(
        BinOp::Max,
        v_bin(BinOp::Max, edge_val(p, ax, ay, bx, by), edge_val(p, bx, by, cx, cy)),
        edge_val(p, cx, cy, ax, ay),
    )
}

/// Twice the signed area of the triangle: positive exactly when the
/// corners run counter-clockwise.
pub open spec fn area2(ax: i64, ay: i64, bx: i64, by: i64, cx: i64, cy: i64) -> int {
    (bx - ax) * (cy - ay) - (by - ay) * (cx - ax)
}

pub open spec fn box_mitered_val(
    p: Seq<int>,
    ax: i64,
    ay: i64,
    az: i64,
    bx: i64,
    by: i64,
    bz: i64,
) -> SVal {
    v_bin(
        BinOp::Max,
        v_bin(BinOp::Max, slab_val(p, 0, ax, bx), slab_val(p, 1, ay, by)),
        slab_val(p, 2, az, bz),
    )
}

pub open spec fn sphere_val(p: Seq<int>, r: i64, cx: i64, cy: i64, cz: i64) -> SVal {
    v_bin(
        BinOp::Sub,
        v_bin(
            BinOp::Add,
            v_bin(
                BinOp::Add,
                v_sq(v_bin(BinOp::Sub, v_var(p, 0), v_num(cx))),
                v_sq(v_bin(BinOp::Sub, v_var(p, 1), v_num(cy))),
            ),
            v_sq(v_bin(BinOp::Sub, v_var(p, 2), v_num(cz))),
        ),
        v_sq(v_num(r)),
    )
}

/// The signed side of a plane through a point with an integer normal.
pub open spec fn half_space_val(
    p: Seq<int>,
    nx: i64,
    ny: i64,
    nz: i64,
    px: i64,
    py: i64,
    pz: i64,
) -> SVal {
    v_bin(
        BinOp::Add,
        v_bin(
            BinOp::Add,
            v_bin(BinOp::Mul, v_num(nx), v_bin(BinOp::Sub, v_var(p, 0), v_num(px))),
            v_bin(BinOp::Mul, v_num(ny), v_bin(BinOp::Sub, v_var(p, 1), v_num(py))),
        ),
        v_bin(BinOp::Mul, v_num(nz), v_bin(BinOp::Sub, v_var(p, 2), v_num(pz))),
    )
}

/// The torus about the Z axis through `center`, with outer radius `ro` and
/// inner radius `ri` of the hole, as a ring has them: the tube's midline
/// lies at distance `(ro+ri)/2` from the axis. For a major radius `R` and
/// tube radius `r` the torus is the quartic `(q + R^2 - r^2)^2 - 4 R^2 (sx
/// + sy)` with `q = sx + sy + sz` the squared offsets; here `R^2 - r^2 ==
/// ro*ri` and `4 R^2 == (ro+ri)^2`, so the form stays on the grid.
pub open spec fn torus_z_val(p: Seq<int>, ro: i64, ri: i64, cx: i64, cy: i64, cz: i64) -> SVal {
    let a = v_bin(BinOp::Add, torus_q_val(p, cx, cy, cz), v_bin(BinOp::Mul, v_num(ro), v_num(ri)));
    v_bin(
        BinOp::Sub,
        v_sq(a),
        v_bin(
            BinOp::Mul,
            v_sq(v_bin(BinOp::Add, v_num(ro), v_num(ri))),
            torus_sxy_val(p, cx, cy),
        ),
    )
}

/// The squared XY offset sum of the torus, and the full squared offset sum.
pub open spec fn torus_sxy_val(p: Seq<int>, cx: i64, cy: i64) -> SVal {
    v_bin(
        BinOp::Add,
        v_sq(v_bin(BinOp::Sub, v_var(p, 0), v_num(cx))),
        v_sq(v_bin(BinOp::Sub, v_var(p, 1), v_num(cy))),
    )
}

pub open spec fn torus_q_val(p: Seq<int>, cx: i64, cy: i64, cz: i64) -> SVal {
    v_bin(BinOp::Add, torus_sxy_val(p, cx, cy), v_sq(v_bin(BinOp::Sub, v_var(p, 2), v_num(cz))))
}

/// The quadric side of a cone along Z with base radius `r` at `zmin` and
/// apex at `zmax`: inside where the radial offset, scaled by the height,
/// stays below the linearly shrinking radius.
pub open spec fn cone_side_val(
    p: Seq<int>,
    r: i64,
    zmin: i64,
    zmax: i64,
    cx: i64,
    cy: i64,
) -> SVal {
    v_bin(
        BinOp::Sub,
        v_bin(
            BinOp::Mul,
            v_sq(v_bin(BinOp::Sub, v_num(zmax), v_num(zmin))),
            torus_sxy_val(p, cx, cy),
        ),
        v_bin(BinOp::Mul, v_sq(v_num(r)), v_sq(v_bin(BinOp::Sub, v_num(zmax), v_var(p, 2)))),
    )
}

pub open spec fn cone_z_val(p: Seq<int>, r: i64, zmin: i64, zmax: i64, cx: i64, cy: i64) -> SVal {
    v_bin(BinOp::Max, cone_side_val(p, r, zmin, zmax, cx, cy), slab_val(p, 2, zmin, zmax))
}

/// The two slanted faces a pyramid has along one axis: at the base the
/// faces pass through `a1` and `b1`, and they meet over the midpoint at
/// height `h` above `zmin`. Multiplying through by twice the height keeps
/// the plane equations on the grid.
pub open spec fn pyr_axis_val(
    p: Seq<int>,
    h: i64,
    a1: i64,
    b1: i64,
    axis: int,
    zmin: i64,
) -> SVal {
    let th = v_bin(BinOp::Mul, v_num(2), v_num(h));
    let slant = v_bin(
        BinOp::Mul,
        v_bin(BinOp::Sub, v_num(b1), v_num(a1)),
        v_bin(BinOp::Sub, v_var(p, 2), v_num(zmin)),
    );
    v_bin(
        BinOp::Max,
        v_bin(BinOp::Add, v_bin(BinOp::Mul, th, v_bin(BinOp::Sub, v_var(p, axis), v_num(b1))), slant),
        v_bin(BinOp::Add, v_bin(BinOp::Mul, th, v_bin(BinOp::Sub, v_num(a1), v_var(p, axis))), slant),
    )
}

/// A pyramid over the rectangle from `a` to `b` at `zmin`, with its apex
/// at height `h` over the rectangle's centre.
pub open spec fn pyramid_z_val(
    p: Seq<int>,
    ax: i64,
    ay: i64,
    bx: i64,
    by: i64,
    zmin: i64,
    h: i64,
) -> SVal {
    v_bin(
        BinOp::Max,
        v_bin(
            BinOp::Max,
            pyr_axis_val(p, h, ax, bx, 0, zmin),
            pyr_axis_val(p, h, ay, by, 1, zmin),
        ),
        v_bin(BinOp::Sub, v_num(zmin), v_var(p, 2)),
    )
}

pub open spec fn cylinder_z_val(
    p: Seq<int>,
    r: i64,
    zmin: i64,
    zmax: i64,
    cx: i64,
    cy: i64,
) -> SVal {
    v_bin(BinOp::Max, circle_val(p, r, cx, cy), slab_val(p, 2, zmin, zmax))
}

/// What each constructor does to the store, step by step, so that building
/// the same shape twice from the same arguments returns the same handle:
/// every step goes through `spec_intern` or `spec_make_*`, which reuse an
/// existing node whenever a structurally identical one is interned.
pub open spec fn spec_sq_offset(s: Seq<Node>, axis: usize, c: i64) -> (Seq<Node>, int) {
    let (s1, v) = spec_intern(s, Node::Var { index: axis });
    let (s2, cn) = spec_intern(s1, Node::Const { value: c });
    let (s3, d) = spec_make_binary(s2, BinOp::Sub, v, cn);
    spec_make_binary(s3, BinOp::Mul, d, d)
}

pub open spec fn spec_circle(s: Seq<Node>, r: i64, cx: i64, cy: i64) -> (Seq<Node>, int) {
    let (s1, dx2) = spec_sq_offset(s, 0, cx);
    let (s2, dy2) = spec_sq_offset(s1, 1, cy);
    let (s3, sum) = spec_make_binary(s2, BinOp::Add, dx2, dy2);
    let (s4, rn) = spec_intern(s3, Node::Const { value: r });
    let (s5, r2) = spec_make_binary(s4, BinOp::Mul, rn, rn);
    spec_make_binary(s5, BinOp::Sub, sum, r2)
}

pub open spec fn spec_slab(s: Seq<Node>, axis: usize, lo: i64, hi: i64) -> (Seq<Node>, int) {
    let (s1, lon) = spec_intern(s, Node::Const { value: lo });
    let (s2, v1) = spec_intern(s1, Node::Var { index: axis });
    let (s3, below) = spec_make_binary(s2, BinOp::Sub, lon, v1);
    let (s4, v2) = spec_intern(s3, Node::Var { index: axis });
    let (s5, hin) = spec_intern(s4, Node::Const { value: hi });
    let (s6, above) = spec_make_binary(s5, BinOp::Sub, v2, hin);
    spec_make_binary(s6, BinOp::Max, below, above)
}

pub open spec fn spec_ring(s: Seq<Node>, ro: i64, ri: i64, cx: i64, cy: i64) -> (Seq<Node>, int) {
    let (s1, outer) = spec_circle(s, ro, cx, cy);
    let (s2, inner) = spec_circle(s1, ri, cx, cy);
    let (s3, n) = spec_make_unary(s2, UnOp::Neg, inner);
    spec_make_binary(s3, BinOp::Max, outer, n)
}

pub open spec fn spec_rectangle(s: Seq<Node>, ax: i64, ay: i64, bx: i64, by: i64) -> (
    Seq<Node>,
    int,
) {
    let (s1, sx) = spec_slab(s, 0, ax, bx);
    let (s2, sy) = spec_slab(s1, 1, ay, by);
    spec_make_binary(s2, BinOp::Max, sx, sy)
}

pub open spec fn spec_box_mitered(
    s: Seq<Node>,
    ax: i64,
    ay: i64,
    az: i64,
    bx: i64,
    by: i64,
    bz: i64,
) -> (Seq<Node>, int) {
    let (s1, sx) = spec_slab(s, 0, ax, bx);
    let (s2, sy) = spec_slab(s1, 1, ay, by);
    let (s3, sxy) = spec_make_binary(s2, BinOp::Max, sx, sy);
    let (s4, sz) = spec_slab(s3, 2, az, bz);
    spec_make_binary(s4, BinOp::Max, sxy, sz)
}

pub open spec fn spec_round_rects(
    s: Seq<Node>,
    ax: i64,
    ay: i64,
    bx: i64,
    by: i64,
    xl: i64,
    yl: i64,
    xh: i64,
    yh: i64,
) -> (Seq<Node>, int) {
    let (s1, r1) = spec_rectangle(s, ax, yl, bx, yh);
    let (s2, r2) = spec_rectangle(s1, xl, ay, xh, by);
    spec_make_binary(s2, BinOp::Min, r1, r2)
}

pub open spec fn spec_round_corners(s: Seq<Node>, r: i64, xl: i64, yl: i64, xh: i64, yh: i64) -> (
    Seq<Node>,
    int,
) {
    let (s4, c1) = spec_circle(s, r, xl, yl);
    let (s5, c2) = spec_circle(s4, r, xh, yl);
    let (s6, m12) = spec_make_binary(s5, BinOp::Min, c1, c2);
    let (s7, c3) = spec_circle(s6, r, xl, yh);
    let (s8, c4) = spec_circle(s7, r, xh, yh);
    let (s9, m34) = spec_make_binary(s8, BinOp::Min, c3, c4);
    spec_make_binary(s9, BinOp::Min, m12, m34)
}

pub open spec fn spec_rounded_rectangle(
    s: Seq<Node>,
    ax: i64,
    ay: i64,
    bx: i64,
    by: i64,
    r: i64,
) -> (Seq<Node>, int) {
    let xl = off_add(ax, r);
    let yl = off_add(ay, r);
    let xh = off_sub(bx, r);
    let yh = off_sub(by, r);
    let (s3, mrr) = spec_round_rects(s, ax, ay, bx, by, xl, yl, xh, yh);
    let (s10, mc) = spec_round_corners(s3, r, xl, yl, xh, yh);
    spec_make_binary(s10, BinOp::Min, mrr, mc)
}

pub open spec fn spec_edge(s: Seq<Node>, ux: i64, uy: i64, vx: i64, vy: i64) -> (Seq<Node>, int) {
    let (s1, vyn) = spec_intern(s, Node::Const { value: vy });
    let (s2, uyn) = spec_intern(s1, Node::Const { value: uy });
    let (s3, dy) = spec_make_binary(s2, BinOp::Sub, vyn, uyn);
    let (s4, xv) = spec_intern(s3, Node::Var { index: 0 });
    let (s5, uxn) = spec_intern(s4, Node::Const { value: ux });
    let (s6, xo) = spec_make_binary(s5, BinOp::Sub, xv, uxn);
    let (s7, m1) = spec_make_binary(s6, BinOp::Mul, dy, xo);
    let (s8, vxn) = spec_intern(s7, Node::Const { value: vx });
    let (s9, dx) = spec_make_binary(s8, BinOp::Sub, vxn, uxn);
    let (s10, yv) = spec_intern(s9, Node::Var { index: 1 });
    let (s11, yo) = spec_make_binary(s10, BinOp::Sub, yv, uyn);
    let (s12, m2) = spec_make_binary(s11, BinOp::Mul, dx, yo);
    spec_make_binary(s12, BinOp::Sub, m1, m2)
}

pub open spec fn spec_triangle(
    s: Seq<Node>,
    ax: i64,
    ay: i64,
    bx: i64,
    by: i64,
    cx: i64,
    cy: i64,
) -> (Seq<Node>, int) {
    let (s1, eab) = spec_edge(s, ax, ay, bx, by);
    let (s2, ebc) = spec_edge(s1, bx, by, cx, cy);
    let (s3, m1) = spec_make_binary(s2, BinOp::Max, eab, ebc);
    let (s4, eca) = spec_edge(s3, cx, cy, ax, ay);
    spec_make_binary(s4, BinOp::Max, m1, eca)
}

pub open spec fn spec_sphere(s: Seq<Node>, r: i64, cx: i64, cy: i64, cz: i64) -> (Seq<Node>, int) {
    let (s1, dx2) = spec_sq_offset(s, 0, cx);
    let (s2, dy2) = spec_sq_offset(s1, 1, cy);
    let (s3, sum2) = spec_make_binary(s2, BinOp::Add, dx2, dy2);
    let (s4, dz2) = spec_sq_offset(s3, 2, cz);
    let (s5, sum3) = spec_make_binary(s4, BinOp::Add, sum2, dz2);
    let (s6, rn) = spec_intern(s5, Node::Const { value: r });
    let (s7, r2) = spec_make_binary(s6, BinOp::Mul, rn, rn);
    spec_make_binary(s7, BinOp::Sub, sum3, r2)
}

pub open spec fn spec_half_space(
    s: Seq<Node>,
    nx: i64,
    ny: i64,
    nz: i64,
    px: i64,
    py: i64,
    pz: i64,
) -> (Seq<Node>, int) {
    let (s1, nxn) = spec_intern(s, Node::Const { value: nx });
    let (s2, x) = spec_intern(s1, Node::Var { index: 0 });
    let (s3, pxn) = spec_intern(s2, Node::Const { value: px });
    let (s4, dx) = spec_make_binary(s3, BinOp::Sub, x, pxn);
    let (s5, mx) = spec_make_binary(s4, BinOp::Mul, nxn, dx);
    let (s6, nyn) = spec_intern(s5, Node::Const { value: ny });
    let (s7, y) = spec_intern(s6, Node::Var { index: 1 });
    let (s8, pyn) = spec_intern(s7, Node::Const { value: py });
    let (s9, dy) = spec_make_binary(s8, BinOp::Sub, y, pyn);
    let (s10, my) = spec_make_binary(s9, BinOp::Mul, nyn, dy);
    let (s11, mxy) = spec_make_binary(s10, BinOp::Add, mx, my);
    let (s12, nzn) = spec_intern(s11, Node::Const { value: nz });
    let (s13, z) = spec_intern(s12, Node::Var { index: 2 });
    let (s14, pzn) = spec_intern(s13, Node::Const { value: pz });
    let (s15, dz) = spec_make_binary(s14, BinOp::Sub, z, pzn);
    let (s16, mz) = spec_make_binary(s15, BinOp::Mul, nzn, dz);
    spec_make_binary(s16, BinOp::Add, mxy, mz)
}

pub open spec fn spec_cylinder_z(s: Seq<Node>, r: i64, zmin: i64, zmax: i64, cx: i64, cy: i64) -> (
    Seq<Node>,
    int,
) {
    let (s1, c) = spec_circle(s, r, cx, cy);
    let (s2, sl) = spec_slab(s1, 2, zmin, zmax);
    spec_make_binary(s2, BinOp::Max, c, sl)
}

pub open spec fn spec_pyr_axis(s: Seq<Node>, h: i64, a1: i64, b1: i64, axis: usize, zmin: i64) -> (
    Seq<Node>,
    int,
) {
    let (s1, two) = spec_intern(s, Node::Const { value: 2 });
    let (s2, hn) = spec_intern(s1, Node::Const { value: h });
    let (s3, th) = spec_make_binary(s2, BinOp::Mul, two, hn);
    let (s4, b1n) = spec_intern(s3, Node::Const { value: b1 });
    let (s5, a1n) = spec_intern(s4, Node::Const { value: a1 });
    let (s6, sl) = spec_make_binary(s5, BinOp::Sub, b1n, a1n);
    let (s7, zv) = spec_intern(s6, Node::Var { index: 2 });
    let (s8, zmn) = spec_intern(s7, Node::Const { value: zmin });
    let (s9, zo) = spec_make_binary(s8, BinOp::Sub, zv, zmn);
    let (s10, slant) = spec_make_binary(s9, BinOp::Mul, sl, zo);
    let (s11, vax) = spec_intern(s10, Node::Var { index: axis });
    let (s12, d1) = spec_make_binary(s11, BinOp::Sub, vax, b1n);
    let (s13, m1) = spec_make_binary(s12, BinOp::Mul, th, d1);
    let (s14, f1) = spec_make_binary(s13, BinOp::Add, m1, slant);
    let (s15, d2) = spec_make_binary(s14, BinOp::Sub, a1n, vax);
    let (s16, m2) = spec_make_binary(s15, BinOp::Mul, th, d2);
    let (s17, f2) = spec_make_binary(s16, BinOp::Add, m2, slant);
    spec_make_binary(s17, BinOp::Max, f1, f2)
}

pub open spec fn spec_pyramid_z(
    s: Seq<Node>,
    ax: i64,
    ay: i64,
    bx: i64,
    by: i64,
    zmin: i64,
    h: i64,
) -> (Seq<Node>, int) {
    let (s1, fx) = spec_pyr_axis(s, h, ax, bx, 0, zmin);
    let (s2, fy) = spec_pyr_axis(s1, h, ay, by, 1, zmin);
    let (s3, fxy) = spec_make_binary(s2, BinOp::Max, fx, fy);
    let (s4, zmn) = spec_intern(s3, Node::Const { value: zmin });
    let (s5, zv) = spec_intern(s4, Node::Var { index: 2 });
    let (s6, base) = spec_make_binary(s5, BinOp::Sub, zmn, zv);
    spec_make_binary(s6, BinOp::Max, fxy, base)
}

pub open spec fn spec_cone_side(
    s: Seq<Node>,
    r: i64,
    zmin: i64,
    zmax: i64,
    cx: i64,
    cy: i64,
) -> (Seq<Node>, int) {
    let (s1, sx) = spec_sq_offset(s, 0, cx);
    let (s2, sy) = spec_sq_offset(s1, 1, cy);
    let (s3, sxy) = spec_make_binary(s2, BinOp::Add, sx, sy);
    let (s4, zmaxn) = spec_intern(s3, Node::Const { value: zmax });
    let (s5, zminn) = spec_intern(s4, Node::Const { value: zmin });
    let (s6, hd) = spec_make_binary(s5, BinOp::Sub, zmaxn, zminn);
    let (s7, hd2) = spec_make_binary(s6, BinOp::Mul, hd, hd);
    let (s8, lhs) = spec_make_binary(s7, BinOp::Mul, hd2, sxy);
    let (s9, rn) = spec_intern(s8, Node::Const { value: r });
    let (s10, r2) = spec_make_binary(s9, BinOp::Mul, rn, rn);
    let (s11, zv) = spec_intern(s10, Node::Var { index: 2 });
    let (s12, up) = spec_make_binary(s11, BinOp::Sub, zmaxn, zv);
    let (s13, up2) = spec_make_binary(s12, BinOp::Mul, up, up);
    let (s14, rhs) = spec_make_binary(s13, BinOp::Mul, r2, up2);
    spec_make_binary(s14, BinOp::Sub, lhs, rhs)
}

pub open spec fn spec_cone_z(s: Seq<Node>, r: i64, zmin: i64, zmax: i64, cx: i64, cy: i64) -> (
    Seq<Node>,
    int,
) {
    let (s1, side) = spec_cone_side(s, r, zmin, zmax, cx, cy);
    let (s2, sl) = spec_slab(s1, 2, zmin, zmax);
    spec_make_binary(s2, BinOp::Max, side, sl)
}

pub open spec fn spec_torus_q(s: Seq<Node>, cx: i64, cy: i64, cz: i64) -> (Seq<Node>, int, int) {
    let (s1, sx) = spec_sq_offset(s, 0, cx);
    let (s2, sy) = spec_sq_offset(s1, 1, cy);
    let (s3, sxy) = spec_make_binary(s2, BinOp::Add, sx, sy);
    let (s4, sz) = spec_sq_offset(s3, 2, cz);
    let (s5, q) = spec_make_binary(s4, BinOp::Add, sxy, sz);
    (s5, sxy, q)
}

pub open spec fn spec_torus_z(s: Seq<Node>, ro: i64, ri: i64, cx: i64, cy: i64, cz: i64) -> (
    Seq<Node>,
    int,
) {
    let (s5, sxy, q) = spec_torus_q(s, cx, cy, cz);
    let (s6, ron) = spec_intern(s5, Node::Const { value: ro });
    let (s7, rin) = spec_intern(s6, Node::Const { value: ri });
    let (s8, prod) = spec_make_binary(s7, BinOp::Mul, ron, rin);
    let (s9, a) = spec_make_binary(s8, BinOp::Add, q, prod);
    let (s10, a2) = spec_make_binary(s9, BinOp::Mul, a, a);
    let (s11, rsum) = spec_make_binary(s10, BinOp::Add, ron, rin);
    let (s12, rsum2) = spec_make_binary(s11, BinOp::Mul, rsum, rsum);
    let (s13, b) = spec_make_binary(s12, BinOp::Mul, rsum2, sxy);
    spec_make_binary(s13, BinOp::Sub, a2, b)
}

/// Assembles the step tuples of the torus construction into its one-call
/// description, so the constructor's own check stays small.
proof fn lemma_torus_chain(
    s0: Seq<Node>,
    s5: Seq<Node>,
    s6: Seq<Node>,
    s7: Seq<Node>,
    s8: Seq<Node>,
    s9: Seq<Node>,
    s10: Seq<Node>,
    s11: Seq<Node>,
    s12: Seq<Node>,
    s13: Seq<Node>,
    s14: Seq<Node>,
    r_sxy: int,
    r_q: int,
    r_ron: int,
    r_rin: int,
    r_prod: int,
    r_a: int,
    r_a2: int,
    r_rsum: int,
    r_rsum2: int,
    r_b: int,
    r_t: int,
    ro: i64,
    ri: i64,
    cx: i64,
    cy: i64,
    cz: i64,
)
    requires
        (s5, r_sxy, r_q) == spec_torus_q(s0, cx, cy, cz),
        (s6, r_ron) == spec_intern(s5, (Node::Const { value: ro })),
        (s7, r_rin) == spec_intern(s6, (Node::Const { value: ri })),
        (s8, r_prod) == spec_make_binary(s7, BinOp::Mul, r_ron, r_rin),
        (s9, r_a) == spec_make_binary(s8, BinOp::Add, r_q, r_prod),
        (s10, r_a2) == spec_make_binary(s9, BinOp::Mul, r_a, r_a),
        (s11, r_rsum) == spec_make_binary(s10, BinOp::Add, r_ron, r_rin),
        (s12, r_rsum2) == spec_make_binary(s11, BinOp::Mul, r_rsum, r_rsum),
        (s13, r_b) == spec_make_binary(s12, BinOp::Mul, r_rsum2, r_sxy),
        (s14, r_t) == spec_make_binary(s13, BinOp::Sub, r_a2, r_b),
    ensures
        (s14, r_t) == spec_torus_z(s0, ro, ri, cx, cy, cz),
{
}

pub(crate) fn term_var(ar: &mut Arena, k: usize) -> (t: NodeRef)
    requires
        nodes_wf(old(ar)@),
    ensures
        nodes_wf(final(ar)@),
        extends(final(ar)@, old(ar)@),
        (t.index as int) < final(ar)@.len(),
        (final(ar)@, t.index as int) == spec_intern(old(ar)@, (Node::Var { index: k })),
        forall|p: Seq<int>| #[trigger] seval(final(ar)@, t.index as int, p) == v_var(p, k as int),
        forall|p: Seq<int>, j: int|
            0 <= j < old(ar)@.len() ==> #[trigger] seval(final(ar)@, j, p) == seval(old(ar)@, j, p),
{
    let t = ar.var(k);
    proof {
        assert(ar@[t.index as int] == (Node::Var { index: k }));
        assert forall|p: Seq<int>, j: int|
            0 <= j < old(ar)@.len() implies #[trigger] seval(ar@, j, p) == seval(
            old(ar)@,
            j,
            p,
        ) by {
            lemma_seval_prefix(old(ar)@, ar@, j, p);
        }
    }
    t
}

pub(crate) fn term_num(ar: &mut Arena, c: i64) -> (t: NodeRef)
    requires
        nodes_wf(old(ar)@),
    ensures
        nodes_wf(final(ar)@),
        extends(final(ar)@, old(ar)@),
        (t.index as int) < final(ar)@.len(),
        (final(ar)@, t.index as int) == spec_intern(old(ar)@, (Node::Const { value: c })),
        forall|p: Seq<int>| #[trigger] seval(final(ar)@, t.index as int, p) == v_num(c),
        forall|p: Seq<int>, j: int|
            0 <= j < old(ar)@.len() ==> #[trigger] seval(final(ar)@, j, p) == seval(old(ar)@, j, p),
{
    let t = ar.constant(c);
    proof {
        assert(ar@[t.index as int] == (Node::Const { value: c }));
        assert forall|p: Seq<int>, j: int|
            0 <= j < old(ar)@.len() implies #[trigger] seval(ar@, j, p) == seval(
            old(ar)@,
            j,
            p,
        ) by {
            lemma_seval_prefix(old(ar)@, ar@, j, p);
        }
    }
    t
}

pub(crate) fn term_bin(ar: &mut Arena, op: BinOp, x: NodeRef, y: NodeRef) -> (t: NodeRef)
    requires
        nodes_wf(old(ar)@),
        (x.index as int) < old(ar)@.len(),
        (y.index as int) < old(ar)@.len(),
    ensures
        nodes_wf(final(ar)@),
        extends(final(ar)@, old(ar)@),
        (t.index as int) < final(ar)@.len(),
        (final(ar)@, t.index as int) == spec_make_binary(
            old(ar)@,
            op,
            x.index as int,
            y.index as int,
        ),
        forall|p: Seq<int>|
            bin_sval(op, seval(old(ar)@, x.index as int, p), seval(old(ar)@, y.index as int, p))
                is Num ==> #[trigger] seval(final(ar)@, t.index as int, p) == bin_sval(
                op,
                seval(old(ar)@, x.index as int, p),
                seval(old(ar)@, y.index as int, p),
            ),
        forall|p: Seq<int>, j: int|
            0 <= j < old(ar)@.len() ==> #[trigger] seval(final(ar)@, j, p) == seval(old(ar)@, j, p),
{
    proof {
        ar.lemma_len_bounded();
    }
    let t = ar.make_binary(op, x, y);
    proof {
        assert forall|p: Seq<int>|
            bin_sval(op, seval(old(ar)@, x.index as int, p), seval(old(ar)@, y.index as int, p))
                is Num implies #[trigger] seval(ar@, t.index as int, p) == bin_sval(
            op,
            seval(old(ar)@, x.index as int, p),
            seval(old(ar)@, y.index as int, p),
        ) by {
            lemma_make_binary_eval(old(ar)@, op, x.index as int, y.index as int, p);
        }
        assert forall|p: Seq<int>, j: int|
            0 <= j < old(ar)@.len() implies #[trigger] seval(ar@, j, p) == seval(
            old(ar)@,
            j,
            p,
        ) by {
            lemma_seval_prefix(old(ar)@, ar@, j, p);
        }
    }
    t
}

pub(crate) fn term_un(ar: &mut Arena, op: UnOp, x: NodeRef) -> (t: NodeRef)
    requires
        nodes_wf(old(ar)@),
        (x.index as int) < old(ar)@.len(),
    ensures
        nodes_wf(final(ar)@),
        extends(final(ar)@, old(ar)@),
        (t.index as int) < final(ar)@.len(),
        (final(ar)@, t.index as int) == spec_make_unary(old(ar)@, op, x.index as int),
        forall|p: Seq<int>|
            un_sval(op, seval(old(ar)@, x.index as int, p)) is Num ==> #[trigger] seval(
                final(ar)@,
                t.index as int,
                p,
            ) == un_sval(op, seval(old(ar)@, x.index as int, p)),
        forall|p: Seq<int>, j: int|
            0 <= j < old(ar)@.len() ==> #[trigger] seval(final(ar)@, j, p) == seval(old(ar)@, j, p),
{
    proof {
        ar.lemma_len_bounded();
    }
    let t = ar.make_unary(op, x);
    proof {
        assert forall|p: Seq<int>|
            un_sval(op, seval(old(ar)@, x.index as int, p)) is Num implies #[trigger] seval(
            ar@,
            t.index as int,
            p,
        ) == un_sval(op, seval(old(ar)@, x.index as int, p)) by {
            lemma_make_unary_eval(old(ar)@, op, x.index as int, p);
        }
        assert forall|p: Seq<int>, j: int|
            0 <= j < old(ar)@.len() implies #[trigger] seval(ar@, j, p) == seval(
            old(ar)@,
            j,
            p,
        ) by {
            lemma_seval_prefix(old(ar)@, ar@, j, p);
        }
    }
    t
}

fn term_sq_offset(ar: &mut Arena, axis: usize, c: i64) -> (t: NodeRef)
    requires
        nodes_wf(old(ar)@),
    ensures
        nodes_wf(final(ar)@),
        extends(final(ar)@, old(ar)@),
        (t.index as int) < final(ar)@.len(),
        (final(ar)@, t.index as int) == spec_sq_offset(old(ar)@, axis, c),
        forall|p: Seq<int>|
            v_sq(v_bin(BinOp::Sub, v_var(p, axis as int), v_num(c))) is Num ==> #[trigger] seval(
                final(ar)@,
                t.index as int,
                p,
            ) == v_sq(v_bin(BinOp::Sub, v_var(p, axis as int), v_num(c))),
        forall|p: Seq<int>, j: int|
            0 <= j < old(ar)@.len() ==> #[trigger] seval(final(ar)@, j, p) == seval(old(ar)@, j, p),
{
    let v = term_var(ar, axis);
    let cn = term_num(ar, c);
    let d = term_bin(ar, BinOp::Sub, v, cn);
    let t = term_bin(ar, BinOp::Mul, d, d);
    t
}

fn term_circle(ar: &mut Arena, r: i64, cx: i64, cy: i64) -> (t: NodeRef)
    requires
        nodes_wf(old(ar)@),
    ensures
        nodes_wf(final(ar)@),
        extends(final(ar)@, old(ar)@),
        (t.index as int) < final(ar)@.len(),
        (final(ar)@, t.index as int) == spec_circle(old(ar)@, r, cx, cy),
        forall|p: Seq<int>|
            circle_val(p, r, cx, cy) is Num ==> #[trigger] seval(final(ar)@, t.index as int, p)
                == circle_val(p, r, cx, cy),
        forall|p: Seq<int>, j: int|
            0 <= j < old(ar)@.len() ==> #[trigger] seval(final(ar)@, j, p) == seval(old(ar)@, j, p),
{
    let dx2 = term_sq_offset(ar, 0, cx);
    let dy2 = term_sq_offset(ar, 1, cy);
    let sum = term_bin(ar, BinOp::Add, dx2, dy2);
    let rn = term_num(ar, r);
    let r2 = term_bin(ar, BinOp::Mul, rn, rn);
    let t = term_bin(ar, BinOp::Sub, sum, r2);
    t
}

fn term_slab(ar: &mut Arena, axis: usize, lo: i64, hi: i64) -> (t: NodeRef)
    requires
        nodes_wf(old(ar)@),
    ensures
        nodes_wf(final(ar)@),
        extends(final(ar)@, old(ar)@),
        (t.index as int) < final(ar)@.len(),
        (final(ar)@, t.index as int) == spec_slab(old(ar)@, axis, lo, hi),
        forall|p: Seq<int>|
            slab_val(p, axis as int, lo, hi) is Num ==> #[trigger] seval(
                final(ar)@,
                t.index as int,
                p,
            ) == slab_val(p, axis as int, lo, hi),
        forall|p: Seq<int>, j: int|
            0 <= j < old(ar)@.len() ==> #[trigger] seval(final(ar)@, j, p) == seval(old(ar)@, j, p),
{
    let lon = term_num(ar, lo);
    let v1 = term_var(ar, axis);
    let below = term_bin(ar, BinOp::Sub, lon, v1);
    let v2 = term_var(ar, axis);
    let hin = term_num(ar, hi);
    let above = term_bin(ar, BinOp::Sub, v2, hin);
    let t = term_bin(ar, BinOp::Max, below, above);
    t
}

fn term_round_rects(
    ar: &mut Arena,
    ax: i64,
    ay: i64,
    bx: i64,
    by: i64,
    xl: i64,
    yl: i64,
    xh: i64,
    yh: i64,
) -> (t: NodeRef)
    requires
        nodes_wf(old(ar)@),
    ensures
        nodes_wf(final(ar)@),
        extends(final(ar)@, old(ar)@),
        (t.index as int) < final(ar)@.len(),
        (final(ar)@, t.index as int) == spec_round_rects(old(ar)@, ax, ay, bx, by, xl, yl, xh, yh),
        forall|p: Seq<int>|
            round_rects_val(p, ax, ay, bx, by, xl, yl, xh, yh) is Num ==> #[trigger] seval(
                final(ar)@,
                t.index as int,
                p,
            ) == round_rects_val(p, ax, ay, bx, by, xl, yl, xh, yh),
        forall|p: Seq<int>, j: int|
            0 <= j < old(ar)@.len() ==> #[trigger] seval(final(ar)@, j, p) == seval(old(ar)@, j, p),
{
    let ghost h0 = ar@;
    let r1 = ar.rectangle(ax, yl, bx, yh);
    let ghost h1 = ar@;
    let r2 = ar.rectangle(xl, ay, xh, by);
    let ghost h2 = ar@;
    let t = term_bin(ar, BinOp::Min, r1, r2);
    proof {
        crate::node::lemma_extends_trans(h0, h1, h2);
        crate::node::lemma_extends_trans(h0, h2, ar@);
        assert forall|p: Seq<int>, j: int|
            0 <= j < h0.len() implies #[trigger] seval(ar@, j, p) == seval(h0, j, p) by {
            lemma_seval_prefix(h0, ar@, j, p);
        }
        assert forall|p: Seq<int>|
            round_rects_val(p, ax, ay, bx, by, xl, yl, xh, yh) is Num implies #[trigger] seval(
            ar@,
            t.index as int,
            p,
        ) == round_rects_val(p, ax, ay, bx, by, xl, yl, xh, yh) by {
            assert(seval(h1, r1.index as int, p) == rectangle_val(p, ax, yl, bx, yh));
            lemma_seval_prefix(h1, h2, r1.index as int, p);
            assert(seval(h2, r2.index as int, p) == rectangle_val(p, xl, ay, xh, by));
        }
    }
    t
}

#[verifier::rlimit(100)]
fn term_round_corners(ar: &mut Arena, r: i64, xl: i64, yl: i64, xh: i64, yh: i64) -> (t: NodeRef)
    requires
        nodes_wf(old(ar)@),
    ensures
        nodes_wf(final(ar)@),
        extends(final(ar)@, old(ar)@),
        (t.index as int) < final(ar)@.len(),
        (final(ar)@, t.index as int) == spec_round_corners(old(ar)@, r, xl, yl, xh, yh),
        forall|p: Seq<int>|
            round_corners_val(p, r, xl, yl, xh, yh) is Num ==> #[trigger] seval(
                final(ar)@,
                t.index as int,
                p,
            ) == round_corners_val(p, r, xl, yl, xh, yh),
        forall|p: Seq<int>, j: int|
            0 <= j < old(ar)@.len() ==> #[trigger] seval(final(ar)@, j, p) == seval(old(ar)@, j, p),
{
    let ghost h0 = ar@;
    let c1 = ar.circle(r, xl, yl);
    let ghost h1 = ar@;
    let c2 = ar.circle(r, xh, yl);
    let ghost h2 = ar@;
    let m12 = term_bin(ar, BinOp::Min, c1, c2);
    let ghost h3 = ar@;
    let c3 = ar.circle(r, xl, yh);
    let ghost h4 = ar@;
    let c4 = ar.circle(r, xh, yh);
    let ghost h5 = ar@;
    let m34 = term_bin(ar, BinOp::Min, c3, c4);
    let ghost h6 = ar@;
    let t = term_bin(ar, BinOp::Min, m12, m34);
    proof {
        crate::node::lemma_extends_trans(h0, h1, h2);
        crate::node::lemma_extends_trans(h0, h2, h3);
        crate::node::lemma_extends_trans(h0, h3, h4);
        crate::node::lemma_extends_trans(h0, h4, h5);
        crate::node::lemma_extends_trans(h0, h5, h6);
        crate::node::lemma_extends_trans(h0, h6, ar@);
        assert forall|p: Seq<int>, j: int|
            0 <= j < h0.len() implies #[trigger] seval(ar@, j, p) == seval(h0, j, p) by {
            lemma_seval_prefix(h0, ar@, j, p);
        }
        assert forall|p: Seq<int>|
            round_corners_val(p, r, xl, yl, xh, yh) is Num implies #[trigger] seval(
            ar@,
            t.index as int,
            p,
        ) == round_corners_val(p, r, xl, yl, xh, yh) by {
            assert(seval(h1, c1.index as int, p) == circle_val(p, r, xl, yl));
            lemma_seval_prefix(h1, h2, c1.index as int, p);
            assert(seval(h2, c2.index as int, p) == circle_val(p, r, xh, yl));
            assert(seval(h3, m12.index as int, p) == v_bin(
                BinOp::Min,
                circle_val(p, r, xl, yl),
                circle_val(p, r, xh, yl),
            ));
            assert(seval(h4, c3.index as int, p) == circle_val(p, r, xl, yh));
            lemma_seval_prefix(h4, h5, c3.index as int, p);
            assert(seval(h5, c4.index as int, p) == circle_val(p, r, xh, yh));
            assert(seval(h6, m34.index as int, p) == v_bin(
                BinOp::Min,
                circle_val(p, r, xl, yh),
                circle_val(p, r, xh, yh),
            ));
            lemma_seval_prefix(h3, h6, m12.index as int, p);
        }
    }
    t
}

#[verifier::rlimit(100)]
fn term_edge(ar: &mut Arena, ux: i64, uy: i64, vx: i64, vy: i64) -> (t: NodeRef)
    requires
        nodes_wf(old(ar)@),
    ensures
        nodes_wf(final(ar)@),
        extends(final(ar)@, old(ar)@),
        (t.index as int) < final(ar)@.len(),
        (final(ar)@, t.index as int) == spec_edge(old(ar)@, ux, uy, vx, vy),
        forall|p: Seq<int>|
            edge_val(p, ux, uy, vx, vy) is Num ==> #[trigger] seval(final(ar)@, t.index as int, p)
                == edge_val(p, ux, uy, vx, vy),
        forall|p: Seq<int>, j: int|
            0 <= j < old(ar)@.len() ==> #[trigger] seval(final(ar)@, j, p) == seval(old(ar)@, j, p),
{
    let ghost h0 = ar@;
    let vyn = term_num(ar, vy);
    let uyn = term_num(ar, uy);
    let ghost h2 = ar@;
    let dy = term_bin(ar, BinOp::Sub, vyn, uyn);
    let ghost h3 = ar@;
    let xv = term_var(ar, 0);
    let uxn = term_num(ar, ux);
    let ghost h5 = ar@;
    let xo = term_bin(ar, BinOp::Sub, xv, uxn);
    let ghost h6 = ar@;
    let m1 = term_bin(ar, BinOp::Mul, dy, xo);
    let ghost h7 = ar@;
    let vxn = term_num(ar, vx);
    let ghost h8 = ar@;
    let dx = term_bin(ar, BinOp::Sub, vxn, uxn);
    let ghost h9 = ar@;
    let yv = term_var(ar, 1);
    let ghost h10 = ar@;
    let yo = term_bin(ar, BinOp::Sub, yv, uyn);
    let ghost h11 = ar@;
    let m2 = term_bin(ar, BinOp::Mul, dx, yo);
    let ghost h12 = ar@;
    let t = term_bin(ar, BinOp::Sub, m1, m2);
    proof {
        assert forall|p: Seq<int>, j: int|
            0 <= j < h0.len() implies #[trigger] seval(ar@, j, p) == seval(h0, j, p) by {
            lemma_seval_prefix(h0, ar@, j, p);
        }
        assert forall|p: Seq<int>|
            edge_val(p, ux, uy, vx, vy) is Num implies #[trigger] seval(ar@, t.index as int, p)
            == edge_val(p, ux, uy, vx, vy) by {
            let dy_val = v_bin(BinOp::Sub, v_num(vy), v_num(uy));
            let xo_val = v_bin(BinOp::Sub, v_var(p, 0), v_num(ux));
            let dx_val = v_bin(BinOp::Sub, v_num(vx), v_num(ux));
            let yo_val = v_bin(BinOp::Sub, v_var(p, 1), v_num(uy));
            assert(seval(h3, dy.index as int, p) == dy_val);
            assert(seval(h6, xo.index as int, p) == xo_val);
            assert(seval(h7, m1.index as int, p) == v_bin(BinOp::Mul, dy_val, xo_val));
            assert(seval(h9, dx.index as int, p) == dx_val);
            assert(seval(h11, yo.index as int, p) == yo_val);
            assert(seval(h12, m2.index as int, p) == v_bin(BinOp::Mul, dx_val, yo_val));
        }
    }
    t
}

#[verifier::rlimit(100)]
fn term_tri_oriented(ar: &mut Arena, ax: i64, ay: i64, bx: i64, by: i64, cx: i64, cy: i64) -> (t:
    NodeRef)
    requires
        nodes_wf(old(ar)@),
    ensures
        nodes_wf(final(ar)@),
        extends(final(ar)@, old(ar)@),
        (t.index as int) < final(ar)@.len(),
        (final(ar)@, t.index as int) == spec_triangle(old(ar)@, ax, ay, bx, by, cx, cy),
        forall|p: Seq<int>|
            triangle_val(p, ax, ay, bx, by, cx, cy) is Num ==> #[trigger] seval(
                final(ar)@,
                t.index as int,
                p,
            ) == triangle_val(p, ax, ay, bx, by, cx, cy),
{
    let ghost h0 = ar@;
    let eab = term_edge(ar, ax, ay, bx, by);
    let ghost h1 = ar@;
    let ebc = term_edge(ar, bx, by, cx, cy);
    let ghost h2 = ar@;
    let m1 = term_bin(ar, BinOp::Max, eab, ebc);
    let ghost h3 = ar@;
    let eca = term_edge(ar, cx, cy, ax, ay);
    let ghost h4 = ar@;
    let t = term_bin(ar, BinOp::Max, m1, eca);
    proof {
        crate::node::lemma_extends_trans(h0, h1, h2);
        crate::node::lemma_extends_trans(h0, h2, h3);
        crate::node::lemma_extends_trans(h0, h3, h4);
        crate::node::lemma_extends_trans(h0, h4, ar@);
        assert forall|p: Seq<int>|
            triangle_val(p, ax, ay, bx, by, cx, cy) is Num implies #[trigger] seval(
            ar@,
            t.index as int,
            p,
        ) == triangle_val(p, ax, ay, bx, by, cx, cy) by {
            assert(seval(h1, eab.index as int, p) == edge_val(p, ax, ay, bx, by));
            lemma_seval_prefix(h1, h2, eab.index as int, p);
            assert(seval(h2, ebc.index as int, p) == edge_val(p, bx, by, cx, cy));
            assert(seval(h3, m1.index as int, p) == v_bin(
                BinOp::Max,
                edge_val(p, ax, ay, bx, by),
                edge_val(p, bx, by, cx, cy),
            ));
            assert(seval(h4, eca.index as int, p) == edge_val(p, cx, cy, ax, ay));
            lemma_seval_prefix(h3, h4, m1.index as int, p);
        }
    }
    t
}

#[verifier::rlimit(100)]
fn term_cone_side(ar: &mut Arena, r: i64, zmin: i64, zmax: i64, cx: i64, cy: i64) -> (t: NodeRef)
    requires
        nodes_wf(old(ar)@),
    ensures
        nodes_wf(final(ar)@),
        extends(final(ar)@, old(ar)@),
        (t.index as int) < final(ar)@.len(),
        (final(ar)@, t.index as int) == spec_cone_side(old(ar)@, r, zmin, zmax, cx, cy),
        forall|p: Seq<int>|
            cone_side_val(p, r, zmin, zmax, cx, cy) is Num ==> #[trigger] seval(
                final(ar)@,
                t.index as int,
                p,
            ) == cone_side_val(p, r, zmin, zmax, cx, cy),
        forall|p: Seq<int>, j: int|
            0 <= j < old(ar)@.len() ==> #[trigger] seval(final(ar)@, j, p) == seval(old(ar)@, j, p),
{
    let ghost h0 = ar@;
    let sx = term_sq_offset(ar, 0, cx);
    let ghost h1 = ar@;
    let sy = term_sq_offset(ar, 1, cy);
    let ghost h2 = ar@;
    let sxy = term_bin(ar, BinOp::Add, sx, sy);
    let ghost h3 = ar@;
    let zmaxn = term_num(ar, zmax);
    let zminn = term_num(ar, zmin);
    let ghost h5 = ar@;
    let hd = term_bin(ar, BinOp::Sub, zmaxn, zminn);
    let ghost h6 = ar@;
    let hd2 = term_bin(ar, BinOp::Mul, hd, hd);
    let ghost h7 = ar@;
    let lhs = term_bin(ar, BinOp::Mul, hd2, sxy);
    let ghost h8 = ar@;
    let rn = term_num(ar, r);
    let ghost h9 = ar@;
    let r2 = term_bin(ar, BinOp::Mul, rn, rn);
    let ghost h10 = ar@;
    let zv = term_var(ar, 2);
    let ghost h11 = ar@;
    let up = term_bin(ar, BinOp::Sub, zmaxn, zv);
    let ghost h12 = ar@;
    let up2 = term_bin(ar, BinOp::Mul, up, up);
    let ghost h13 = ar@;
    let rhs = term_bin(ar, BinOp::Mul, r2, up2);
    let ghost h14 = ar@;
    let t = term_bin(ar, BinOp::Sub, lhs, rhs);
    proof {
        assert forall|p: Seq<int>, j: int|
            0 <= j < h0.len() implies #[trigger] seval(ar@, j, p) == seval(h0, j, p) by {
            lemma_seval_prefix(h0, ar@, j, p);
        }
        assert forall|p: Seq<int>|
            cone_side_val(p, r, zmin, zmax, cx, cy) is Num implies #[trigger] seval(
            ar@,
            t.index as int,
            p,
        ) == cone_side_val(p, r, zmin, zmax, cx, cy) by {
            let hd_val = v_bin(BinOp::Sub, v_num(zmax), v_num(zmin));
            let up_val = v_bin(BinOp::Sub, v_num(zmax), v_var(p, 2));
            assert(seval(h1, sx.index as int, p) == v_sq(
                v_bin(BinOp::Sub, v_var(p, 0), v_num(cx)),
            ));
            lemma_seval_prefix(h1, h2, sx.index as int, p);
            assert(seval(h2, sy.index as int, p) == v_sq(
                v_bin(BinOp::Sub, v_var(p, 1), v_num(cy)),
            ));
            assert(seval(h3, sxy.index as int, p) == torus_sxy_val(p, cx, cy));
            assert(seval(h6, hd.index as int, p) == hd_val);
            assert(seval(h7, hd2.index as int, p) == v_sq(hd_val));
            assert(seval(h8, lhs.index as int, p) == v_bin(
                BinOp::Mul,
                v_sq(hd_val),
                torus_sxy_val(p, cx, cy),
            ));
            assert(seval(h10, r2.index as int, p) == v_sq(v_num(r)));
            assert(seval(h12, up.index as int, p) == up_val);
            assert(seval(h13, up2.index as int, p) == v_sq(up_val));
            assert(seval(h14, rhs.index as int, p) == v_bin(BinOp::Mul, v_sq(v_num(r)), v_sq(
                up_val,
            )));
        }
    }
    t
}

#[verifier::rlimit(100)]
fn term_pyr_axis(ar: &mut Arena, h: i64, a1: i64, b1: i64, axis: usize, zmin: i64) -> (t: NodeRef)
    requires
        nodes_wf(old(ar)@),
    ensures
        nodes_wf(final(ar)@),
        extends(final(ar)@, old(ar)@),
        (t.index as int) < final(ar)@.len(),
        (final(ar)@, t.index as int) == spec_pyr_axis(old(ar)@, h, a1, b1, axis, zmin),
        forall|p: Seq<int>|
            pyr_axis_val(p, h, a1, b1, axis as int, zmin) is Num ==> #[trigger] seval(
                final(ar)@,
                t.index as int,
                p,
            ) == pyr_axis_val(p, h, a1, b1, axis as int, zmin),
        forall|p: Seq<int>, j: int|
            0 <= j < old(ar)@.len() ==> #[trigger] seval(final(ar)@, j, p) == seval(old(ar)@, j, p),
{
    let ghost h0 = ar@;
    let two = term_num(ar, 2);
    let hn = term_num(ar, h);
    let ghost h2 = ar@;
    let th = term_bin(ar, BinOp::Mul, two, hn);
    let ghost h3 = ar@;
    let b1n = term_num(ar, b1);
    let a1n = term_num(ar, a1);
    let ghost h5 = ar@;
    let sl = term_bin(ar, BinOp::Sub, b1n, a1n);
    let ghost h6 = ar@;
    let zv = term_var(ar, 2);
    let zmn = term_num(ar, zmin);
    let ghost h8 = ar@;
    let zo = term_bin(ar, BinOp::Sub, zv, zmn);
    let ghost h9 = ar@;
    let slant = term_bin(ar, BinOp::Mul, sl, zo);
    let ghost h10 = ar@;
    let vax = term_var(ar, axis);
    let ghost h11 = ar@;
    let d1 = term_bin(ar, BinOp::Sub, vax, b1n);
    let ghost h12 = ar@;
    let m1 = term_bin(ar, BinOp::Mul, th, d1);
    let ghost h13 = ar@;
    let f1 = term_bin(ar, BinOp::Add, m1, slant);
    let ghost h14 = ar@;
    let d2 = term_bin(ar, BinOp::Sub, a1n, vax);
    let ghost h15 = ar@;
    let m2 = term_bin(ar, BinOp::Mul, th, d2);
    let ghost h16 = ar@;
    let f2 = term_bin(ar, BinOp::Add, m2, slant);
    let ghost h17 = ar@;
    let t = term_bin(ar, BinOp::Max, f1, f2);
    proof {
        assert forall|p: Seq<int>, j: int|
            0 <= j < h0.len() implies #[trigger] seval(ar@, j, p) == seval(h0, j, p) by {
            lemma_seval_prefix(h0, ar@, j, p);
        }
        assert forall|p: Seq<int>|
            pyr_axis_val(p, h, a1, b1, axis as int, zmin) is Num implies #[trigger] seval(
            ar@,
            t.index as int,
            p,
        ) == pyr_axis_val(p, h, a1, b1, axis as int, zmin) by {
            let th_val = v_bin(BinOp::Mul, v_num(2), v_num(h));
            let slant_val = v_bin(
                BinOp::Mul,
                v_bin(BinOp::Sub, v_num(b1), v_num(a1)),
                v_bin(BinOp::Sub, v_var(p, 2), v_num(zmin)),
            );
            let d1_val = v_bin(BinOp::Sub, v_var(p, axis as int), v_num(b1));
            let d2_val = v_bin(BinOp::Sub, v_num(a1), v_var(p, axis as int));
            assert(seval(h3, th.index as int, p) == th_val);
            assert(seval(h6, sl.index as int, p) == v_bin(BinOp::Sub, v_num(b1), v_num(a1)));
            assert(seval(h9, zo.index as int, p) == v_bin(BinOp::Sub, v_var(p, 2), v_num(zmin)));
            assert(seval(h10, slant.index as int, p) == slant_val);
            assert(seval(h12, d1.index as int, p) == d1_val);
            assert(seval(h13, m1.index as int, p) == v_bin(BinOp::Mul, th_val, d1_val));
            assert(seval(h14, f1.index as int, p) == v_bin(
                BinOp::Add,
                v_bin(BinOp::Mul, th_val, d1_val),
                slant_val,
            ));
            assert(seval(h15, d2.index as int, p) == d2_val);
            assert(seval(h16, m2.index as int, p) == v_bin(BinOp::Mul, th_val, d2_val));
            assert(seval(h17, f2.index as int, p) == v_bin(
                BinOp::Add,
                v_bin(BinOp::Mul, th_val, d2_val),
                slant_val,
            ));
            lemma_seval_prefix(h14, h17, f1.index as int, p);
        }
    }
    t
}

/// Half of a non-negative width, truncated toward zero.
fn half_width(w: i64) -> (h: i64)
    requires
        w >= 0,
    ensures
        h as int == tdiv(w as int, 2),
{
    proof {
        vstd::arithmetic::div_mod::lemma_div_basics_5(w as int, 2);
    }
    ((w as u64) / 2) as i64
}

fn term_torus_q(ar: &mut Arena, cx: i64, cy: i64, cz: i64) -> (r: (NodeRef, NodeRef))
    requires
        nodes_wf(old(ar)@),
    ensures
        nodes_wf(final(ar)@),
        extends(final(ar)@, old(ar)@),
        (r.0.index as int) < final(ar)@.len(),
        (r.1.index as int) < final(ar)@.len(),
        (final(ar)@, r.0.index as int, r.1.index as int) == spec_torus_q(old(ar)@, cx, cy, cz),
        forall|p: Seq<int>|
            torus_sxy_val(p, cx, cy) is Num ==> #[trigger] seval(final(ar)@, r.0.index as int, p)
                == torus_sxy_val(p, cx, cy),
        forall|p: Seq<int>|
            torus_q_val(p, cx, cy, cz) is Num ==> #[trigger] seval(final(ar)@, r.1.index as int, p)
                == torus_q_val(p, cx, cy, cz),
        forall|p: Seq<int>, j: int|
            0 <= j < old(ar)@.len() ==> #[trigger] seval(final(ar)@, j, p) == seval(old(ar)@, j, p),
{
    let sx = term_sq_offset(ar, 0, cx);
    let sy = term_sq_offset(ar, 1, cy);
    let sxy = term_bin(ar, BinOp::Add, sx, sy);
    let sz = term_sq_offset(ar, 2, cz);
    let q = term_bin(ar, BinOp::Add, sxy, sz);
    (sxy, q)
}

impl Arena {
    /// A circle of the given radius about a centre in the XY plane, as the
    /// squared form `(x-cx)^2 + (y-cy)^2 - r^2`: same zero set and sign as
    /// the distance field, squared magnitudes (a deliberate deviation; the
    /// distance itself would need a square root, which leaves the grid).
    pub fn circle(&mut self, r: i64, cx: i64, cy: i64) -> (t: NodeRef)
        requires
            nodes_wf(old(self)@),
        ensures
            nodes_wf(final(self)@),
            extends(final(self)@, old(self)@),
            (t.index as int) < final(self)@.len(),
            (final(self)@, t.index as int) == spec_circle(old(self)@, r, cx, cy),
            forall|p: Seq<int>|
                circle_val(p, r, cx, cy) is Num ==> #[trigger] seval(
                    final(self)@,
                    t.index as int,
                    p,
                ) == circle_val(p, r, cx, cy),
    {
        term_circle(self, r, cx, cy)
    }

    /// The region between an outer and an inner circle about one centre.
    pub fn ring(&mut self, ro: i64, ri: i64, cx: i64, cy: i64) -> (t: NodeRef)
        requires
            nodes_wf(old(self)@),
        ensures
            nodes_wf(final(self)@),
            extends(final(self)@, old(self)@),
            (t.index as int) < final(self)@.len(),
            (final(self)@, t.index as int) == spec_ring(old(self)@, ro, ri, cx, cy),
            forall|p: Seq<int>|
                ring_val(p, ro, ri, cx, cy) is Num ==> #[trigger] seval(
                    final(self)@,
                    t.index as int,
                    p,
                ) == ring_val(p, ro, ri, cx, cy),
    {
        let outer = term_circle(self, ro, cx, cy);
        let inner = term_circle(self, ri, cx, cy);
        let ninner = term_un(self, UnOp::Neg, inner);
        let t = term_bin(self, BinOp::Max, outer, ninner);
        t
    }

    /// An axis-aligned rectangle from corner `a` to corner `b`.
    pub fn rectangle(&mut self, ax: i64, ay: i64, bx: i64, by: i64) -> (t: NodeRef)
        requires
            nodes_wf(old(self)@),
        ensures
            nodes_wf(final(self)@),
            extends(final(self)@, old(self)@),
            (t.index as int) < final(self)@.len(),
            (final(self)@, t.index as int) == spec_rectangle(old(self)@, ax, ay, bx, by),
            forall|p: Seq<int>|
                rectangle_val(p, ax, ay, bx, by) is Num ==> #[trigger] seval(
                    final(self)@,
                    t.index as int,
                    p,
                ) == rectangle_val(p, ax, ay, bx, by),
    {
        let sx = term_slab(self, 0, ax, bx);
        let sy = term_slab(self, 1, ay, by);
        let t = term_bin(self, BinOp::Max, sx, sy);
        t
    }

    /// A rectangle from corner `a` to corner `b` with its corners rounded
    /// to radius `r`: the union (pointwise minimum) of two inset
    /// rectangles and four corner circles. The circles carry squared
    /// fields, so magnitudes differ between the straight and the round
    /// parts; the sign and the zero set are those of the rounded outline.
    /// The inset corners must stay on the grid.
    #[verifier::rlimit(100)]
    pub fn rounded_rectangle(&mut self, ax: i64, ay: i64, bx: i64, by: i64, r: i64) -> (t: NodeRef)
        requires
            nodes_wf(old(self)@),
            in_range(ax + r),
            in_range(ay + r),
            in_range(bx - r),
            in_range(by - r),
        ensures
            nodes_wf(final(self)@),
            extends(final(self)@, old(self)@),
            (t.index as int) < final(self)@.len(),
            (final(self)@, t.index as int) == spec_rounded_rectangle(old(self)@, ax, ay, bx, by, r),
            forall|p: Seq<int>|
                rounded_rectangle_val(p, ax, ay, bx, by, r) is Num ==> #[trigger] seval(
                    final(self)@,
                    t.index as int,
                    p,
                ) == rounded_rectangle_val(p, ax, ay, bx, by, r),
    {
        let xl = ax + r;
        let yl = ay + r;
        let xh = bx - r;
        let yh = by - r;
        let ghost g0 = self@;
        let mrr = term_round_rects(self, ax, ay, bx, by, xl, yl, xh, yh);
        let ghost g1 = self@;
        let mc = term_round_corners(self, r, xl, yl, xh, yh);
        let ghost g2 = self@;
        let t = term_bin(self, BinOp::Min, mrr, mc);
        proof {
            assert(xl == off_add(ax, r) && yl == off_add(ay, r));
            assert(xh == off_sub(bx, r) && yh == off_sub(by, r));
            assert((g1, mrr.index as int) == spec_round_rects(g0, ax, ay, bx, by, xl, yl, xh, yh));
            assert((g2, mc.index as int) == spec_round_corners(g1, r, xl, yl, xh, yh));
            assert((self@, t.index as int) == spec_rounded_rectangle(g0, ax, ay, bx, by, r));
        }
        t
    }

    /// A triangle over the corners `a`, `b`, `c`: the intersection of its
    /// three edge half-planes, negative inside. The winding is normalized
    /// by the sign of the doubled area, so either corner order gives the
    /// same shape; the doubled area must be representable on the grid.
    pub fn triangle(&mut self, ax: i64, ay: i64, bx: i64, by: i64, cx: i64, cy: i64) -> (t: NodeRef)
        requires
            nodes_wf(old(self)@),
            in_range(bx - ax),
            in_range(by - ay),
            in_range(cx - ax),
            in_range(cy - ay),
            in_range((bx - ax) * (cy - ay)),
            in_range((by - ay) * (cx - ax)),
            in_range(area2(ax, ay, bx, by, cx, cy)),
        ensures
            nodes_wf(final(self)@),
            extends(final(self)@, old(self)@),
            (t.index as int) < final(self)@.len(),
            area2(ax, ay, bx, by, cx, cy) >= 0 ==> ((final(self)@, t.index as int)
                == spec_triangle(old(self)@, ax, ay, bx, by, cx, cy) && forall|p: Seq<int>|
                triangle_val(p, ax, ay, bx, by, cx, cy) is Num ==> #[trigger] seval(
                    final(self)@,
                    t.index as int,
                    p,
                ) == triangle_val(p, ax, ay, bx, by, cx, cy)),
            area2(ax, ay, bx, by, cx, cy) < 0 ==> ((final(self)@, t.index as int) == spec_triangle(
                old(self)@,
                ax,
                ay,
                cx,
                cy,
                bx,
                by,
            ) && forall|p: Seq<int>|
                triangle_val(p, ax, ay, cx, cy, bx, by) is Num ==> #[trigger] seval(
                    final(self)@,
                    t.index as int,
                    p,
                ) == triangle_val(p, ax, ay, cx, cy, bx, by)),
    {
        let d1x = bx - ax;
        let d1y = by - ay;
        let d2x = cx - ax;
        let d2y = cy - ay;
        let doubled = d1x * d2y - d1y * d2x;
        if doubled >= 0 {
            term_tri_oriented(self, ax, ay, bx, by, cx, cy)
        } else {
            term_tri_oriented(self, ax, ay, cx, cy, bx, by)
        }
    }

    /// An axis-aligned box from corner `a` to corner `b`, with mitered
    /// (Chebyshev) edges.
    pub fn box_mitered(&mut self, ax: i64, ay: i64, az: i64, bx: i64, by: i64, bz: i64) -> (t:
        NodeRef)
        requires
            nodes_wf(old(self)@),
        ensures
            nodes_wf(final(self)@),
            extends(final(self)@, old(self)@),
            (t.index as int) < final(self)@.len(),
            (final(self)@, t.index as int) == spec_box_mitered(old(self)@, ax, ay, az, bx, by, bz),
            forall|p: Seq<int>|
                box_mitered_val(p, ax, ay, az, bx, by, bz) is Num ==> #[trigger] seval(
                    final(self)@,
                    t.index as int,
                    p,
                ) == box_mitered_val(p, ax, ay, az, bx, by, bz),
    {
        let sx = term_slab(self, 0, ax, bx);
        let sy = term_slab(self, 1, ay, by);
        let sxy = term_bin(self, BinOp::Max, sx, sy);
        let sz = term_slab(self, 2, az, bz);
        let t = term_bin(self, BinOp::Max, sxy, sz);
        t
    }

    /// A rectangle of the given full widths about a centre: the corner form
    /// `rectangle` re-parameterized to `centre - width/2` and `centre +
    /// width/2`, with the half width truncated toward zero on the grid. It
    /// carries the sign content of a centered rectangle; the exact
    /// Euclidean magnitudes around the corners would need a square root,
    /// which leaves the grid.
    pub fn rectangle_centered(&mut self, sx: i64, sy: i64, cx: i64, cy: i64) -> (t: NodeRef)
        requires
            nodes_wf(old(self)@),
            sx >= 0,
            sy >= 0,
            in_range(cx - tdiv(sx as int, 2)),
            in_range(cx + tdiv(sx as int, 2)),
            in_range(cy - tdiv(sy as int, 2)),
            in_range(cy + tdiv(sy as int, 2)),
        ensures
            nodes_wf(final(self)@),
            extends(final(self)@, old(self)@),
            (t.index as int) < final(self)@.len(),
            (final(self)@, t.index as int) == spec_rectangle(
                old(self)@,
                centered_lo(cx, sx),
                centered_lo(cy, sy),
                centered_hi(cx, sx),
                centered_hi(cy, sy),
            ),
            forall|p: Seq<int>|
                rectangle_val(
                    p,
                    centered_lo(cx, sx),
                    centered_lo(cy, sy),
                    centered_hi(cx, sx),
                    centered_hi(cy, sy),
                ) is Num ==> #[trigger] seval(final(self)@, t.index as int, p) == rectangle_val(
                    p,
                    centered_lo(cx, sx),
                    centered_lo(cy, sy),
                    centered_hi(cx, sx),
                    centered_hi(cy, sy),
                ),
    {
        let hx = half_width(sx);
        let hy = half_width(sy);
        let ax = cx - hx;
        let ay = cy - hy;
        let bx = cx + hx;
        let by = cy + hy;
        self.rectangle(ax, ay, bx, by)
    }

    /// An axis-aligned box of the given full widths about a centre: exactly
    /// the corner form `box_mitered` re-parameterized to the corners
    /// `centre - width/2` and `centre + width/2`. The half width is
    /// truncated toward zero on the grid, so an odd width is narrowed by
    /// one grid unit; the corners must stay on the grid.
    pub fn box_mitered_centered(
        &mut self,
        sx: i64,
        sy: i64,
        sz: i64,
        cx: i64,
        cy: i64,
        cz: i64,
    ) -> (t: NodeRef)
        requires
            nodes_wf(old(self)@),
            sx >= 0,
            sy >= 0,
            sz >= 0,
            in_range(cx - tdiv(sx as int, 2)),
            in_range(cx + tdiv(sx as int, 2)),
            in_range(cy - tdiv(sy as int, 2)),
            in_range(cy + tdiv(sy as int, 2)),
            in_range(cz - tdiv(sz as int, 2)),
            in_range(cz + tdiv(sz as int, 2)),
        ensures
            nodes_wf(final(self)@),
            extends(final(self)@, old(self)@),
            (t.index as int) < final(self)@.len(),
            (final(self)@, t.index as int) == spec_box_mitered(
                old(self)@,
                centered_lo(cx, sx),
                centered_lo(cy, sy),
                centered_lo(cz, sz),
                centered_hi(cx, sx),
                centered_hi(cy, sy),
                centered_hi(cz, sz),
            ),
            forall|p: Seq<int>|
                box_mitered_val(
                    p,
                    centered_lo(cx, sx),
                    centered_lo(cy, sy),
                    centered_lo(cz, sz),
                    centered_hi(cx, sx),
                    centered_hi(cy, sy),
                    centered_hi(cz, sz),
                ) is Num ==> #[trigger] seval(final(self)@, t.index as int, p) == box_mitered_val(
                    p,
                    centered_lo(cx, sx),
                    centered_lo(cy, sy),
                    centered_lo(cz, sz),
                    centered_hi(cx, sx),
                    centered_hi(cy, sy),
                    centered_hi(cz, sz),
                ),
    {
        let hx = half_width(sx);
        let hy = half_width(sy);
        let hz = half_width(sz);
        let ax = cx - hx;
        let ay = cy - hy;
        let az = cz - hz;
        let bx = cx + hx;
        let by = cy + hy;
        let bz = cz + hz;
        self.box_mitered(ax, ay, az, bx, by, bz)
    }

    /// A sphere of the given radius about a centre, as the squared form
    /// `(x-cx)^2 + (y-cy)^2 + (z-cz)^2 - r^2`: same zero set and sign as
    /// the Euclidean distance field `|p - centre| - r`, but magnitudes and
    /// Gradient-mode derivatives are the quadric's (value `|p-c|^2 - r^2`,
    /// gradient `2*(p-c)`, radially outward, not unit length). This is a
    /// deliberate deviation: the distance field needs a square root, which
    /// has no exact value on the integer grid.
    #[verifier::rlimit(100)]
    pub fn sphere(&mut self, r: i64, cx: i64, cy: i64, cz: i64) -> (t: NodeRef)
        requires
            nodes_wf(old(self)@),
        ensures
            nodes_wf(final(self)@),
            extends(final(self)@, old(self)@),
            (t.index as int) < final(self)@.len(),
            (final(self)@, t.index as int) == spec_sphere(old(self)@, r, cx, cy, cz),
            forall|p: Seq<int>|
                sphere_val(p, r, cx, cy, cz) is Num ==> #[trigger] seval(
                    final(self)@,
                    t.index as int,
                    p,
                ) == sphere_val(p, r, cx, cy, cz),
    {
        let dx2 = term_sq_offset(self, 0, cx);
        let dy2 = term_sq_offset(self, 1, cy);
        let sum2 = term_bin(self, BinOp::Add, dx2, dy2);
        let dz2 = term_sq_offset(self, 2, cz);
        let sum3 = term_bin(self, BinOp::Add, sum2, dz2);
        let rn = term_num(self, r);
        let r2 = term_bin(self, BinOp::Mul, rn, rn);
        let t = term_bin(self, BinOp::Sub, sum3, r2);
        t
    }

    /// The half-space on the positive side of a plane through `point` with
    /// normal `norm`: `norm . (p - point)`.
    #[verifier::rlimit(100)]
    pub fn half_space(&mut self, nx: i64, ny: i64, nz: i64, px: i64, py: i64, pz: i64) -> (t:
        NodeRef)
        requires
            nodes_wf(old(self)@),
        ensures
            nodes_wf(final(self)@),
            extends(final(self)@, old(self)@),
            (t.index as int) < final(self)@.len(),
            (final(self)@, t.index as int) == spec_half_space(old(self)@, nx, ny, nz, px, py, pz),
            forall|p: Seq<int>|
                half_space_val(p, nx, ny, nz, px, py, pz) is Num ==> #[trigger] seval(
                    final(self)@,
                    t.index as int,
                    p,
                ) == half_space_val(p, nx, ny, nz, px, py, pz),
    {
        let ghost g0 = self@;
        let nxn = term_num(self, nx);
        let ghost g1 = self@;
        let x = term_var(self, 0);
        let ghost g2 = self@;
        let pxn = term_num(self, px);
        let ghost g3 = self@;
        let dx = term_bin(self, BinOp::Sub, x, pxn);
        let ghost g4 = self@;
        let mx = term_bin(self, BinOp::Mul, nxn, dx);
        let ghost g5 = self@;
        let nyn = term_num(self, ny);
        let ghost g6 = self@;
        let y = term_var(self, 1);
        let ghost g7 = self@;
        let pyn = term_num(self, py);
        let ghost g8 = self@;
        let dy = term_bin(self, BinOp::Sub, y, pyn);
        let ghost g9 = self@;
        let my = term_bin(self, BinOp::Mul, nyn, dy);
        let ghost g10 = self@;
        let mxy = term_bin(self, BinOp::Add, mx, my);
        let ghost g11 = self@;
        let nzn = term_num(self, nz);
        let ghost g12 = self@;
        let z = term_var(self, 2);
        let ghost g13 = self@;
        let pzn = term_num(self, pz);
        let ghost g14 = self@;
        let dz = term_bin(self, BinOp::Sub, z, pzn);
        let ghost g15 = self@;
        let mz = term_bin(self, BinOp::Mul, nzn, dz);
        let ghost g16 = self@;
        let t = term_bin(self, BinOp::Add, mxy, mz);
        proof {
            assert((g1, nxn.index as int) == spec_intern(g0, Node::Const { value: nx }));
            assert((g2, x.index as int) == spec_intern(g1, Node::Var { index: 0 }));
            assert((g3, pxn.index as int) == spec_intern(g2, Node::Const { value: px }));
            assert((g4, dx.index as int) == spec_make_binary(
                g3,
                BinOp::Sub,
                x.index as int,
                pxn.index as int,
            ));
            assert((g5, mx.index as int) == spec_make_binary(
                g4,
                BinOp::Mul,
                nxn.index as int,
                dx.index as int,
            ));
            assert((g6, nyn.index as int) == spec_intern(g5, Node::Const { value: ny }));
            assert((g7, y.index as int) == spec_intern(g6, Node::Var { index: 1 }));
            assert((g8, pyn.index as int) == spec_intern(g7, Node::Const { value: py }));
            assert((g9, dy.index as int) == spec_make_binary(
                g8,
                BinOp::Sub,
                y.index as int,
                pyn.index as int,
            ));
            assert((g10, my.index as int) == spec_make_binary(
                g9,
                BinOp::Mul,
                nyn.index as int,
                dy.index as int,
            ));
            assert((g11, mxy.index as int) == spec_make_binary(
                g10,
                BinOp::Add,
                mx.index as int,
                my.index as int,
            ));
            assert((g12, nzn.index as int) == spec_intern(g11, Node::Const { value: nz }));
            assert((g13, z.index as int) == spec_intern(g12, Node::Var { index: 2 }));
            assert((g14, pzn.index as int) == spec_intern(g13, Node::Const { value: pz }));
            assert((g15, dz.index as int) == spec_make_binary(
                g14,
                BinOp::Sub,
                z.index as int,
                pzn.index as int,
            ));
            assert((g16, mz.index as int) == spec_make_binary(
                g15,
                BinOp::Mul,
                nzn.index as int,
                dz.index as int,
            ));
            assert((self@, t.index as int) == spec_half_space(g0, nx, ny, nz, px, py, pz));
            assert forall|p: Seq<int>|
                half_space_val(p, nx, ny, nz, px, py, pz) is Num implies #[trigger] seval(
                self@,
                t.index as int,
                p,
            ) == half_space_val(p, nx, ny, nz, px, py, pz) by {
                let mx_val = v_bin(BinOp::Mul, v_num(nx), v_bin(BinOp::Sub, v_var(p, 0), v_num(px)));
                let my_val = v_bin(BinOp::Mul, v_num(ny), v_bin(BinOp::Sub, v_var(p, 1), v_num(py)));
                let mz_val = v_bin(BinOp::Mul, v_num(nz), v_bin(BinOp::Sub, v_var(p, 2), v_num(pz)));
                assert(seval(g4, dx.index as int, p) == v_bin(
                    BinOp::Sub,
                    v_var(p, 0),
                    v_num(px),
                ));
                assert(seval(g5, mx.index as int, p) == mx_val);
                assert(seval(g9, dy.index as int, p) == v_bin(
                    BinOp::Sub,
                    v_var(p, 1),
                    v_num(py),
                ));
                assert(seval(g10, my.index as int, p) == my_val);
                assert(seval(g11, mxy.index as int, p) == v_bin(BinOp::Add, mx_val, my_val));
                assert(seval(g15, dz.index as int, p) == v_bin(
                    BinOp::Sub,
                    v_var(p, 2),
                    v_num(pz),
                ));
                assert(seval(g16, mz.index as int, p) == mz_val);
            }
        }
        t
    }

    /// A cylinder along Z: a circle in the XY plane between two Z planes.
    pub fn cylinder_z(&mut self, r: i64, zmin: i64, zmax: i64, cx: i64, cy: i64) -> (t: NodeRef)
        requires
            nodes_wf(old(self)@),
        ensures
            nodes_wf(final(self)@),
            extends(final(self)@, old(self)@),
            (t.index as int) < final(self)@.len(),
            (final(self)@, t.index as int) == spec_cylinder_z(old(self)@, r, zmin, zmax, cx, cy),
            forall|p: Seq<int>|
                cylinder_z_val(p, r, zmin, zmax, cx, cy) is Num ==> #[trigger] seval(
                    final(self)@,
                    t.index as int,
                    p,
                ) == cylinder_z_val(p, r, zmin, zmax, cx, cy),
    {
        let c = term_circle(self, r, cx, cy);
        let s = term_slab(self, 2, zmin, zmax);
        let t = term_bin(self, BinOp::Max, c, s);
        t
    }

    /// A cone along Z about the axis through `(cx, cy)`: a disc of the
    /// given radius at `zmin` shrinking linearly to an apex at `zmax`. The
    /// side is the quadric `(zmax-zmin)^2 * ((x-cx)^2 + (y-cy)^2) - r^2 *
    /// (zmax-z)^2`, capped by the Z slab.
    pub fn cone_z(&mut self, r: i64, zmin: i64, zmax: i64, cx: i64, cy: i64) -> (t: NodeRef)
        requires
            nodes_wf(old(self)@),
        ensures
            nodes_wf(final(self)@),
            extends(final(self)@, old(self)@),
            (t.index as int) < final(self)@.len(),
            (final(self)@, t.index as int) == spec_cone_z(old(self)@, r, zmin, zmax, cx, cy),
            forall|p: Seq<int>|
                cone_z_val(p, r, zmin, zmax, cx, cy) is Num ==> #[trigger] seval(
                    final(self)@,
                    t.index as int,
                    p,
                ) == cone_z_val(p, r, zmin, zmax, cx, cy),
    {
        let ghost g0 = self@;
        let side = term_cone_side(self, r, zmin, zmax, cx, cy);
        let ghost g1 = self@;
        let sl = term_slab(self, 2, zmin, zmax);
        let ghost g2 = self@;
        let t = term_bin(self, BinOp::Max, side, sl);
        proof {
            assert((g1, side.index as int) == spec_cone_side(g0, r, zmin, zmax, cx, cy));
            assert((g2, sl.index as int) == spec_slab(g1, 2, zmin, zmax));
            assert((self@, t.index as int) == spec_cone_z(g0, r, zmin, zmax, cx, cy));
        }
        t
    }

    /// A pyramid over the rectangle from `a` to `b` at `zmin`, its apex at
    /// height `h` over the rectangle's centre: four slanted faces (their
    /// plane equations multiplied through by twice the height to stay on
    /// the grid) and the base plane.
    pub fn pyramid_z(&mut self, ax: i64, ay: i64, bx: i64, by: i64, zmin: i64, h: i64) -> (t:
        NodeRef)
        requires
            nodes_wf(old(self)@),
        ensures
            nodes_wf(final(self)@),
            extends(final(self)@, old(self)@),
            (t.index as int) < final(self)@.len(),
            (final(self)@, t.index as int) == spec_pyramid_z(old(self)@, ax, ay, bx, by, zmin, h),
            forall|p: Seq<int>|
                pyramid_z_val(p, ax, ay, bx, by, zmin, h) is Num ==> #[trigger] seval(
                    final(self)@,
                    t.index as int,
                    p,
                ) == pyramid_z_val(p, ax, ay, bx, by, zmin, h),
    {
        let ghost g0 = self@;
        let fx = term_pyr_axis(self, h, ax, bx, 0, zmin);
        let ghost g1 = self@;
        let fy = term_pyr_axis(self, h, ay, by, 1, zmin);
        let ghost g2 = self@;
        let fxy = term_bin(self, BinOp::Max, fx, fy);
        let ghost g3 = self@;
        let zmn = term_num(self, zmin);
        let ghost g4 = self@;
        let zv = term_var(self, 2);
        let ghost g5 = self@;
        let base = term_bin(self, BinOp::Sub, zmn, zv);
        let ghost g6 = self@;
        let t = term_bin(self, BinOp::Max, fxy, base);
        proof {
            crate::node::lemma_extends_trans(g0, g1, g2);
            assert((self@, t.index as int) == spec_pyramid_z(g0, ax, ay, bx, by, zmin, h));
            assert forall|p: Seq<int>|
                pyramid_z_val(p, ax, ay, bx, by, zmin, h) is Num implies #[trigger] seval(
                self@,
                t.index as int,
                p,
            ) == pyramid_z_val(p, ax, ay, bx, by, zmin, h) by {
                assert(seval(g1, fx.index as int, p) == pyr_axis_val(p, h, ax, bx, 0, zmin));
                lemma_seval_prefix(g1, g2, fx.index as int, p);
                assert(seval(g2, fy.index as int, p) == pyr_axis_val(p, h, ay, by, 1, zmin));
                assert(seval(g3, fxy.index as int, p) == v_bin(
                    BinOp::Max,
                    pyr_axis_val(p, h, ax, bx, 0, zmin),
                    pyr_axis_val(p, h, ay, by, 1, zmin),
                ));
                assert(seval(g6, base.index as int, p) == v_bin(
                    BinOp::Sub,
                    v_num(zmin),
                    v_var(p, 2),
                ));
                lemma_seval_prefix(g3, g6, fxy.index as int, p);
            }
        }
        t
    }

    /// A torus about the Z axis through `center`, with outer radius `ro`
    /// and inner radius `ri`, as a ring has them: the solid tube lies
    /// between the two radii, its midline at distance `(ro+ri)/2` from the
    /// axis, and the hole spans the radii below `ri`.
    #[verifier::rlimit(100)]
    pub fn torus_z(&mut self, ro: i64, ri: i64, cx: i64, cy: i64, cz: i64) -> (t: NodeRef)
        requires
            nodes_wf(old(self)@),
        ensures
            nodes_wf(final(self)@),
            extends(final(self)@, old(self)@),
            (t.index as int) < final(self)@.len(),
            (final(self)@, t.index as int) == spec_torus_z(old(self)@, ro, ri, cx, cy, cz),
            forall|p: Seq<int>|
                torus_z_val(p, ro, ri, cx, cy, cz) is Num ==> #[trigger] seval(
                    final(self)@,
                    t.index as int,
                    p,
                ) == torus_z_val(p, ro, ri, cx, cy, cz),
    {
        let ghost g0 = self@;
        let pair = term_torus_q(self, cx, cy, cz);
        let sxy = pair.0;
        let q = pair.1;
        let ghost g5 = self@;
        let ron = term_num(self, ro);
        let ghost g6 = self@;
        let rin = term_num(self, ri);
        let ghost g7 = self@;
        let prod = term_bin(self, BinOp::Mul, ron, rin);
        let ghost g8 = self@;
        let a = term_bin(self, BinOp::Add, q, prod);
        let ghost g9 = self@;
        let a2 = term_bin(self, BinOp::Mul, a, a);
        let ghost g10 = self@;
        let rsum = term_bin(self, BinOp::Add, ron, rin);
        let ghost g11 = self@;
        let rsum2 = term_bin(self, BinOp::Mul, rsum, rsum);
        let ghost g12 = self@;
        let b = term_bin(self, BinOp::Mul, rsum2, sxy);
        let ghost g13 = self@;
        let t = term_bin(self, BinOp::Sub, a2, b);
        proof {
            assert forall|p: Seq<int>|
                torus_z_val(p, ro, ri, cx, cy, cz) is Num implies #[trigger] seval(
                self@,
                t.index as int,
                p,
            ) == torus_z_val(p, ro, ri, cx, cy, cz) by {
                let a_val = v_bin(
                    BinOp::Add,
                    torus_q_val(p, cx, cy, cz),
                    v_bin(BinOp::Mul, v_num(ro), v_num(ri)),
                );
                let rsum_val = v_bin(BinOp::Add, v_num(ro), v_num(ri));
                let b_val = v_bin(BinOp::Mul, v_sq(rsum_val), torus_sxy_val(p, cx, cy));
                assert(seval(g5, sxy.index as int, p) == torus_sxy_val(p, cx, cy));
                assert(seval(g5, q.index as int, p) == torus_q_val(p, cx, cy, cz));
                assert(seval(g6, ron.index as int, p) == v_num(ro));
                assert(seval(g7, rin.index as int, p) == v_num(ri));
                assert(seval(g8, prod.index as int, p) == v_bin(
                    BinOp::Mul,
                    v_num(ro),
                    v_num(ri),
                ));
                assert(seval(g9, a.index as int, p) == a_val);
                assert(seval(g10, a2.index as int, p) == v_sq(a_val));
                assert(seval(g11, rsum.index as int, p) == rsum_val);
                assert(seval(g12, rsum2.index as int, p) == v_sq(rsum_val));
                assert(seval(g13, b.index as int, p) == b_val);
                assert(seval(self@, t.index as int, p) == v_bin(BinOp::Sub, v_sq(a_val), b_val));
            }
            lemma_torus_chain(
                g0,
                g5,
                g6,
                g7,
                g8,
                g9,
                g10,
                g11,
                g12,
                g13,
                self@,
                sxy.index as int,
                q.index as int,
                ron.index as int,
                rin.index as int,
                prod.index as int,
                a.index as int,
                a2.index as int,
                rsum.index as int,
                rsum2.index as int,
                b.index as int,
                t.index as int,
                ro,
                ri,
                cx,
                cy,
                cz,
            );
        }
        t
    }

    /// A shape that is empty everywhere: strictly positive at every point.
    pub fn emptiness(&mut self) -> (t: NodeRef)
        requires
            nodes_wf(old(self)@),
        ensures
            nodes_wf(final(self)@),
            extends(final(self)@, old(self)@),
            (t.index as int) < final(self)@.len(),
            (final(self)@, t.index as int) == spec_intern(old(self)@, (Node::Const { value: 1 })),
            final(self)@[t.index as int] == (Node::Const { value: 1 }),
            forall|b: Seq<IVal>| #[trigger] ieval(final(self)@, t.index as int, b) == IVal::Fin(
                1,
                1,
            ),
            forall|p: Seq<int>| #[trigger] seval(final(self)@, t.index as int, p) == SVal::Num(1),
    {
        let t = term_num(self, 1);
        proof {
            lemma_intern_props(old(self)@, Node::Const { value: 1 });
            assert(self@[t.index as int] == (Node::Const { value: 1 }));
            assert forall|b: Seq<IVal>| #[trigger] ieval(self@, t.index as int, b) == IVal::Fin(
                1,
                1,
            ) by {}
        }
        t
    }
}

} // verus!
