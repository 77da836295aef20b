use frep::arena::Arena;
use frep::node::{BinOp, Error, Node, NodeRef, UnOp};
use frep::interval::Interval;

fn xx_plus_yy(a: &mut Arena) -> NodeRef {
    let x = a.var_x();
    let y = a.var_y();
    let xx = a.binary(BinOp::Mul, x, x).unwrap();
    let yy = a.binary(BinOp::Mul, y, y).unwrap();
    a.binary(BinOp::Add, xx, yy).unwrap()
}

#[test]
fn scalar_evaluation_is_deterministic() {
    let mut a = Arena::new();
    let t = xx_plus_yy(&mut a);
    let p: Vec<i64> = vec![3, 4];
    let r1 = a.eval_scalar(t, &p);
    let r2 = a.eval_scalar(t, &p);
    assert_eq!(r1, Ok(25));
    assert_eq!(r1, r2);
}

#[test]
fn same_expression_shares_one_node() {
    let mut a = Arena::new();
    let x1 = a.var_x();
    let c1 = a.constant(1);
    let e1 = a.binary(BinOp::Add, x1, c1).unwrap();
    let x2 = a.var_x();
    let c2 = a.constant(1);
    let e2 = a.binary(BinOp::Add, x2, c2).unwrap();
    assert_eq!(x1, x2);
    assert_eq!(c1, c2);
    assert_eq!(e1, e2);
}

#[test]
fn different_expressions_get_different_nodes() {
    let mut a = Arena::new();
    let x = a.var_x();
    let c1 = a.constant(1);
    let c2 = a.constant(2);
    let e1 = a.binary(BinOp::Add, x, c1).unwrap();
    let e2 = a.binary(BinOp::Add, x, c2).unwrap();
    assert_ne!(c1, c2);
    assert_ne!(e1, e2);
}

#[test]
fn same_shape_twice_shares_one_node() {
    let mut a = Arena::new();
    let c1 = a.circle(1, 0, 0);
    let c2 = a.circle(1, 0, 0);
    assert_eq!(c1, c2);
    let s1 = a.sphere(3, 1, 2, 3);
    let s2 = a.sphere(3, 1, 2, 3);
    assert_eq!(s1, s2);
    let d = a.circle(2, 0, 0);
    assert_ne!(c1, d);
}

#[test]
fn interning_is_idempotent() {
    let mut a = Arena::new();
    let r1 = a.intern(Node::Const { value: 7 }).unwrap();
    let r2 = a.intern(Node::Const { value: 7 }).unwrap();
    assert_eq!(r1, r2);
}

#[test]
fn interning_rejects_foreign_children() {
    let mut a = Arena::new();
    let r = a.intern(Node::Unary { op: UnOp::Neg, child: 99 });
    assert_eq!(r, Err(Error::ArenaMismatch));
}

#[test]
fn builder_rejects_foreign_handles() {
    let mut a = Arena::new();
    let x = a.var_x();
    let foreign = NodeRef { index: 1000 };
    assert_eq!(a.binary(BinOp::Add, x, foreign), Err(Error::ArenaMismatch));
    assert_eq!(a.unary(UnOp::Neg, foreign), Err(Error::ArenaMismatch));
}

#[test]
fn builder_applies_identity_rules() {
    let mut a = Arena::new();
    let x = a.var_x();
    let zero = a.constant(0);
    let one = a.constant(1);
    assert_eq!(a.binary(BinOp::Add, x, zero).unwrap(), x);
    assert_eq!(a.binary(BinOp::Add, zero, x).unwrap(), x);
    assert_eq!(a.binary(BinOp::Sub, x, zero).unwrap(), x);
    assert_eq!(a.binary(BinOp::Mul, x, one).unwrap(), x);
    assert_eq!(a.binary(BinOp::Div, x, one).unwrap(), x);
    assert_eq!(a.binary(BinOp::Min, x, x).unwrap(), x);
    assert_eq!(a.binary(BinOp::Max, x, x).unwrap(), x);
}

#[test]
fn builder_folds_constants() {
    let mut a = Arena::new();
    let c2 = a.constant(2);
    let c3 = a.constant(3);
    let s = a.binary(BinOp::Add, c2, c3).unwrap();
    let c5 = a.constant(5);
    assert_eq!(s, c5);
    let p: Vec<i64> = vec![];
    assert_eq!(a.eval_scalar(s, &p), Ok(5));
}

#[test]
fn double_negation_collapses() {
    let mut a = Arena::new();
    let x = a.var_x();
    let n1 = a.unary(UnOp::Neg, x).unwrap();
    let n2 = a.unary(UnOp::Neg, n1).unwrap();
    assert_eq!(n2, x);
}

#[test]
fn scalar_division_truncates_toward_zero() {
    let mut a = Arena::new();
    let c7 = a.constant(-7);
    let c2 = a.constant(2);
    let q = a.binary(BinOp::Div, c7, c2).unwrap();
    let p: Vec<i64> = vec![];
    assert_eq!(a.eval_scalar(q, &p), Ok(-3));
}

#[test]
fn division_by_zero_is_a_domain_error() {
    let mut a = Arena::new();
    let one = a.constant(1);
    let zero = a.constant(0);
    let t = a.binary(BinOp::Div, one, zero).unwrap();
    let p: Vec<i64> = vec![];
    assert_eq!(a.eval_scalar(t, &p), Err(Error::DomainError));
}

#[test]
fn interval_division_around_zero_is_unbounded_not_a_failure() {
    let mut a = Arena::new();
    let one = a.constant(1);
    let zero = a.constant(0);
    let t = a.binary(BinOp::Div, one, zero).unwrap();
    let boxes: Vec<Interval> = vec![];
    assert_eq!(a.eval_interval(t, &boxes), Ok(Interval::All));

    let x = a.var_x();
    let q = a.binary(BinOp::Div, one, x).unwrap();
    let spanning: Vec<Interval> = vec![Interval::Fin { lo: -3, hi: 5 }];
    assert_eq!(a.eval_interval(q, &spanning), Ok(Interval::All));
}

#[test]
fn overflow_is_reported_never_wrapped() {
    let mut a = Arena::new();
    let big = a.constant(i64::MAX);
    let one = a.constant(1);
    let t = a.binary(BinOp::Add, big, one).unwrap();
    let p: Vec<i64> = vec![];
    assert_eq!(a.eval_scalar(t, &p), Err(Error::Overflow));
}

#[test]
fn unbound_variable_is_reported() {
    let mut a = Arena::new();
    let w = a.var(5);
    let p: Vec<i64> = vec![1, 2, 3];
    assert_eq!(a.eval_scalar(w, &p), Err(Error::UnboundVariable));
}

#[test]
fn evaluation_rejects_foreign_roots() {
    let a = Arena::new();
    let foreign = NodeRef { index: 3 };
    let p: Vec<i64> = vec![];
    assert_eq!(a.eval_scalar(foreign, &p), Err(Error::ArenaMismatch));
}

#[test]
fn interval_encloses_scalar_results() {
    let mut a = Arena::new();
    let x = a.var_x();
    let xx = a.binary(BinOp::Mul, x, x).unwrap();
    let one = a.constant(1);
    let t = a.binary(BinOp::Add, xx, one).unwrap();
    let boxes: Vec<Interval> = vec![Interval::Fin { lo: 1, hi: 2 }];
    let iv = a.eval_interval(t, &boxes).unwrap();
    for sample in 1..=2 {
        let p: Vec<i64> = vec![sample];
        let v = a.eval_scalar(t, &p).unwrap();
        assert!(iv.admits(v));
    }
    assert_eq!(iv, Interval::Fin { lo: 2, hi: 5 });
}

#[test]
fn interval_min_max_are_componentwise() {
    let mut a = Arena::new();
    let x = a.var_x();
    let y = a.var_y();
    let t = a.binary(BinOp::Min, x, y).unwrap();
    let boxes: Vec<Interval> = vec![
        Interval::Fin { lo: 0, hi: 10 },
        Interval::Fin { lo: -5, hi: 3 },
    ];
    assert_eq!(a.eval_interval(t, &boxes), Ok(Interval::Fin { lo: -5, hi: 3 }));
}

#[test]
fn simplify_folds_and_reuses_nodes() {
    let mut a = Arena::new();
    let c2 = a.intern(Node::Const { value: 2 }).unwrap();
    let raw_zero = a
        .intern(Node::Binary { op: BinOp::Sub, lhs: c2.index, rhs: c2.index })
        .unwrap();
    let x = a.var_x();
    let raw_sum = a
        .intern(Node::Binary { op: BinOp::Add, lhs: x.index, rhs: raw_zero.index })
        .unwrap();
    let s = a.simplify(raw_sum).unwrap();
    assert_eq!(s, x);
}

#[test]
fn simplify_is_idempotent() {
    let mut a = Arena::new();
    let c2 = a.intern(Node::Const { value: 2 }).unwrap();
    let c3 = a.intern(Node::Const { value: 3 }).unwrap();
    let raw = a
        .intern(Node::Binary { op: BinOp::Mul, lhs: c2.index, rhs: c3.index })
        .unwrap();
    let s1 = a.simplify(raw).unwrap();
    let s2 = a.simplify(s1).unwrap();
    assert_eq!(s1, s2);
    let p: Vec<i64> = vec![];
    assert_eq!(a.eval_scalar(s1, &p), Ok(6));
}

#[test]
fn simplify_preserves_scalar_results() {
    let mut a = Arena::new();
    let x = a.var_x();
    let c4 = a.intern(Node::Const { value: 4 }).unwrap();
    let c1 = a.intern(Node::Const { value: 1 }).unwrap();
    let prod = a
        .intern(Node::Binary { op: BinOp::Mul, lhs: c4.index, rhs: c1.index })
        .unwrap();
    let t = a
        .intern(Node::Binary { op: BinOp::Add, lhs: x.index, rhs: prod.index })
        .unwrap();
    let s = a.simplify(t).unwrap();
    for sample in [-3i64, 0, 5, 100] {
        let p: Vec<i64> = vec![sample];
        assert_eq!(a.eval_scalar(t, &p), a.eval_scalar(s, &p));
    }
}

#[test]
fn gradient_matches_exact_derivative() {
    let mut a = Arena::new();
    let t = xx_plus_yy(&mut a);
    let p: Vec<i64> = vec![3, 4];
    let g = a.eval_gradient(t, &p).unwrap();
    assert_eq!(g.value, 25);
    assert_eq!(g.partials, vec![6, 8]);
}

#[test]
fn gradient_value_agrees_with_scalar_evaluation() {
    let mut a = Arena::new();
    let t = xx_plus_yy(&mut a);
    let p: Vec<i64> = vec![-2, 7];
    let g = a.eval_gradient(t, &p).unwrap();
    assert_eq!(a.eval_scalar(t, &p), Ok(g.value));
}

#[test]
fn gradient_min_tie_prefers_first_operand() {
    let mut a = Arena::new();
    let x = a.var_x();
    let y = a.var_y();
    let t = a.binary(BinOp::Min, x, y).unwrap();
    let p: Vec<i64> = vec![5, 5];
    let g = a.eval_gradient(t, &p).unwrap();
    assert_eq!(g.value, 5);
    assert_eq!(g.partials, vec![1, 0]);
}

#[test]
fn gradient_of_absolute_value() {
    let mut a = Arena::new();
    let x = a.var_x();
    let t = a.unary(UnOp::Abs, x).unwrap();
    let p: Vec<i64> = vec![-3];
    let g = a.eval_gradient(t, &p).unwrap();
    assert_eq!(g.value, 3);
    assert_eq!(g.partials, vec![-1]);
}

#[test]
fn gradient_of_quotient_is_a_domain_error() {
    let mut a = Arena::new();
    let x = a.var_x();
    let c2 = a.constant(2);
    let t = a.binary(BinOp::Div, x, c2).unwrap();
    let p: Vec<i64> = vec![8];
    assert_eq!(a.eval_scalar(t, &p), Ok(4));
    assert!(a.eval_gradient(t, &p).is_err());
}

#[test]
fn sphere_and_box_signs_at_origin_and_far_away() {
    let mut a = Arena::new();
    let sph = a.sphere(1, 0, 0, 0);
    let zero = a.constant(0);
    let shifted = a.binary(BinOp::Sub, sph, zero).unwrap();
    let bx = a.box_mitered(-2, -2, -2, 2, 2, 2);
    let t = a.binary(BinOp::Min, shifted, bx).unwrap();

    let origin: Vec<i64> = vec![0, 0, 0];
    let inside = a.eval_scalar(t, &origin).unwrap();
    assert!(inside < 0);
    assert_eq!(inside, -2);

    let far: Vec<i64> = vec![10, 0, 0];
    let outside = a.eval_scalar(t, &far).unwrap();
    assert!(outside > 0);
    assert_eq!(outside, 8);
}

#[test]
fn circle_sign_encodes_inside_and_outside() {
    let mut a = Arena::new();
    let c = a.circle(5, 1, 1);
    let inside: Vec<i64> = vec![1, 1];
    assert_eq!(a.eval_scalar(c, &inside), Ok(-25));
    let on_surface: Vec<i64> = vec![4, 5];
    assert_eq!(a.eval_scalar(c, &on_surface), Ok(0));
    let outside: Vec<i64> = vec![9, 1];
    assert_eq!(a.eval_scalar(c, &outside), Ok(39));
}

#[test]
fn ring_is_outer_minus_inner() {
    let mut a = Arena::new();
    let r = a.ring(5, 2, 0, 0);
    let in_band: Vec<i64> = vec![3, 0];
    assert!(a.eval_scalar(r, &in_band).unwrap() < 0);
    let in_hole: Vec<i64> = vec![1, 0];
    assert!(a.eval_scalar(r, &in_hole).unwrap() > 0);
    let outside: Vec<i64> = vec![7, 0];
    assert!(a.eval_scalar(r, &outside).unwrap() > 0);
}

#[test]
fn rectangle_and_cylinder_signs() {
    let mut a = Arena::new();
    let rect = a.rectangle(0, 0, 4, 2);
    let inside: Vec<i64> = vec![2, 1];
    assert!(a.eval_scalar(rect, &inside).unwrap() < 0);
    let outside: Vec<i64> = vec![5, 1];
    assert!(a.eval_scalar(rect, &outside).unwrap() > 0);

    let cyl = a.cylinder_z(3, 0, 10, 0, 0);
    let in_cyl: Vec<i64> = vec![1, 1, 5];
    assert!(a.eval_scalar(cyl, &in_cyl).unwrap() < 0);
    let above: Vec<i64> = vec![0, 0, 12];
    assert!(a.eval_scalar(cyl, &above).unwrap() > 0);
}

#[test]
fn cone_narrows_toward_its_apex() {
    let mut a = Arena::new();
    let t = a.cone_z(4, 0, 4, 0, 0);
    let inside: Vec<i64> = vec![1, 1, 1];
    assert_eq!(a.eval_scalar(t, &inside), Ok(-1));
    let on_base: Vec<i64> = vec![0, 0, 0];
    assert_eq!(a.eval_scalar(t, &on_base), Ok(0));
    let beside: Vec<i64> = vec![4, 0, 2];
    assert!(a.eval_scalar(t, &beside).unwrap() > 0);
    let above_apex: Vec<i64> = vec![0, 0, 5];
    assert!(a.eval_scalar(t, &above_apex).unwrap() > 0);
}

#[test]
fn pyramid_narrows_from_base_to_apex() {
    let mut a = Arena::new();
    let t = a.pyramid_z(0, 0, 4, 4, 0, 4);
    let inside: Vec<i64> = vec![2, 2, 1];
    assert_eq!(a.eval_scalar(t, &inside), Ok(-1));
    let apex: Vec<i64> = vec![2, 2, 4];
    assert_eq!(a.eval_scalar(t, &apex), Ok(0));
    let beside: Vec<i64> = vec![4, 4, 3];
    assert!(a.eval_scalar(t, &beside).unwrap() > 0);
    let below_base: Vec<i64> = vec![2, 2, -1];
    assert!(a.eval_scalar(t, &below_base).unwrap() > 0);
}

#[test]
fn half_space_sign_follows_the_normal() {
    let mut a = Arena::new();
    let h = a.half_space(0, 0, 1, 0, 0, 4);
    let below: Vec<i64> = vec![0, 0, 1];
    assert_eq!(a.eval_scalar(h, &below), Ok(-3));
    let above: Vec<i64> = vec![7, -2, 9];
    assert_eq!(a.eval_scalar(h, &above), Ok(5));
}

#[test]
fn torus_signs_on_tube_in_hole_and_outside() {
    let mut a = Arena::new();
    let t = a.torus_z(5, 2, 0, 0, 0);
    let in_tube: Vec<i64> = vec![4, 0, 0];
    assert_eq!(a.eval_scalar(t, &in_tube), Ok(-108));
    let on_outer_edge: Vec<i64> = vec![5, 0, 0];
    assert_eq!(a.eval_scalar(t, &on_outer_edge), Ok(0));
    let in_hole: Vec<i64> = vec![0, 0, 0];
    assert!(a.eval_scalar(t, &in_hole).unwrap() > 0);
    let outside: Vec<i64> = vec![10, 0, 0];
    assert!(a.eval_scalar(t, &outside).unwrap() > 0);
}

#[test]
fn centered_box_is_the_corner_box_reparameterized() {
    let mut a = Arena::new();
    let centered = a.box_mitered_centered(4, 4, 4, 0, 0, 0);
    let cornered = a.box_mitered(-2, -2, -2, 2, 2, 2);
    assert_eq!(centered, cornered);
    for p in [[0i64, 0, 0], [2, 0, 0], [3, 0, 0], [-5, 1, 1]] {
        let point: Vec<i64> = p.to_vec();
        assert_eq!(a.eval_scalar(centered, &point), a.eval_scalar(cornered, &point));
    }
    let center: Vec<i64> = vec![0, 0, 0];
    assert_eq!(a.eval_scalar(centered, &center), Ok(-2));
    let on_face: Vec<i64> = vec![2, 0, 0];
    assert_eq!(a.eval_scalar(centered, &on_face), Ok(0));
    let outside: Vec<i64> = vec![3, 0, 0];
    assert_eq!(a.eval_scalar(centered, &outside), Ok(1));
}

#[test]
fn rounded_rectangle_cuts_and_rounds_the_corners() {
    let mut a = Arena::new();
    let t = a.rounded_rectangle(0, 0, 10, 10, 2);
    let middle: Vec<i64> = vec![5, 5];
    assert_eq!(a.eval_scalar(t, &middle), Ok(-3));
    let sharp_corner: Vec<i64> = vec![0, 0];
    assert_eq!(a.eval_scalar(t, &sharp_corner), Ok(2));
    let inside_round_corner: Vec<i64> = vec![1, 1];
    assert_eq!(a.eval_scalar(t, &inside_round_corner), Ok(-2));
    let on_edge: Vec<i64> = vec![5, 0];
    assert_eq!(a.eval_scalar(t, &on_edge), Ok(0));
}

#[test]
fn triangle_signs_and_winding_normalization() {
    let mut a = Arena::new();
    let ccw = a.triangle(0, 0, 10, 0, 0, 10);
    let inside: Vec<i64> = vec![1, 1];
    assert_eq!(a.eval_scalar(ccw, &inside), Ok(-10));
    let outside: Vec<i64> = vec![10, 10];
    assert!(a.eval_scalar(ccw, &outside).unwrap() > 0);
    let on_edge: Vec<i64> = vec![5, 0];
    assert_eq!(a.eval_scalar(ccw, &on_edge), Ok(0));
    let cw = a.triangle(0, 0, 0, 10, 10, 0);
    assert_eq!(ccw, cw);
}

#[test]
fn centered_rectangle_is_the_corner_rectangle_reparameterized() {
    let mut a = Arena::new();
    let centered = a.rectangle_centered(6, 4, 1, 1);
    let cornered = a.rectangle(-2, -1, 4, 3);
    assert_eq!(centered, cornered);
    let inside: Vec<i64> = vec![1, 1];
    assert!(a.eval_scalar(centered, &inside).unwrap() < 0);
}

#[test]
fn centered_box_truncates_an_odd_width() {
    let mut a = Arena::new();
    let t = a.box_mitered_centered(5, 5, 5, 0, 0, 0);
    let same = a.box_mitered(-2, -2, -2, 2, 2, 2);
    assert_eq!(t, same);
}

#[test]
fn torus_midline_is_inside() {
    let mut a = Arena::new();
    let t = a.torus_z(20, 2, 0, 0, 0);
    let midline: Vec<i64> = vec![11, 0, 0];
    assert!(a.eval_scalar(t, &midline).unwrap() < 0);
}

#[test]
fn emptiness_is_positive_everywhere() {
    let mut a = Arena::new();
    let e = a.emptiness();
    for sample in [[-9i64, 0, 3], [0, 0, 0], [100, -100, 50]] {
        let p: Vec<i64> = sample.to_vec();
        assert!(a.eval_scalar(e, &p).unwrap() > 0);
    }
}

#[test]
fn remap_substitutes_variables() {
    let mut a = Arena::new();
    let t = a.var_x();
    let ys = a.var_y();
    let xs = a.var_x();
    let zs = a.var_z();
    let swapped = a.remap_xyz(t, ys, xs, zs).unwrap();
    let p: Vec<i64> = vec![3, 11, 7];
    assert_eq!(a.eval_scalar(swapped, &p), Ok(11));
}

#[test]
fn shift_translates_a_shape() {
    let mut a = Arena::new();
    let c = a.circle(5, 0, 0);
    let moved = a.shift(c, 10, 0, 0).unwrap();
    let on_surface: Vec<i64> = vec![13, 4, 0];
    assert_eq!(a.eval_scalar(moved, &on_surface), Ok(0));
    let center: Vec<i64> = vec![10, 0, 0];
    assert_eq!(a.eval_scalar(moved, &center), Ok(-25));
}

#[test]
fn scale_divides_coordinates() {
    let mut a = Arena::new();
    let t = a.var_x();
    let wider = a.scale(t, 2, 1, 1).unwrap();
    let p: Vec<i64> = vec![7, 0, 0];
    assert_eq!(a.eval_scalar(wider, &p), Ok(3));
    let q: Vec<i64> = vec![-7, 0, 0];
    assert_eq!(a.eval_scalar(wider, &q), Ok(-3));
}

#[test]
fn interval_prunes_an_empty_region() {
    let mut a = Arena::new();
    let sph = a.sphere(1, 0, 0, 0);
    let far_box: Vec<Interval> = vec![
        Interval::Fin { lo: 10, hi: 20 },
        Interval::Fin { lo: 10, hi: 20 },
        Interval::Fin { lo: 10, hi: 20 },
    ];
    let iv = a.eval_interval(sph, &far_box).unwrap();
    match iv {
        Interval::Fin { lo, hi } => {
            assert!(lo > 0);
            assert!(hi >= lo);
        },
        Interval::All => panic!("expected a finite enclosure"),
    }
}
