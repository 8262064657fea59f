use scalar_autograd::graph::{Graph, Op};
use scalar_autograd::scalar::Scalar;
use scalar_autograd::topo::topo_order;

#[derive(Debug, Clone, Copy, PartialEq)]
struct F(f32);

impl Scalar for F {
    fn spec_zero() -> Self {
        F(0.0)
    }
    fn spec_one() -> Self {
        F(1.0)
    }
    fn spec_plus(self, o: Self) -> Self {
        F(self.0 + o.0)
    }
    fn spec_minus(self, o: Self) -> Self {
        F(self.0 - o.0)
    }
    fn spec_times(self, o: Self) -> Self {
        F(self.0 * o.0)
    }
    fn spec_divide(self, o: Self) -> Self {
        F(self.0 / o.0)
    }
    fn spec_negate(self) -> Self {
        F(-self.0)
    }
    fn spec_power(self, e: Self) -> Self {
        F(self.0.powf(e.0))
    }
    fn spec_exponential(self) -> Self {
        F(self.0.exp())
    }
    fn zero() -> Self {
        Self::spec_zero()
    }
    fn one() -> Self {
        Self::spec_one()
    }
    fn plus(&self, o: &Self) -> Self {
        self.spec_plus(*o)
    }
    fn minus(&self, o: &Self) -> Self {
        self.spec_minus(*o)
    }
    fn times(&self, o: &Self) -> Self {
        self.spec_times(*o)
    }
    fn divide(&self, o: &Self) -> Self {
        self.spec_divide(*o)
    }
    fn negate(&self) -> Self {
        self.spec_negate()
    }
    fn power(&self, e: &Self) -> Self {
        self.spec_power(*e)
    }
    fn exponential(&self) -> Self {
        self.spec_exponential()
    }
    fn duplicate(&self) -> Self {
        *self
    }
}

fn close(a: f32, b: f32, tol: f32) -> bool {
    (a - b).abs() <= tol
}

fn data(g: &Graph<F>, i: usize) -> f32 {
    g.data(i).0
}

fn grad(g: &Graph<F>, i: usize) -> f32 {
    g.grad(i).0
}

#[test]
fn leaf_starts_with_zero_gradient() {
    let mut g: Graph<F> = Graph::new();
    let a = g.leaf(F(2.5));
    assert_eq!(a, 0);
    assert_eq!(g.len(), 1);
    assert_eq!(data(&g, a), 2.5);
    assert_eq!(grad(&g, a), 0.0);
    assert!(g.prev(a).is_empty());
    assert_eq!(g.op(a), "");
}

#[test]
fn forward_values_and_labels() {
    let mut g: Graph<F> = Graph::new();
    let a = g.leaf(F(6.0));
    let b = g.leaf(F(3.0));
    let s = g.add(a, b);
    let d = g.sub(a, b);
    let m = g.mul(a, b);
    let q = g.div(a, b);
    let p = g.pow(b, F(2.0));
    let e = g.exp(b);
    let t = g.tanh(b);
    assert_eq!(data(&g, s), 9.0);
    assert_eq!(data(&g, d), 3.0);
    assert_eq!(data(&g, m), 18.0);
    assert_eq!(data(&g, q), 2.0);
    assert!(close(data(&g, p), 9.0, 1e-5));
    assert!(close(data(&g, e), 3.0f32.exp(), 1e-3));
    assert!(close(data(&g, t), 3.0f32.tanh(), 1e-5));
    assert_eq!(g.op(s), "+");
    assert_eq!(g.op(d), "-");
    assert_eq!(g.op(m), "*");
    assert_eq!(g.op(q), "/");
    assert_eq!(g.op(p), "**");
    assert_eq!(g.op(e), "exp");
    assert_eq!(g.op(t), "tanh");
    assert_eq!(g.prev(d), vec![a, b]);
    assert_eq!(g.prev(p), vec![b]);
    assert!(matches!(g.operation(p), Op::Pow(F(k)) if *k == 2.0));
    assert!(matches!(g.operation(a), Op::Leaf));
}

#[test]
fn fan_out_accumulates() {
    let mut g: Graph<F> = Graph::new();
    let a = g.leaf(F(1.0));
    let b = g.leaf(F(2.0));
    let c = g.leaf(F(3.0));
    let s1 = g.add(a, b);
    let s2 = g.add(a, c);
    let root = g.add(s1, s2);
    g.backward(root);
    assert_eq!(grad(&g, a), 2.0);
    assert_eq!(grad(&g, b), 1.0);
    assert_eq!(grad(&g, c), 1.0);
}

#[test]
fn same_operand_twice_accumulates() {
    let mut g: Graph<F> = Graph::new();
    let x = g.leaf(F(3.0));
    let y = g.mul(x, x);
    g.backward(y);
    assert_eq!(grad(&g, x), 6.0);
}

#[test]
fn pow_gradient() {
    for k in [2.0f32, 3.0, 0.5, -1.0] {
        let mut g: Graph<F> = Graph::new();
        let x = g.leaf(F(1.5));
        let y = g.pow(x, F(k));
        g.backward(y);
        let expected = k * 1.5f32.powf(k - 1.0);
        assert!(close(grad(&g, x), expected, 1e-5), "k = {}", k);
    }
}

#[test]
fn pow_of_negative_base_by_fraction_is_nan() {
    let mut g: Graph<F> = Graph::new();
    let x = g.leaf(F(-4.0));
    let y = g.pow(x, F(0.5));
    assert!(data(&g, y).is_nan());
    g.backward(y);
    assert!(grad(&g, x).is_nan());
}

#[test]
fn product_rule() {
    let mut g: Graph<F> = Graph::new();
    let a = g.leaf(F(-2.0));
    let b = g.leaf(F(5.0));
    let y = g.mul(a, b);
    g.backward(y);
    assert_eq!(grad(&g, a), 5.0);
    assert_eq!(grad(&g, b), -2.0);
}

#[test]
fn quotient_rule() {
    let mut g: Graph<F> = Graph::new();
    let a = g.leaf(F(3.0));
    let b = g.leaf(F(2.0));
    let y = g.div(a, b);
    g.backward(y);
    assert!(close(grad(&g, a), 0.5, 1e-6));
    assert!(close(grad(&g, b), -0.75, 1e-6));
}

#[test]
fn division_by_zero_is_infinite() {
    let mut g: Graph<F> = Graph::new();
    let a = g.leaf(F(1.0));
    let b = g.leaf(F(0.0));
    let y = g.div(a, b);
    assert!(data(&g, y).is_infinite());
}

#[test]
fn sub_gradient() {
    let mut g: Graph<F> = Graph::new();
    let a = g.leaf(F(4.0));
    let b = g.leaf(F(1.0));
    let y = g.sub(a, b);
    g.backward(y);
    assert_eq!(grad(&g, a), 1.0);
    assert_eq!(grad(&g, b), -1.0);
}

#[test]
fn exp_gradient() {
    let mut g: Graph<F> = Graph::new();
    let a = g.leaf(F(0.5));
    let y = g.exp(a);
    g.backward(y);
    assert!(close(grad(&g, a), 0.5f32.exp(), 1e-6));
    assert_eq!(grad(&g, a), data(&g, y));
}

#[test]
fn tanh_bound_and_gradient() {
    for x in [-5.0f32, -1.0, -0.1, 0.0, 0.3, 2.0, 5.0] {
        let mut g: Graph<F> = Graph::new();
        let a = g.leaf(F(x));
        let t = g.tanh(a);
        let v = data(&g, t);
        assert!(v > -1.0 && v < 1.0, "x = {}", x);
        g.backward(t);
        assert!(close(grad(&g, a), 1.0 - v * v, 1e-6), "x = {}", x);
    }
}

#[test]
fn seed_overrides_prior_gradient() {
    let mut g: Graph<F> = Graph::new();
    let a = g.leaf(F(2.0));
    let b = g.leaf(F(3.0));
    let y = g.mul(a, b);
    g.set_grad(y, F(42.0));
    g.backward(y);
    assert_eq!(grad(&g, y), 1.0);
    g.backward_from(y, F(-2.0));
    assert_eq!(grad(&g, y), -2.0);
}

#[test]
fn backward_twice_doubles() {
    let mut g: Graph<F> = Graph::new();
    let a = g.leaf(F(2.0));
    let b = g.leaf(F(-3.0));
    let y = g.mul(a, b);
    g.backward(y);
    let once = [grad(&g, a), grad(&g, b)];
    g.backward(y);
    let twice = [grad(&g, a), grad(&g, b)];
    for k in 0..2 {
        assert_eq!(twice[k], 2.0 * once[k]);
    }
    assert_eq!(grad(&g, y), 1.0);
}

#[test]
fn backward_twice_compounds_through_intermediate_nodes() {
    let mut g: Graph<F> = Graph::new();
    let a = g.leaf(F(2.0));
    let b = g.leaf(F(-3.0));
    let c = g.leaf(F(10.0));
    let e = g.mul(a, b);
    let d = g.add(e, c);
    g.backward(d);
    assert_eq!(grad(&g, a), -3.0);
    assert_eq!(grad(&g, e), 1.0);
    g.backward(d);
    assert_eq!(grad(&g, e), 2.0);
    assert_eq!(grad(&g, c), 2.0);
    assert_eq!(grad(&g, a), -9.0);
}

#[test]
fn unreachable_node_keeps_gradient() {
    let mut g: Graph<F> = Graph::new();
    let a = g.leaf(F(2.0));
    let b = g.leaf(F(3.0));
    let lone = g.leaf(F(7.0));
    let other = g.mul(b, lone);
    let y = g.add(a, b);
    g.set_grad(lone, F(0.25));
    g.set_grad(other, F(-4.0));
    g.backward(y);
    assert_eq!(grad(&g, lone), 0.25);
    assert_eq!(grad(&g, other), -4.0);
    assert_eq!(grad(&g, a), 1.0);
    assert_eq!(grad(&g, b), 1.0);
}

#[test]
fn end_to_end_neuron() {
    let mut g: Graph<F> = Graph::new();
    let x1 = g.leaf(F(2.0));
    let x2 = g.leaf(F(0.0));
    let w1 = g.leaf(F(-3.0));
    let w2 = g.leaf(F(1.0));
    let b = g.leaf(F(6.881_373_6));
    let x1w1 = g.mul(x1, w1);
    let x2w2 = g.mul(x2, w2);
    let s = g.add(x1w1, x2w2);
    let n = g.add(s, b);
    let o = g.tanh(n);
    g.backward(o);
    assert!(close(data(&g, o), 0.7071, 1e-3));
    assert!(close(grad(&g, x1), -1.5, 1e-3));
    assert!(close(grad(&g, w1), 1.0, 1e-3));
    assert!(close(grad(&g, x2), 0.5, 1e-3));
    assert!(close(grad(&g, w2), 0.0, 1e-3));
    assert!(close(grad(&g, b), 0.5, 1e-3));
}

#[test]
fn set_data_overwrites_value_only() {
    let mut g: Graph<F> = Graph::new();
    let a = g.leaf(F(1.0));
    g.set_grad(a, F(3.0));
    g.set_data(a, F(-1.0));
    assert_eq!(data(&g, a), -1.0);
    assert_eq!(grad(&g, a), 3.0);
    g.add_grad(a, &F(0.5));
    assert_eq!(grad(&g, a), 3.5);
}

#[test]
fn topo_order_lists_reachable_nodes_once() {
    let mut g: Graph<F> = Graph::new();
    let a = g.leaf(F(1.0));
    let unused = g.leaf(F(9.0));
    let b = g.leaf(F(2.0));
    let s1 = g.add(a, b);
    let s2 = g.mul(a, s1);
    let root = g.add(s1, s2);
    let after = g.exp(root);
    assert_eq!(topo_order(&g, root), vec![a, b, s1, s2, root]);
    assert_eq!(topo_order(&g, a), vec![a]);
    assert_eq!(topo_order(&g, after), vec![a, b, s1, s2, root, after]);
    assert!(!topo_order(&g, root).contains(&unused));
}

#[test]
fn topo_order_of_repeated_operand() {
    let mut g: Graph<F> = Graph::new();
    let x = g.leaf(F(3.0));
    let y = g.mul(x, x);
    let z = g.pow(y, F(2.0));
    assert_eq!(topo_order(&g, z), vec![x, y, z]);
    g.backward(z);
    assert_eq!(grad(&g, y), 18.0);
    assert_eq!(grad(&g, x), 108.0);
}

#[test]
fn rules_use_values_from_construction() {
    let mut g: Graph<F> = Graph::new();
    let a = g.leaf(F(2.0));
    let b = g.leaf(F(3.0));
    let y = g.mul(a, b);
    g.set_data(a, F(100.0));
    g.set_data(b, F(-7.0));
    g.backward(y);
    assert_eq!(grad(&g, a), 3.0);
    assert_eq!(grad(&g, b), 2.0);
    assert_eq!(data(&g, y), 6.0);
}

#[test]
fn seeded_gradient_feeds_the_rules() {
    let mut g: Graph<F> = Graph::new();
    let a = g.leaf(F(2.0));
    let b = g.leaf(F(3.0));
    let r = g.mul(a, b);
    g.set_grad(r, F(5.0));
    g.backward(r);
    assert_eq!(grad(&g, r), 1.0);
    assert_eq!(grad(&g, a), 3.0);
    assert_eq!(grad(&g, b), 2.0);
}

#[test]
fn shared_node_added_to_itself() {
    let mut g: Graph<F> = Graph::new();
    let a = g.leaf(F(3.0));
    let y = g.add(a, a);
    assert_eq!(data(&g, y), 6.0);
    g.backward(y);
    assert_eq!(grad(&g, a), 2.0);
}

#[test]
fn intermediate_rule_runs_after_all_contributions() {
    let mut g: Graph<F> = Graph::new();
    let a = g.leaf(F(1.0));
    let b = g.leaf(F(2.0));
    let s = g.add(a, b);
    let r = g.mul(s, s);
    assert_eq!(data(&g, r), 9.0);
    g.backward(r);
    assert_eq!(grad(&g, s), 6.0);
    assert_eq!(grad(&g, a), 6.0);
    assert_eq!(grad(&g, b), 6.0);
}

#[test]
fn equal_values_are_distinct_nodes() {
    let mut g: Graph<F> = Graph::new();
    let a = g.leaf(F(1.0));
    let b = g.leaf(F(2.0));
    let c = g.leaf(F(2.0));
    let d = g.leaf(F(1.0));
    let s1 = g.add(a, b);
    let s2 = g.add(c, d);
    let y = g.mul(s1, s2);
    assert_eq!(data(&g, y), 9.0);
    g.backward(y);
    for n in [s1, s2, a, b, c, d] {
        assert_eq!(grad(&g, n), 3.0);
    }
}

#[test]
fn truncate_drops_later_nodes() {
    let mut g: Graph<F> = Graph::new();
    let a = g.leaf(F(1.5));
    let b = g.leaf(F(2.0));
    let keep = g.len();
    let y = g.mul(a, b);
    g.backward(y);
    g.truncate(keep);
    assert_eq!(g.len(), 2);
    assert_eq!(data(&g, a), 1.5);
    assert_eq!(grad(&g, a), 2.0);
    let z = g.add(a, b);
    assert_eq!(z, 2);
    assert_eq!(data(&g, z), 3.5);
}
