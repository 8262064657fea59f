use vstd::prelude::*;
use crate::scalar::Scalar;
use crate::topo::{lemma_reach_below, lemma_reach_self, lemma_reach_step, topo_order};

verus! {

/// The operation that produced a node.
pub enum Op<T> {
    Leaf,
    Add,
    Sub,
    Mul,
    Div,
    /// Raising to a constant exponent; no gradient flows to the exponent.
    Pow(T),
    Tanh,
    Exp,
}

impl<T> Op<T> {
    /// How many operands a node with this operation has.
    pub open spec fn arity(&self) -> nat {
        match self {
            Op::Leaf => 0,
            Op::Pow(_) | Op::Tanh | Op::Exp => 1,
            _ => 2,
        }
    }

    /// A short human-readable tag, for diagnostics only.
    pub open spec fn tag(&self) -> Seq<char> {
        match self {
            Op::Leaf => ""@,
            Op::Add => "+"@,
            Op::Sub => "-"@,
            Op::Mul => "*"@,
            Op::Div => "/"@,
            Op::Pow(_) => "**"@,
            Op::Tanh => "tanh"@,
            Op::Exp => "exp"@,
        }
    }

    /// The tag of this operation.
    pub fn label(&self) -> (r: &'static str)
        ensures
            r@ == self.tag(),
    {
        match self {
            Op::Leaf => "",
            Op::Add => "+",
            Op::Sub => "-",
            Op::Mul => "*",
            Op::Div => "/",
            Op::Pow(_) => "**",
            Op::Tanh => "tanh",
            Op::Exp => "exp",
        }
    }
}

/// An arena of scalar nodes: node `i` holds a forward value, an accumulated
/// gradient, the operation that produced it and the indices of its operands.
/// It also keeps, for its gradient rule, its own value and its operands'
/// values as they were when it was made; later changes of a value through
/// [`Graph::set_data`] do not reach them.
///
/// Every operand index is smaller than the index of the node that uses it.
pub struct Graph<T> {
    values: Vec<T>,
    grads: Vec<T>,
    ops: Vec<Op<T>>,
    operands: Vec<Vec<usize>>,
    inputs: Vec<Vec<T>>,
    outputs: Vec<T>,
}

impl<T> Graph<T> {
    /// The number of nodes.
    pub closed spec fn size(&self) -> nat {
        self.values@.len()
    }

    /// The forward values, by node.
    pub closed spec fn values_of(&self) -> Seq<T> {
        self.values@
    }

    /// The gradients, by node.
    pub closed spec fn grads_of(&self) -> Seq<T> {
        self.grads@
    }

    /// The operations, by node.
    pub closed spec fn ops_of(&self) -> Seq<Op<T>> {
        self.ops@
    }

    /// The operand indices of node `i`, in order.
    pub closed spec fn args(&self, i: int) -> Seq<usize> {
        self.operands@[i]@
    }

    /// The values of the operands of node `i` when it was made, in order.
    pub closed spec fn inputs_of(&self, i: int) -> Seq<T> {
        self.inputs@[i]@
    }

    /// The value of each node when it was made, by node.
    pub closed spec fn outputs_of(&self) -> Seq<T> {
        self.outputs@
    }

    /// All per-node sequences have one entry per node, each node has as many
    /// operands as its operation takes, and every operand precedes its consumer.
    pub closed spec fn wf(&self) -> bool {
        &&& self.grads@.len() == self.values@.len()
        &&& self.ops@.len() == self.values@.len()
        &&& self.operands@.len() == self.values@.len()
        &&& self.inputs@.len() == self.values@.len()
        &&& self.outputs@.len() == self.values@.len()
        &&& forall|i: int|
            0 <= i < self.values@.len() ==> (#[trigger] self.inputs@[i])@.len()
                == self.operands@[i]@.len()
        &&& forall|i: int|
            0 <= i < self.values@.len() ==> (#[trigger] self.operands@[i])@.len()
                == self.ops@[i].arity()
        &&& forall|i: int, k: int|
            0 <= i < self.values@.len() && 0 <= k < self.operands@[i]@.len() ==> (
            #[trigger] self.operands@[i]@[k]) < i
    }

    /// `v` is an operand of `u`.
    pub open spec fn edge(&self, u: int, v: int) -> bool {
        &&& 0 <= u < self.size()
        &&& exists|k: int| 0 <= k < self.args(u).len() && #[trigger] self.args(u)[k] == v
    }

    /// `p` is a non-empty walk from consumers to operands.
    pub open spec fn is_path(&self, p: Seq<int>) -> bool {
        &&& p.len() >= 1
        &&& forall|j: int| 0 <= j < p.len() - 1 ==> self.edge(#[trigger] p[j], p[j + 1])
    }

    /// `v` is `root` or is used, directly or transitively, to compute `root`.
    pub open spec fn reaches(&self, root: int, v: int) -> bool {
        exists|p: Seq<int>| #[trigger] self.is_path(p) && p[0] == root && p.last() == v
    }

    /// `self` is `o` with one node appended.
    pub open spec fn appends_one(&self, o: &Self) -> bool {
        &&& self.size() == o.size() + 1
        &&& self.values_of().subrange(0, o.size() as int) == o.values_of()
        &&& self.grads_of().subrange(0, o.size() as int) == o.grads_of()
        &&& self.ops_of().subrange(0, o.size() as int) == o.ops_of()
        &&& self.outputs_of().subrange(0, o.size() as int) == o.outputs_of()
        &&& forall|i: int| 0 <= i < o.size() ==> #[trigger] self.args(i) == o.args(i)
        &&& forall|i: int| 0 <= i < o.size() ==> #[trigger] self.inputs_of(i) == o.inputs_of(i)
    }

    /// `self` and `o` have the same shape: operations, operands and the
    /// values kept for the gradient rules.
    pub open spec fn same_shape(&self, o: &Self) -> bool {
        &&& self.size() == o.size()
        &&& self.ops_of() == o.ops_of()
        &&& self.outputs_of() == o.outputs_of()
        &&& forall|i: int| 0 <= i < o.size() ==> #[trigger] self.args(i) == o.args(i)
        &&& forall|i: int| 0 <= i < o.size() ==> #[trigger] self.inputs_of(i) == o.inputs_of(i)
    }

    /// `self` and `o` hold the same nodes: the same shape and the same values.
    pub open spec fn same_nodes(&self, o: &Self) -> bool {
        &&& self.same_shape(o)
        &&& self.values_of() == o.values_of()
    }

    /// Every operand of node `i` comes before `i`.
    pub proof fn lemma_args_below(&self, i: int)
        requires
            self.wf(),
            0 <= i < self.size(),
        ensures
            self.args(i).len() == self.ops_of()[i].arity(),
            forall|k: int| 0 <= k < self.args(i).len() ==> #[trigger] self.args(i)[k] < i,
    {
        assert(self.operands@[i]@.len() == self.ops@[i].arity());
        assert forall|k: int| 0 <= k < self.args(i).len() implies #[trigger] self.args(i)[k] < i by {
            assert(self.operands@[i]@[k] < i);
        }
    }

    /// Each per-node sequence has one entry per node.
    pub proof fn lemma_lengths(&self)
        requires
            self.wf(),
        ensures
            self.values_of().len() == self.size(),
            self.grads_of().len() == self.size(),
            self.ops_of().len() == self.size(),
            self.outputs_of().len() == self.size(),
    {
    }

    /// An operand has a smaller index than its consumer.
    pub proof fn lemma_edge_below(&self, u: int, v: int)
        requires
            self.wf(),
            self.edge(u, v),
        ensures
            0 <= v < u,
    {
        self.lemma_args_below(u);
        let k = choose|k: int| 0 <= k < self.args(u).len() && #[trigger] self.args(u)[k] == v;
        assert(self.args(u)[k] < u);
    }

    /// Graphs that hold the same nodes agree on what reaches what.
    pub proof fn lemma_same_nodes_reaches(&self, o: &Self, root: int, v: int)
        requires
            self.same_nodes(o),
            self.reaches(root, v),
        ensures
            o.reaches(root, v),
    {
        let p = choose|p: Seq<int>| #[trigger] self.is_path(p) && p[0] == root && p.last() == v;
        assert forall|j: int| 0 <= j < p.len() - 1 implies o.edge(#[trigger] p[j], p[j + 1]) by {
            assert(self.edge(p[j], p[j + 1]));
            assert(self.args(p[j]) == o.args(p[j]));
        }
        assert(o.is_path(p));
    }

    /// An empty graph.
    pub fn new() -> (r: Self)
        ensures
            r.wf(),
            r.size() == 0,
    {
        Graph {
            values: Vec::new(),
            grads: Vec::new(),
            ops: Vec::new(),
            operands: Vec::new(),
            inputs: Vec::new(),
            outputs: Vec::new(),
        }
    }

    /// The number of nodes.
    pub fn len(&self) -> (r: usize)
        requires
            self.wf(),
        ensures
            r == self.size(),
    {
        self.values.len()
    }

    /// The forward value of node `i`.
    pub fn data(&self, i: usize) -> (r: &T)
        requires
            self.wf(),
            i < self.size(),
        ensures
            *r == self.values_of()[i as int],
    {
        &self.values[i]
    }

    /// The accumulated gradient of node `i`.
    pub fn grad(&self, i: usize) -> (r: &T)
        requires
            self.wf(),
            i < self.size(),
        ensures
            *r == self.grads_of()[i as int],
    {
        &self.grads[i]
    }

    /// The operation that produced node `i`.
    pub fn operation(&self, i: usize) -> (r: &Op<T>)
        requires
            self.wf(),
            i < self.size(),
        ensures
            *r == self.ops_of()[i as int],
    {
        &self.ops[i]
    }

    /// The tag of the operation that produced node `i`, for diagnostics.
    pub fn op(&self, i: usize) -> (r: String)
        requires
            self.wf(),
            i < self.size(),
        ensures
            r@ == self.ops_of()[i as int].tag(),
    {
        self.ops[i].label().to_owned()
    }

    /// The operand indices of node `i`, in order.
    pub fn prev(&self, i: usize) -> (r: Vec<usize>)
        requires
            self.wf(),
            i < self.size(),
        ensures
            r@ == self.args(i as int),
    {
        let src = &self.operands[i];
        let mut r: Vec<usize> = Vec::new();
        let mut k: usize = 0;
        while k < src.len()
            invariant
                src@ == self.args(i as int),
                k <= src@.len(),
                r@ == src@.subrange(0, k as int),
            decreases src@.len() - k,
        {
            r.push(src[k]);
            k += 1;
            assert(r@ == src@.subrange(0, k as int));
        }
        assert(r@ == src@);
        r
    }

    /// Overwrites the gradient of node `i`.
    pub fn set_grad(&mut self, i: usize, g: T)
        requires
            old(self).wf(),
            i < old(self).size(),
        ensures
            final(self).wf(),
            final(self).same_nodes(old(self)),
            final(self).grads_of() == old(self).grads_of().update(i as int, g),
    {
        self.grads.set(i, g);
    }

    /// Overwrites the forward value of node `i`, as an optimiser step does
    /// between two independent passes.
    pub fn set_data(&mut self, i: usize, v: T)
        requires
            old(self).wf(),
            i < old(self).size(),
        ensures
            final(self).wf(),
            final(self).same_shape(old(self)),
            final(self).values_of() == old(self).values_of().update(i as int, v),
            final(self).grads_of() == old(self).grads_of(),
    {
        self.values.set(i, v);
    }

    /// Drops every node from index `n` on and keeps the others as they are.
    /// No kept node refers to a dropped one, since operands come first.
    pub fn truncate(&mut self, n: usize)
        requires
            old(self).wf(),
            n <= old(self).size(),
        ensures
            final(self).wf(),
            final(self).size() == n,
            final(self).values_of() == old(self).values_of().subrange(0, n as int),
            final(self).grads_of() == old(self).grads_of().subrange(0, n as int),
            final(self).ops_of() == old(self).ops_of().subrange(0, n as int),
            final(self).outputs_of() == old(self).outputs_of().subrange(0, n as int),
            forall|i: int| 0 <= i < n ==> #[trigger] final(self).args(i) == old(self).args(i),
            forall|i: int| 0 <= i < n ==> #[trigger] final(self).inputs_of(i) == old(self).inputs_of(i),
    {
        self.values.truncate(n);
        self.grads.truncate(n);
        self.ops.truncate(n);
        self.operands.truncate(n);
        self.inputs.truncate(n);
        self.outputs.truncate(n);
        assert forall|i: int| 0 <= i < n implies #[trigger] self.args(i) == old(self).args(i) by {
            assert(self.operands@[i] == old(self).operands@[i]);
        }
        assert forall|i: int| 0 <= i < n implies #[trigger] self.inputs_of(i) == old(self).inputs_of(i) by {
            assert(self.inputs@[i] == old(self).inputs@[i]);
        }
        assert forall|i: int| 0 <= i < self.values@.len() implies (#[trigger] self.operands@[i])@.len()
            == self.ops@[i].arity() by {
            assert(self.operands@[i] == old(self).operands@[i]);
        }
        assert forall|i: int, k: int|
            0 <= i < self.values@.len() && 0 <= k < self.operands@[i]@.len() implies (
            #[trigger] self.operands@[i]@[k]) < i by {
            assert(self.operands@[i] == old(self).operands@[i]);
        }
        assert forall|i: int| 0 <= i < self.values@.len() implies (#[trigger] self.inputs@[i])@.len()
            == self.operands@[i]@.len() by {
            assert(self.operands@[i] == old(self).operands@[i]);
            assert(self.inputs@[i] == old(self).inputs@[i]);
        }
    }

    /// Appends a node made from operands whose values are `inputs`. Its
    /// gradient starts at `zero`.
    fn push_node(&mut self, value: T, out: T, zero: T, op: Op<T>, args: Vec<usize>, inputs: Vec<T>) -> (r: usize)
        requires
            old(self).wf(),
            old(self).size() < usize::MAX,
            out == value,
            args@.len() == op.arity(),
            inputs@.len() == args@.len(),
            forall|k: int| 0 <= k < args@.len() ==> #[trigger] args@[k] < old(self).size(),
        ensures
            final(self).wf(),
            final(self).appends_one(old(self)),
            r == old(self).size(),
            final(self).values_of()[r as int] == value,
            final(self).grads_of()[r as int] == zero,
            final(self).ops_of()[r as int] == op,
            final(self).args(r as int) == args@,
            final(self).outputs_of()[r as int] == value,
            final(self).inputs_of(r as int) == inputs@,
    {
        let r = self.values.len();
        self.values.push(value);
        self.outputs.push(out);
        self.grads.push(zero);
        self.ops.push(op);
        self.operands.push(args);
        self.inputs.push(inputs);
        assert(self.values@.subrange(0, r as int) == old(self).values@);
        assert(self.outputs@.subrange(0, r as int) == old(self).outputs@);
        assert(self.grads@.subrange(0, r as int) == old(self).grads@);
        assert(self.ops@.subrange(0, r as int) == old(self).ops@);
        assert forall|i: int| 0 <= i < old(self).size() implies #[trigger] self.args(i) == old(self).args(i) by {
            assert(self.operands@[i] == old(self).operands@[i]);
        }
        assert forall|i: int| 0 <= i < old(self).size() implies #[trigger] self.inputs_of(i) == old(self).inputs_of(i) by {
            assert(self.inputs@[i] == old(self).inputs@[i]);
        }
        r
    }
}


impl<T: Scalar> Graph<T> {
    /// `tanh(x)` as the engine computes it: `(e - 1) / (e + 1)` with `e = exp(2x)`.
    pub open spec fn tanh_of(x: T) -> T {
        let e = x.spec_plus(x).spec_exponential();
        e.spec_minus(T::spec_one()).spec_divide(e.spec_plus(T::spec_one()))
    }

    /// What node `u`'s rule adds to the gradient of its operand in slot `k`
    /// when the gradient of `u` is `g`, from the values kept when `u` was made.
    pub open spec fn contribution(&self, u: int, k: int, g: T) -> T {
        let x = self.inputs_of(u);
        let out = self.outputs_of()[u];
        match self.ops_of()[u] {
            Op::Sub => if k == 0 { g } else { g.spec_negate() },
            Op::Mul => if k == 0 { x[1].spec_times(g) } else { x[0].spec_times(g) },
            Op::Div => if k == 0 {
                T::spec_one().spec_divide(x[1]).spec_times(g)
            } else {
                x[0].spec_divide(x[1].spec_times(x[1])).spec_negate().spec_times(g)
            },
            Op::Pow(e) => e.spec_times(x[0].spec_power(e.spec_minus(T::spec_one()))).spec_times(g),
            Op::Tanh => T::spec_one().spec_minus(out.spec_times(out)).spec_times(g),
            Op::Exp => out.spec_times(g),
            _ => g,
        }
    }

    /// `gs` after the contribution for slot `k` of node `u` is added onto the
    /// gradient of that operand.
    pub open spec fn add_slot(&self, gs: Seq<T>, u: int, k: int, g: T) -> Seq<T> {
        let a = self.args(u)[k] as int;
        gs.update(a, gs[a].spec_plus(self.contribution(u, k, g)))
    }

    /// The gradients `gs` after node `u`'s rule has run: each operand slot, in
    /// order, adds its contribution, computed from the gradient of `u`.
    pub open spec fn rule_step(&self, gs: Seq<T>, u: int) -> Seq<T> {
        let g = gs[u];
        if self.args(u).len() == 0 {
            gs
        } else if self.args(u).len() == 1 {
            self.add_slot(gs, u, 0, g)
        } else {
            self.add_slot(self.add_slot(gs, u, 0, g), u, 1, g)
        }
    }

    /// The gradients `gs` after the rules of the nodes of `order` have run,
    /// from its last node to its first.
    pub open spec fn propagate(&self, gs: Seq<T>, order: Seq<usize>) -> Seq<T>
        decreases order.len(),
    {
        if order.len() == 0 {
            gs
        } else {
            self.propagate(self.rule_step(gs, order.last() as int), order.drop_last())
        }
    }

    /// Graphs of the same shape run the same rules.
    pub proof fn lemma_same_rule_step(&self, o: &Self, gs: Seq<T>, u: int)
        requires
            self.same_shape(o),
            0 <= u < self.size(),
        ensures
            self.rule_step(gs, u) == o.rule_step(gs, u),
    {
        assert(self.args(u) == o.args(u));
        assert(self.inputs_of(u) == o.inputs_of(u));
    }

    /// Appends a leaf holding `value`, with no operands and a zero gradient.
    pub fn leaf(&mut self, value: T) -> (r: usize)
        requires
            old(self).wf(),
            old(self).size() < usize::MAX,
        ensures
            final(self).wf(),
            final(self).appends_one(old(self)),
            r == old(self).size(),
            final(self).values_of()[r as int] == value,
            final(self).grads_of()[r as int] == T::spec_zero(),
            final(self).ops_of()[r as int] == Op::<T>::Leaf,
            final(self).args(r as int) == Seq::<usize>::empty(),
    {
        let zero = T::zero();
        let out = value.duplicate();
        let args: Vec<usize> = Vec::new();
        let inputs: Vec<T> = Vec::new();
        self.push_node(value, out, zero, Op::Leaf, args, inputs)
    }

    /// Appends the node for a binary operation on `a` and `b`.
    fn binary(&mut self, value: T, op: Op<T>, a: usize, b: usize) -> (r: usize)
        requires
            old(self).wf(),
            old(self).size() < usize::MAX,
            op.arity() == 2,
            a < old(self).size(),
            b < old(self).size(),
        ensures
            final(self).wf(),
            final(self).appends_one(old(self)),
            r == old(self).size(),
            final(self).values_of()[r as int] == value,
            final(self).grads_of()[r as int] == T::spec_zero(),
            final(self).outputs_of()[r as int] == value,
            final(self).ops_of()[r as int] == op,
            final(self).args(r as int) == seq![a, b],
            final(self).inputs_of(r as int) == seq![old(self).values_of()[a as int], old(self).values_of()[b as int]],
    {
        let zero = T::zero();
        let out = value.duplicate();
        let args: Vec<usize> = vec![a, b];
        let inputs: Vec<T> = vec![self.values[a].duplicate(), self.values[b].duplicate()];
        assert(args@ == seq![a, b]);
        assert(inputs@ == seq![old(self).values_of()[a as int], old(self).values_of()[b as int]]);
        self.push_node(value, out, zero, op, args, inputs)
    }

    /// Appends the node for a unary operation on `a`.
    fn unary(&mut self, value: T, op: Op<T>, a: usize) -> (r: usize)
        requires
            old(self).wf(),
            old(self).size() < usize::MAX,
            op.arity() == 1,
            a < old(self).size(),
        ensures
            final(self).wf(),
            final(self).appends_one(old(self)),
            r == old(self).size(),
            final(self).values_of()[r as int] == value,
            final(self).grads_of()[r as int] == T::spec_zero(),
            final(self).outputs_of()[r as int] == value,
            final(self).ops_of()[r as int] == op,
            final(self).args(r as int) == seq![a],
            final(self).inputs_of(r as int) == seq![old(self).values_of()[a as int]],
    {
        let zero = T::zero();
        let out = value.duplicate();
        let args: Vec<usize> = vec![a];
        let inputs: Vec<T> = vec![self.values[a].duplicate()];
        assert(args@ == seq![a]);
        assert(inputs@ == seq![old(self).values_of()[a as int]]);
        self.push_node(value, out, zero, op, args, inputs)
    }

    /// Appends `a + b`.
    pub fn add(&mut self, a: usize, b: usize) -> (r: usize)
        requires
            old(self).wf(),
            old(self).size() < usize::MAX,
            a < old(self).size(),
            b < old(self).size(),
        ensures
            final(self).wf(),
            final(self).appends_one(old(self)),
            r == old(self).size(),
            final(self).values_of()[r as int] == old(self).values_of()[a as int].spec_plus(
                old(self).values_of()[b as int],
            ),
            final(self).grads_of()[r as int] == T::spec_zero(),
            final(self).outputs_of()[r as int] == final(self).values_of()[r as int],
            final(self).ops_of()[r as int] == Op::<T>::Add,
            final(self).args(r as int) == seq![a, b],
            final(self).inputs_of(r as int) == seq![old(self).values_of()[a as int], old(self).values_of()[b as int]],
    {
        let v = self.values[a].plus(&self.values[b]);
        self.binary(v, Op::Add, a, b)
    }

    /// Appends `a - b`.
    pub fn sub(&mut self, a: usize, b: usize) -> (r: usize)
        requires
            old(self).wf(),
            old(self).size() < usize::MAX,
            a < old(self).size(),
            b < old(self).size(),
        ensures
            final(self).wf(),
            final(self).appends_one(old(self)),
            r == old(self).size(),
            final(self).values_of()[r as int] == old(self).values_of()[a as int].spec_minus(
                old(self).values_of()[b as int],
            ),
            final(self).grads_of()[r as int] == T::spec_zero(),
            final(self).outputs_of()[r as int] == final(self).values_of()[r as int],
            final(self).ops_of()[r as int] == Op::<T>::Sub,
            final(self).args(r as int) == seq![a, b],
            final(self).inputs_of(r as int) == seq![old(self).values_of()[a as int], old(self).values_of()[b as int]],
    {
        let v = self.values[a].minus(&self.values[b]);
        self.binary(v, Op::Sub, a, b)
    }

    /// Appends `a * b`.
    pub fn mul(&mut self, a: usize, b: usize) -> (r: usize)
        requires
            old(self).wf(),
            old(self).size() < usize::MAX,
            a < old(self).size(),
            b < old(self).size(),
        ensures
            final(self).wf(),
            final(self).appends_one(old(self)),
            r == old(self).size(),
            final(self).values_of()[r as int] == old(self).values_of()[a as int].spec_times(
                old(self).values_of()[b as int],
            ),
            final(self).grads_of()[r as int] == T::spec_zero(),
            final(self).outputs_of()[r as int] == final(self).values_of()[r as int],
            final(self).ops_of()[r as int] == Op::<T>::Mul,
            final(self).args(r as int) == seq![a, b],
            final(self).inputs_of(r as int) == seq![old(self).values_of()[a as int], old(self).values_of()[b as int]],
    {
        let v = self.values[a].times(&self.values[b]);
        self.binary(v, Op::Mul, a, b)
    }

    /// Appends `a / b`. A zero divisor gives whatever the scalar type gives.
    pub fn div(&mut self, a: usize, b: usize) -> (r: usize)
        requires
            old(self).wf(),
            old(self).size() < usize::MAX,
            a < old(self).size(),
            b < old(self).size(),
        ensures
            final(self).wf(),
            final(self).appends_one(old(self)),
            r == old(self).size(),
            final(self).values_of()[r as int] == old(self).values_of()[a as int].spec_divide(
                old(self).values_of()[b as int],
            ),
            final(self).grads_of()[r as int] == T::spec_zero(),
            final(self).outputs_of()[r as int] == final(self).values_of()[r as int],
            final(self).ops_of()[r as int] == Op::<T>::Div,
            final(self).args(r as int) == seq![a, b],
            final(self).inputs_of(r as int) == seq![old(self).values_of()[a as int], old(self).values_of()[b as int]],
    {
        let v = self.values[a].divide(&self.values[b]);
        self.binary(v, Op::Div, a, b)
    }

    /// Appends `a` raised to the constant `exponent`; no gradient flows to the exponent.
    pub fn pow(&mut self, a: usize, exponent: T) -> (r: usize)
        requires
            old(self).wf(),
            old(self).size() < usize::MAX,
            a < old(self).size(),
        ensures
            final(self).wf(),
            final(self).appends_one(old(self)),
            r == old(self).size(),
            final(self).values_of()[r as int] == old(self).values_of()[a as int].spec_power(exponent),
            final(self).grads_of()[r as int] == T::spec_zero(),
            final(self).outputs_of()[r as int] == final(self).values_of()[r as int],
            final(self).ops_of()[r as int] == Op::Pow(exponent),
            final(self).args(r as int) == seq![a],
            final(self).inputs_of(r as int) == seq![old(self).values_of()[a as int]],
    {
        let v = self.values[a].power(&exponent);
        self.unary(v, Op::Pow(exponent), a)
    }

    /// Appends `tanh(a)`, computed as `(e - 1) / (e + 1)` with `e = exp(2a)`.
    pub fn tanh(&mut self, a: usize) -> (r: usize)
        requires
            old(self).wf(),
            old(self).size() < usize::MAX,
            a < old(self).size(),
        ensures
            final(self).wf(),
            final(self).appends_one(old(self)),
            r == old(self).size(),
            final(self).values_of()[r as int] == Self::tanh_of(old(self).values_of()[a as int]),
            final(self).grads_of()[r as int] == T::spec_zero(),
            final(self).outputs_of()[r as int] == final(self).values_of()[r as int],
            final(self).ops_of()[r as int] == Op::<T>::Tanh,
            final(self).args(r as int) == seq![a],
            final(self).inputs_of(r as int) == seq![old(self).values_of()[a as int]],
    {
        let x = &self.values[a];
        let e = x.plus(x).exponential();
        let one = T::one();
        let v = e.minus(&one).divide(&e.plus(&one));
        self.unary(v, Op::Tanh, a)
    }

    /// Appends `exp(a)`.
    pub fn exp(&mut self, a: usize) -> (r: usize)
        requires
            old(self).wf(),
            old(self).size() < usize::MAX,
            a < old(self).size(),
        ensures
            final(self).wf(),
            final(self).appends_one(old(self)),
            r == old(self).size(),
            final(self).values_of()[r as int] == old(self).values_of()[a as int].spec_exponential(),
            final(self).grads_of()[r as int] == T::spec_zero(),
            final(self).outputs_of()[r as int] == final(self).values_of()[r as int],
            final(self).ops_of()[r as int] == Op::<T>::Exp,
            final(self).args(r as int) == seq![a],
            final(self).inputs_of(r as int) == seq![old(self).values_of()[a as int]],
    {
        let v = self.values[a].exponential();
        self.unary(v, Op::Exp, a)
    }
}

impl<T> Graph<T> {
    /// The nodes below index `n` that `root` reaches, in increasing order.
    pub open spec fn reached_below(&self, root: int, n: int) -> Seq<usize>
        decreases n,
    {
        if n <= 0 {
            Seq::empty()
        } else {
            let s = self.reached_below(root, n - 1);
            if self.reaches(root, n - 1) {
                s.push((n - 1) as usize)
            } else {
                s
            }
        }
    }

    /// The nodes that `root` reaches, in increasing order: each node after its
    /// operands, `root` last.
    pub open spec fn topo(&self, root: int) -> Seq<usize> {
        self.reached_below(root, root + 1)
    }
}

impl<T: Scalar> Graph<T> {
    /// Adds `c` to the gradient of node `i`; every other gradient is kept.
    pub fn add_grad(&mut self, i: usize, c: &T)
        requires
            old(self).wf(),
            i < old(self).size(),
        ensures
            final(self).wf(),
            final(self).same_nodes(old(self)),
            final(self).grads_of() == old(self).grads_of().update(
                i as int,
                old(self).grads_of()[i as int].spec_plus(*c),
            ),
    {
        let s = self.grads[i].plus(c);
        self.grads.set(i, s);
    }

    /// What node `u`, whose gradient is `g`, adds to the gradient of its first
    /// and of its second operand.
    fn local_gradients(&self, u: usize, g: &T) -> (r: (Option<T>, Option<T>))
        requires
            self.wf(),
            u < self.size(),
        ensures
            r.0 is Some <==> self.args(u as int).len() >= 1,
            r.1 is Some <==> self.args(u as int).len() == 2,
            r.0 is Some ==> r.0.unwrap() == self.contribution(u as int, 0, *g),
            r.1 is Some ==> r.1.unwrap() == self.contribution(u as int, 1, *g),
    {
        proof {
            self.lemma_args_below(u as int);
        }
        let x = &self.inputs[u];
        match &self.ops[u] {
            Op::Leaf => (None, None),
            Op::Add => (Some(g.duplicate()), Some(g.duplicate())),
            Op::Sub => (Some(g.duplicate()), Some(g.negate())),
            Op::Mul => {
                let a = &x[0];
                let b = &x[1];
                (Some(b.times(g)), Some(a.times(g)))
            },
            Op::Div => {
                let a = &x[0];
                let b = &x[1];
                let da = T::one().divide(b).times(g);
                let db = a.divide(&b.times(b)).negate().times(g);
                (Some(da), Some(db))
            },
            Op::Pow(k) => {
                let a = &x[0];
                let slope = k.times(&a.power(&k.minus(&T::one())));
                (Some(slope.times(g)), None)
            },
            Op::Tanh => {
                let t = &self.outputs[u];
                let slope = T::one().minus(&t.times(t));
                (Some(slope.times(g)), None)
            },
            Op::Exp => {
                let out = &self.outputs[u];
                (Some(out.times(g)), None)
            },
        }
    }

    /// Runs the gradient rule of node `u`.
    fn apply_rule(&mut self, u: usize)
        requires
            old(self).wf(),
            u < old(self).size(),
        ensures
            final(self).wf(),
            final(self).same_nodes(old(self)),
            final(self).grads_of() == old(self).rule_step(old(self).grads_of(), u as int),
            forall|v: int|
                0 <= v < old(self).size() && !old(self).edge(u as int, v) ==> #[trigger] final(self).grads_of()[v]
                    == old(self).grads_of()[v],
    {
        proof {
            self.lemma_args_below(u as int);
        }
        let ghost start = *self;
        let g = self.grads[u].duplicate();
        let contributions = self.local_gradients(u, &g);
        let (first, second) = contributions;
        if let Some(c) = first {
            let a = self.operands[u][0];
            assert(start.edge(u as int, a as int));
            self.add_grad(a, &c);
        }
        if let Some(c) = second {
            let b = self.operands[u][1];
            assert(self.args(u as int) == start.args(u as int));
            assert(start.edge(u as int, b as int));
            self.add_grad(b, &c);
        }
        assert(self.grads@ == start.rule_step(start.grads@, u as int));
    }

    /// Seeds the gradient of `root` with `seed`, then runs the rule of every
    /// node that `root` reaches, each once, consumers before their operands
    /// (highest index first). Gradients accumulate onto what they held before
    /// the call.
    pub fn backward_from(&mut self, root: usize, seed: T)
        requires
            old(self).wf(),
            root < old(self).size(),
        ensures
            final(self).wf(),
            final(self).same_nodes(old(self)),
            final(self).grads_of() == old(self).propagate(
                old(self).grads_of().update(root as int, seed),
                old(self).topo(root as int),
            ),
            final(self).grads_of()[root as int] == seed,
            forall|v: int|
                0 <= v < old(self).size() && !old(self).reaches(root as int, v) ==> #[trigger] final(self).grads_of()[v]
                    == old(self).grads_of()[v],
    {
        let ghost g0 = *self;
        let order = topo_order(self, root);
        self.set_grad(root, seed);
        let ghost seeded = self.grads@;
        proof {
            lemma_reach_self(&g0, root as int);
            assert(order@.subrange(0, order@.len() as int) == order@);
        }
        let mut idx: usize = order.len();
        while idx > 0
            invariant
                self.wf(),
                g0.wf(),
                root < g0.size(),
                self.same_nodes(&g0),
                self.grads_of().len() == g0.size(),
                seeded.len() == g0.size(),
                order@ == g0.topo(root as int),
                idx <= order@.len(),
                forall|k: int| 0 <= k < order@.len() ==> g0.reaches(root as int, #[trigger] order@[k] as int),
                g0.propagate(self.grads_of(), order@.subrange(0, idx as int)) == g0.propagate(seeded, order@),
                self.grads_of()[root as int] == seed,
                forall|v: int|
                    0 <= v < g0.size() && !g0.reaches(root as int, v) ==> #[trigger] self.grads_of()[v]
                        == g0.grads_of()[v],
            decreases idx,
        {
            idx -= 1;
            let u = order[idx];
            let ghost before = *self;
            proof {
                assert(g0.reaches(root as int, u as int));
                lemma_reach_below(&g0, root as int, u as int);
            }
            self.apply_rule(u);
            proof {
                before.lemma_same_rule_step(&g0, before.grads_of(), u as int);
                let pre = order@.subrange(0, idx as int + 1);
                assert(pre.last() == u);
                assert(pre.drop_last() == order@.subrange(0, idx as int));
                assert forall|v: int| 0 <= v < g0.size() && before.edge(u as int, v)
                    implies g0.reaches(root as int, v) && v < root by {
                    assert(g0.args(u as int) == before.args(u as int));
                    assert(g0.edge(u as int, v));
                    lemma_reach_step(&g0, root as int, u as int, v);
                    g0.lemma_edge_below(u as int, v);
                }
            }
        }
        proof {
            assert(order@.subrange(0, 0) =~= Seq::<usize>::empty());
        }
    }

    /// Runs the backward pass from `root` with a unit seed: see
    /// [`Graph::backward_from`].
    pub fn backward(&mut self, root: usize)
        requires
            old(self).wf(),
            root < old(self).size(),
        ensures
            final(self).wf(),
            final(self).same_nodes(old(self)),
            final(self).grads_of() == old(self).propagate(
                old(self).grads_of().update(root as int, T::spec_one()),
                old(self).topo(root as int),
            ),
            final(self).grads_of()[root as int] == T::spec_one(),
            forall|v: int|
                0 <= v < old(self).size() && !old(self).reaches(root as int, v) ==> #[trigger] final(self).grads_of()[v]
                    == old(self).grads_of()[v],
    {
        self.backward_from(root, T::one());
    }
}

} // verus!
