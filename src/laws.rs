use vstd::prelude::*;
use crate::graph::{Graph, Op};
use crate::scalar::Scalar;

verus! {

/// Every node listed by `reached_below(root, n)` is reached by `root` and
/// lies below `n`.
proof fn lemma_reached_below_members<T>(g: &Graph<T>, root: int, n: int)
    requires
        n <= usize::MAX,
    ensures
        forall|k: int|
            0 <= k < g.reached_below(root, n).len() ==> g.reaches(root, #[trigger] g.reached_below(root, n)[k] as int)
                && g.reached_below(root, n)[k] < n,
    decreases n,
{
    if n > 0 {
        lemma_reached_below_members(g, root, n - 1);
        let s = g.reached_below(root, n - 1);
        if g.reaches(root, n - 1) {
            assert forall|k: int| 0 <= k < s.len() + 1 implies g.reaches(root, #[trigger] s.push((n - 1) as usize)[k] as int)
                && s.push((n - 1) as usize)[k] < n by {
                if k < s.len() {
                    assert(s.push((n - 1) as usize)[k] == s[k]);
                }
            }
        }
    }
}

/// Running the rules of nodes without operands changes nothing.
proof fn lemma_propagate_leaves<T: Scalar>(g: &Graph<T>, gs: Seq<T>, s: Seq<usize>)
    requires
        forall|k: int| 0 <= k < s.len() ==> g.args(#[trigger] s[k] as int).len() == 0,
    ensures
        g.propagate(gs, s) == gs,
    decreases s.len(),
{
    if s.len() > 0 {
        assert(g.args(s[s.len() - 1] as int).len() == 0);
        assert forall|k: int| 0 <= k < s.drop_last().len() implies g.args(#[trigger] s.drop_last()[k] as int).len() == 0 by {
            assert(s.drop_last()[k] == s[k]);
        }
        lemma_propagate_leaves(g, gs, s.drop_last());
    }
}

/// Backward through one operation whose operands are leaves runs exactly
/// that operation's rule: each operand's gradient gains the operation's local
/// derivative, at the values the operands had when the node was made, times
/// the node's gradient; nothing else changes.
pub proof fn law_one_operation<T: Scalar>(g: &Graph<T>, node: usize, gs: Seq<T>)
    requires
        g.wf(),
        node < g.size(),
        forall|k: int|
            0 <= k < g.args(node as int).len() ==> g.ops_of()[#[trigger] g.args(node as int)[k] as int]
                == Op::<T>::Leaf,
    ensures
        g.propagate(gs, g.topo(node as int)) == g.rule_step(gs, node as int),
{
    let y = node as int;
    let s = g.reached_below(y, y);
    lemma_reached_below_members(g, y, y);
    crate::topo::lemma_reach_self(g, y);
    assert(g.topo(y) == s.push(node));
    assert(g.topo(y).drop_last() == s);
    assert forall|k: int| 0 <= k < s.len() implies g.args(#[trigger] s[k] as int).len() == 0 by {
        let v = s[k] as int;
        assert(g.reaches(y, v) && v < y);
        let p = choose|p: Seq<int>| #[trigger] g.is_path(p) && p[0] == y && p.last() == v;
        assert(p.len() >= 2);
        assert(g.edge(p[0], p[1]));
        let j = choose|j: int| 0 <= j < g.args(y).len() && #[trigger] g.args(y)[j] == p[1];
        g.lemma_args_below(p[1]);
        assert(g.ops_of()[g.args(y)[j] as int] == Op::<T>::Leaf);
        if p.len() > 2 {
            assert(g.edge(p[1], p[2]));
        }
        assert(v == p[1]);
        g.lemma_args_below(v);
    }
    lemma_propagate_leaves(g, g.rule_step(gs, y), s);
}

/// A second backward pass from a node whose operands are distinct leaves,
/// with no reset in between, adds to each operand exactly what the first
/// pass added: from zero gradients, each ends at twice its local derivative.
pub proof fn law_second_pass_adds_again<T: Scalar>(g: &Graph<T>, node: usize, k: int)
    requires
        g.wf(),
        node < g.size(),
        forall|j: int|
            0 <= j < g.args(node as int).len() ==> g.ops_of()[#[trigger] g.args(node as int)[j] as int]
                == Op::<T>::Leaf,
        0 <= k < g.args(node as int).len(),
        g.args(node as int).len() == 2 ==> g.args(node as int)[0] != g.args(node as int)[1],
    ensures
        ({
            let y = node as int;
            let a = g.args(y)[k] as int;
            let c = g.contribution(y, k, T::spec_one());
            let first = g.propagate(g.grads_of().update(y, T::spec_one()), g.topo(y));
            let second = g.propagate(first.update(y, T::spec_one()), g.topo(y));
            &&& first[a] == g.grads_of()[a].spec_plus(c)
            &&& second[a] == first[a].spec_plus(c)
            &&& first[y] == T::spec_one()
            &&& second[y] == T::spec_one()
        }),
{
    let y = node as int;
    g.lemma_args_below(y);
    g.lemma_lengths();
    let gs0 = g.grads_of().update(y, T::spec_one());
    law_one_operation(g, node, gs0);
    let first = g.propagate(gs0, g.topo(y));
    let gs1 = first.update(y, T::spec_one());
    law_one_operation(g, node, gs1);
    let n = g.args(y).len();
    let a0 = g.args(y)[0] as int;
    assert(a0 < y);
    if n == 1 {
        assert(first == gs0.update(a0, gs0[a0].spec_plus(g.contribution(y, 0, T::spec_one()))));
        assert(first[y] == T::spec_one());
        assert(gs1 == first);
    } else {
        let a1 = g.args(y)[1] as int;
        assert(a1 < y);
        let mid = gs0.update(a0, gs0[a0].spec_plus(g.contribution(y, 0, T::spec_one())));
        assert(first == mid.update(a1, mid[a1].spec_plus(g.contribution(y, 1, T::spec_one()))));
        assert(first[y] == T::spec_one());
        assert(gs1 == first);
        let mid2 = gs1.update(a0, gs1[a0].spec_plus(g.contribution(y, 0, T::spec_one())));
        assert(g.rule_step(gs1, y) == mid2.update(a1, mid2[a1].spec_plus(g.contribution(y, 1, T::spec_one()))));
    }
}

} // verus!
