use vstd::prelude::*;
use crate::graph::Graph;

verus! {

/// Along a path, every node after the first has a smaller index than the first.
pub proof fn lemma_path_below<T>(g: &Graph<T>, p: Seq<int>, j: int)
    requires
        g.wf(),
        g.is_path(p),
        0 <= p[0] < g.size(),
        0 <= j < p.len(),
    ensures
        0 <= p[j] <= p[0],
    decreases j,
{
    if j > 0 {
        lemma_path_below(g, p, j - 1);
        assert(g.edge(p[j - 1], p[j]));
        g.lemma_edge_below(p[j - 1], p[j]);
    }
}

/// A node that `root` reaches is no later than `root`.
pub proof fn lemma_reach_below<T>(g: &Graph<T>, root: int, v: int)
    requires
        g.wf(),
        0 <= root < g.size(),
        g.reaches(root, v),
    ensures
        0 <= v <= root,
{
    let p = choose|p: Seq<int>| #[trigger] g.is_path(p) && p[0] == root && p.last() == v;
    lemma_path_below(g, p, p.len() - 1);
}

/// The operand of a node that `root` reaches is reached by `root` too.
pub proof fn lemma_reach_step<T>(g: &Graph<T>, root: int, u: int, v: int)
    requires
        g.reaches(root, u),
        g.edge(u, v),
    ensures
        g.reaches(root, v),
{
    let p = choose|p: Seq<int>| #[trigger] g.is_path(p) && p[0] == root && p.last() == u;
    let q = p.push(v);
    assert forall|j: int| 0 <= j < q.len() - 1 implies g.edge(#[trigger] q[j], q[j + 1]) by {
        if j < p.len() - 1 {
            assert(q[j] == p[j] && q[j + 1] == p[j + 1]);
        } else {
            assert(q[j] == u && q[j + 1] == v);
        }
    }
    assert(g.is_path(q) && q[0] == root && q.last() == v);
}

/// A node reaches itself.
pub proof fn lemma_reach_self<T>(g: &Graph<T>, root: int)
    ensures
        g.reaches(root, root),
{
    let p = seq![root];
    assert(g.is_path(p) && p[0] == root && p.last() == root);
}

/// A set of marks that holds `root` and is closed under taking operands holds
/// every node on a path from `root`.
proof fn lemma_closed_marks<T>(g: &Graph<T>, root: int, m: Seq<bool>, p: Seq<int>, j: int)
    requires
        g.wf(),
        0 <= root < g.size(),
        m.len() == root + 1,
        m[root],
        forall|u: int, w: int| 0 <= u < m.len() && m[u] && #[trigger] g.edge(u, w) ==> m[w],
        g.is_path(p),
        p[0] == root,
        0 <= j < p.len(),
    ensures
        0 <= p[j] <= root,
        m[p[j]],
    decreases j,
{
    lemma_path_below(g, p, j);
    if j > 0 {
        lemma_closed_marks(g, root, m, p, j - 1);
        assert(g.edge(p[j - 1], p[j]));
    }
}

/// The nodes that `root` reaches, each once, in increasing index order. Every
/// node comes after all of its operands, and `root` comes last; walking the
/// result backwards visits every consumer of a node before the node itself.
pub fn topo_order<T>(g: &Graph<T>, root: usize) -> (r: Vec<usize>)
    requires
        g.wf(),
        root < g.size(),
    ensures
        r@ == g.topo(root as int),
        r@.len() >= 1,
        r@.last() == root,
        forall|a: int, b: int| 0 <= a < b < r@.len() ==> r@[a] < r@[b],
        forall|k: int| 0 <= k < r@.len() ==> g.reaches(root as int, #[trigger] r@[k] as int),
        forall|v: usize| g.reaches(root as int, v as int) ==> #[trigger] r@.contains(v),
        forall|a: int, b: int|
            0 <= a < r@.len() && 0 <= b < r@.len() && g.edge(#[trigger] r@[b] as int, #[trigger] r@[a] as int)
                ==> a < b,
{
    // `root` is below the node count, itself a `usize`, so `root + 1` fits.
    let count: usize = g.len();
    assert(root < count);
    let n: usize = root + 1;
    let mut mark: Vec<bool> = Vec::new();
    let mut j: usize = 0;
    while j < n
        invariant
            j <= n,
            mark@.len() == j,
            forall|y: int| 0 <= y < j ==> !mark@[y],
        decreases n - j,
    {
        mark.push(false);
        j += 1;
    }
    mark.set(root, true);
    proof {
        lemma_reach_self(g, root as int);
    }
    let mut i: usize = n;
    while i > 0
        invariant
            g.wf(),
            root < g.size(),
            n == root + 1,
            mark@.len() == n,
            i <= n,
            mark@[root as int],
            forall|x: int| 0 <= x < n && mark@[x] ==> g.reaches(root as int, x),
            forall|u: int, w: int| i <= u < n && mark@[u] && #[trigger] g.edge(u, w) ==> mark@[w],
        decreases i,
    {
        i -= 1;
        if mark[i] {
            let args = g.prev(i);
            proof {
                g.lemma_args_below(i as int);
            }
            let mut k: usize = 0;
            while k < args.len()
                invariant
                    g.wf(),
                    root < g.size(),
                    n == root + 1,
                    mark@.len() == n,
                    i < n,
                    mark@[i as int],
                    mark@[root as int],
                    args@ == g.args(i as int),
                    forall|kk: int| 0 <= kk < args@.len() ==> #[trigger] args@[kk] < i,
                    k <= args@.len(),
                    forall|x: int| 0 <= x < n && mark@[x] ==> g.reaches(root as int, x),
                    forall|kk: int| 0 <= kk < k ==> mark@[#[trigger] args@[kk] as int],
                    forall|u: int, w: int|
                        i < u < n && mark@[u] && #[trigger] g.edge(u, w) ==> mark@[w],
                decreases args@.len() - k,
            {
                let w = args[k];
                proof {
                    assert(g.args(i as int)[k as int] == w);
                    assert(g.edge(i as int, w as int));
                    lemma_reach_step(g, root as int, i as int, w as int);
                }
                let ghost before = mark@;
                mark.set(w, true);
                assert forall|u: int, v: int|
                    i < u < n && mark@[u] && #[trigger] g.edge(u, v) implies mark@[v] by {
                    assert(before[u]);
                    g.lemma_edge_below(u, v);
                }
                k += 1;
            }
            assert forall|w: int| #[trigger] g.edge(i as int, w) implies mark@[w] by {
                let kk = choose|kk: int| 0 <= kk < g.args(i as int).len() && #[trigger] g.args(i as int)[kk] == w;
                assert(args@[kk] == w);
            }
        }
    }
    assert forall|v: int| 0 <= v < n && g.reaches(root as int, v) implies mark@[v] by {
        let p = choose|p: Seq<int>| #[trigger] g.is_path(p) && p[0] == root as int && p.last() == v;
        lemma_closed_marks(g, root as int, mark@, p, p.len() - 1);
    }
    let mut r: Vec<usize> = Vec::new();
    let mut x: usize = 0;
    while x < n
        invariant
            g.wf(),
            root < g.size(),
            n == root + 1,
            mark@.len() == n,
            x <= n,
            forall|v: int| 0 <= v < n ==> (mark@[v] <==> g.reaches(root as int, v)),
            r@ == g.reached_below(root as int, x as int),
            forall|a: int, b: int| 0 <= a < b < r@.len() ==> r@[a] < r@[b],
            forall|k: int| 0 <= k < r@.len() ==> #[trigger] r@[k] < x,
            forall|k: int| 0 <= k < r@.len() ==> mark@[#[trigger] r@[k] as int],
            forall|y: usize| y < x && mark@[y as int] ==> #[trigger] r@.contains(y),
        decreases n - x,
    {
        if mark[x] {
            let ghost before = r@;
            r.push(x);
            assert forall|y: usize| y < x + 1 && mark@[y as int] implies #[trigger] r@.contains(y) by {
                if y < x {
                    assert(before.contains(y));
                    let k = choose|k: int| 0 <= k < before.len() && before[k] == y;
                    assert(r@[k] == y);
                } else {
                    assert(r@[before.len() as int] == y);
                }
            }
        }
        x += 1;
    }
    proof {
        assert(r@.contains(root));
        let kr = choose|k: int| 0 <= k < r@.len() && r@[k] == root;
        if kr < r@.len() - 1 {
            assert(r@[kr] < r@[r@.len() - 1]);
        }
        assert forall|v: usize| g.reaches(root as int, v as int) implies #[trigger] r@.contains(v) by {
            let p = choose|p: Seq<int>| #[trigger] g.is_path(p) && p[0] == root as int && p.last() == v as int;
            lemma_closed_marks(g, root as int, mark@, p, p.len() - 1);
        }
        assert forall|a: int, b: int|
            0 <= a < r@.len() && 0 <= b < r@.len() && g.edge(#[trigger] r@[b] as int, #[trigger] r@[a] as int)
                implies a < b by {
            g.lemma_edge_below(r@[b] as int, r@[a] as int);
            if b < a {
                assert(r@[b] < r@[a]);
            }
        }
    }
    r
}

} // verus!
