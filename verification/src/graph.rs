//! Depth-first release order of a dependency graph given by adjacency lists.
//!
//! A graph over the nodes `0 .. g.len()` is a sequence of adjacency lists:
//! `g[v]` lists, in declaration order, the nodes that `v` depends on. The
//! release order of such a graph is the post-order of a depth-first walk:
//! every node is placed after everything it depends on. A dependency that
//! leads back into the chain of nodes currently being walked closes a cycle.
use vstd::prelude::*;
use vstd::set_lib::*;

verus! {

/// Every edge of `g` ends at a node of `g`.
pub open spec fn graph_wf(g: Seq<Seq<int>>) -> bool {
    forall|u: int, k: int|
        #![trigger g[u][k]]
        0 <= u < g.len() && 0 <= k < g[u].len() ==> 0 <= g[u][k] < g.len()
}

/// `u` depends directly on `w`.
pub open spec fn has_edge(g: Seq<Seq<int>>, u: int, w: int) -> bool {
    0 <= u < g.len() && g[u].contains(w)
}

/// `p` is a non-empty chain of nodes, each depending directly on the next.
pub open spec fn is_path(g: Seq<Seq<int>>, p: Seq<int>) -> bool {
    &&& p.len() >= 1
    &&& forall|i: int| 0 <= i < p.len() - 1 ==> has_edge(g, #[trigger] p[i], p[i + 1])
}

/// `p` is a dependency chain with at least one edge that returns to its start.
pub open spec fn is_cycle(g: Seq<Seq<int>>, p: Seq<int>) -> bool {
    is_path(g, p) && p.len() >= 2 && p.first() == p.last()
}

pub open spec fn has_cycle(g: Seq<Seq<int>>) -> bool {
    exists|p: Seq<int>| is_cycle(g, p)
}

/// The edge `from_node -> ... -> to_node -> from_node` lies on a cycle: `to_node`
/// depends directly on `from_node`, and a dependency chain leads from
/// `from_node` to `to_node`.
pub open spec fn closes_cycle(g: Seq<Seq<int>>, from_node: int, to_node: int) -> bool {
    &&& has_edge(g, to_node, from_node)
    &&& exists|p: Seq<int>| is_path(g, p) && p.first() == from_node && p.last() == to_node
}

/// `c` stands in `order` at a position before `p`.
pub open spec fn appears_before(order: Seq<int>, c: int, p: int) -> bool {
    exists|q: int| 0 <= q < p && q < order.len() && order[q] == c
}

/// Every node of `order` stands after all the nodes it depends on.
pub open spec fn dependencies_first(g: Seq<Seq<int>>, order: Seq<int>) -> bool {
    forall|p: int, k: int|
        #![trigger g[order[p]][k]]
        0 <= p < order.len() && 0 <= k < g[order[p]].len() ==> appears_before(
            order,
            g[order[p]][k],
            p,
        )
}

pub open spec fn nodes_in_range(g: Seq<Seq<int>>, s: Seq<int>) -> bool {
    forall|i: int| 0 <= i < s.len() ==> 0 <= #[trigger] s[i] < g.len()
}

/// `order` is a partial release order: nodes of `g`, none twice, each after
/// its dependencies.
pub open spec fn valid_order(g: Seq<Seq<int>>, order: Seq<int>) -> bool {
    &&& nodes_in_range(g, order)
    &&& order.no_duplicates()
    &&& dependencies_first(g, order)
}

/// Walks from `v` with `placed` already ordered and `stack` the chain of nodes
/// whose dependencies are being walked. Gives the order extended by what `v`
/// still needed and then `v` itself, or the edge that closes a cycle as
/// `(node on the chain, node that depends on it)`.
///
/// The chain never holds a node twice, so it is shorter than the graph
/// whenever a node is added to it; the test on its length only serves to
/// bound the recursion.
pub open spec fn visit(g: Seq<Seq<int>>, v: int, stack: Seq<int>, placed: Seq<int>) -> Result<
    Seq<int>,
    (int, int),
>
    decreases g.len() - stack.len(), 0int, 0int,
{
    if placed.contains(v) || stack.len() >= g.len() {
        Ok(placed)
    } else {
        visit_dependencies(g, v, 0, stack.push(v), placed)
    }
}

/// Walks the dependencies of `v` from the `k`-th on, then places `v`.
/// `stack` ends with `v`.
pub open spec fn visit_dependencies(
    g: Seq<Seq<int>>,
    v: int,
    k: int,
    stack: Seq<int>,
    placed: Seq<int>,
) -> Result<Seq<int>, (int, int)>
    decreases g.len() - stack.len(), 1int, g[v].len() - k,
{
    if k < 0 || k >= g[v].len() {
        Ok(placed.push(v))
    } else if stack.contains(g[v][k]) {
        Err((g[v][k], v))
    } else {
        match visit(g, g[v][k], stack, placed) {
            Err(e) => Err(e),
            Ok(p) => visit_dependencies(g, v, k + 1, stack, p),
        }
    }
}

/// Walks from each of `roots[k ..]` in turn, each walk starting with an
/// empty chain.
pub open spec fn visit_roots(g: Seq<Seq<int>>, roots: Seq<int>, k: int, placed: Seq<int>) -> Result<
    Seq<int>,
    (int, int),
>
    decreases roots.len() - k,
{
    if k < 0 || k >= roots.len() {
        Ok(placed)
    } else {
        match visit(g, roots[k], Seq::empty(), placed) {
            Err(e) => Err(e),
            Ok(p) => visit_roots(g, roots, k + 1, p),
        }
    }
}

/// The chain of nodes being walked: nodes of `g`, none twice, none placed
/// yet, each depending directly on the next.
pub open spec fn valid_stack(g: Seq<Seq<int>>, stack: Seq<int>, placed: Seq<int>) -> bool {
    &&& nodes_in_range(g, stack)
    &&& stack.no_duplicates()
    &&& forall|i: int| 0 <= i < stack.len() ==> !placed.contains(#[trigger] stack[i])
    &&& forall|i: int| 0 <= i < stack.len() - 1 ==> has_edge(g, #[trigger] stack[i], stack[i + 1])
}

/// A sequence of distinct nodes of a graph is no longer than the graph.
pub proof fn lemma_distinct_nodes_bounded(g: Seq<Seq<int>>, s: Seq<int>)
    requires
        nodes_in_range(g, s),
        s.no_duplicates(),
    ensures
        s.len() <= g.len(),
{
    s.unique_seq_to_set();
    lemma_int_range(0, g.len() as int);
    assert(s.to_set().subset_of(set_int_range(0, g.len() as int))) by {
        assert forall|x: int| s.to_set().contains(x) implies set_int_range(
            0,
            g.len() as int,
        ).contains(x) by {
            let i = choose|i: int| 0 <= i < s.len() && s[i] == x;
            assert(0 <= s[i] < g.len());
        }
    }
    lemma_len_subset(s.to_set(), set_int_range(0, g.len() as int));
}

proof fn lemma_push_keeps_order(g: Seq<Seq<int>>, placed: Seq<int>, v: int)
    requires
        valid_order(g, placed),
        0 <= v < g.len(),
        !placed.contains(v),
        forall|k: int| 0 <= k < g[v].len() ==> placed.contains(#[trigger] g[v][k]),
    ensures
        valid_order(g, placed.push(v)),
{
    let next = placed.push(v);
    assert forall|p: int, k: int|
        #![trigger g[next[p]][k]]
        0 <= p < next.len() && 0 <= k < g[next[p]].len() implies appears_before(
        next,
        g[next[p]][k],
        p,
    ) by {
        if p < placed.len() {
            assert(next[p] == placed[p]);
            assert(appears_before(placed, g[placed[p]][k], p));
            let q = choose|q: int| 0 <= q < p && q < placed.len() && placed[q] == g[placed[p]][k];
            assert(next[q] == g[next[p]][k]);
        } else {
            assert(next[p] == v);
            assert(placed.contains(g[v][k]));
            let q = choose|q: int| 0 <= q < placed.len() && placed[q] == g[v][k];
            assert(next[q] == g[next[p]][k]);
        }
    }
    assert forall|i: int, j: int|
        0 <= i < next.len() && 0 <= j < next.len() && i != j implies next[i] != next[j] by {
        if i < placed.len() && j < placed.len() {
        } else if i < placed.len() {
            assert(placed[i] == next[i]);
        } else {
            assert(placed[j] == next[j]);
        }
    }
}

proof fn lemma_prefix_contains(a: Seq<int>, b: Seq<int>, x: int)
    requires
        a.is_prefix_of(b),
        a.contains(x),
    ensures
        b.contains(x),
{
    let i = choose|i: int| 0 <= i < a.len() && a[i] == x;
    assert(b.subrange(0, a.len() as int)[i] == b[i]);
}

proof fn lemma_prefix_transitive(a: Seq<int>, b: Seq<int>, c: Seq<int>)
    requires
        a.is_prefix_of(b),
        b.is_prefix_of(c),
    ensures
        a.is_prefix_of(c),
{
    assert forall|i: int| 0 <= i < a.len() implies a[i] == c.subrange(0, a.len() as int)[i] by {
        assert(a[i] == b.subrange(0, a.len() as int)[i]);
        assert(b[i] == c.subrange(0, b.len() as int)[i]);
    }
}

/// What a walk from `v` yields: on success a valid order that extends
/// `placed`, holds `v` and none of the chain; on failure an edge that closes a
/// cycle.
pub proof fn lemma_visit(g: Seq<Seq<int>>, v: int, stack: Seq<int>, placed: Seq<int>)
    requires
        graph_wf(g),
        0 <= v < g.len(),
        valid_order(g, placed),
        valid_stack(g, stack, placed),
        !stack.contains(v),
        stack.len() > 0 ==> has_edge(g, stack.last(), v),
    ensures
        match visit(g, v, stack, placed) {
            Ok(next) => {
                &&& valid_order(g, next)
                &&& placed.is_prefix_of(next)
                &&& next.contains(v)
                &&& valid_stack(g, stack, next)
            },
            Err((a, b)) => closes_cycle(g, a, b),
        },
    decreases g.len() - stack.len(), 0int, 0int,
{
    if placed.contains(v) {
    } else {
        let longer = stack.push(v);
        assert(nodes_in_range(g, longer));
        assert(longer.no_duplicates()) by {
            assert forall|i: int, j: int|
                0 <= i < longer.len() && 0 <= j < longer.len() && i != j implies longer[i]
                != longer[j] by {
                if i < stack.len() && j < stack.len() {
                } else if i < stack.len() {
                    assert(stack[i] == longer[i]);
                } else {
                    assert(stack[j] == longer[j]);
                }
            }
        }
        lemma_distinct_nodes_bounded(g, longer);
        assert(valid_stack(g, longer, placed)) by {
            assert forall|i: int| 0 <= i < longer.len() - 1 implies has_edge(
                g,
                #[trigger] longer[i],
                longer[i + 1],
            ) by {
                if i < stack.len() - 1 {
                    assert(has_edge(g, stack[i], stack[i + 1]));
                } else {
                    assert(longer[i] == stack.last());
                }
            }
        }
        lemma_visit_dependencies(g, v, 0, longer, placed);
        match visit_dependencies(g, v, 0, longer, placed) {
            Ok(next) => {
                assert(valid_stack(g, stack, next)) by {
                    assert forall|i: int| 0 <= i < stack.len() implies !next.contains(
                        #[trigger] stack[i],
                    ) by {
                        assert(longer[i] == stack[i]);
                        assert(longer.drop_last()[i] == stack[i]);
                    }
                }
            },
            Err(e) => {},
        }
    }
}

/// What walking the dependencies of `v` from the `k`-th on yields, when the
/// earlier ones are placed and the chain ends with `v`.
pub proof fn lemma_visit_dependencies(
    g: Seq<Seq<int>>,
    v: int,
    k: int,
    stack: Seq<int>,
    placed: Seq<int>,
)
    requires
        graph_wf(g),
        0 <= v < g.len(),
        0 <= k <= g[v].len(),
        valid_order(g, placed),
        valid_stack(g, stack, placed),
        stack.len() > 0,
        stack.last() == v,
        forall|j: int| 0 <= j < k ==> placed.contains(#[trigger] g[v][j]),
    ensures
        match visit_dependencies(g, v, k, stack, placed) {
            Ok(next) => {
                &&& valid_order(g, next)
                &&& placed.is_prefix_of(next)
                &&& next.contains(v)
                &&& forall|i: int|
                    0 <= i < stack.len() - 1 ==> !next.contains(#[trigger] stack.drop_last()[i])
            },
            Err((a, b)) => closes_cycle(g, a, b),
        },
    decreases g.len() - stack.len(), 1int, g[v].len() - k,
{
    if k >= g[v].len() {
        let next = placed.push(v);
        assert(!placed.contains(v)) by {
            assert(stack[stack.len() - 1] == v);
        }
        lemma_push_keeps_order(g, placed, v);
        assert(next[next.len() - 1] == v);
        assert(placed =~= next.subrange(0, placed.len() as int));
        assert forall|i: int| 0 <= i < stack.len() - 1 implies !next.contains(
            #[trigger] stack.drop_last()[i],
        ) by {
            let s = stack.drop_last()[i];
            assert(s == stack[i]);
            assert(!placed.contains(stack[i]));
            assert(stack[i] != stack[stack.len() - 1]);
            if next.contains(s) {
                let q = choose|q: int| 0 <= q < next.len() && next[q] == s;
                if q < placed.len() {
                    assert(placed[q] == s);
                }
            }
        }
    } else {
        let c = g[v][k];
        assert(has_edge(g, v, c));
        if stack.contains(c) {
            let i = choose|i: int| 0 <= i < stack.len() && stack[i] == c;
            let p = stack.subrange(i, stack.len() as int);
            assert(is_path(g, p)) by {
                assert forall|j: int| 0 <= j < p.len() - 1 implies has_edge(
                    g,
                    #[trigger] p[j],
                    p[j + 1],
                ) by {
                    assert(has_edge(g, stack[i + j], stack[i + j + 1]));
                }
            }
            assert(p.first() == c && p.last() == v);
        } else {
            lemma_visit(g, c, stack, placed);
            match visit(g, c, stack, placed) {
                Err(e) => {},
                Ok(mid) => {
                    assert forall|j: int| 0 <= j < k + 1 implies mid.contains(
                        #[trigger] g[v][j],
                    ) by {
                        if j < k {
                            lemma_prefix_contains(placed, mid, g[v][j]);
                        }
                    }
                    lemma_visit_dependencies(g, v, k + 1, stack, mid);
                    match visit_dependencies(g, v, k + 1, stack, mid) {
                        Ok(next) => {
                            lemma_prefix_transitive(placed, mid, next);
                        },
                        Err(e) => {},
                    }
                },
            }
        }
    }
}

/// What walking from every root yields: on success a valid order that extends
/// `placed` and holds every root; on failure an edge that closes a cycle.
pub proof fn lemma_visit_roots(g: Seq<Seq<int>>, roots: Seq<int>, k: int, placed: Seq<int>)
    requires
        graph_wf(g),
        nodes_in_range(g, roots),
        0 <= k <= roots.len(),
        valid_order(g, placed),
        forall|j: int| 0 <= j < k ==> placed.contains(#[trigger] roots[j]),
    ensures
        match visit_roots(g, roots, k, placed) {
            Ok(order) => {
                &&& valid_order(g, order)
                &&& placed.is_prefix_of(order)
                &&& forall|j: int| 0 <= j < roots.len() ==> order.contains(#[trigger] roots[j])
            },
            Err((a, b)) => closes_cycle(g, a, b),
        },
    decreases roots.len() - k,
{
    if k >= roots.len() {
        assert(placed =~= placed.subrange(0, placed.len() as int));
    } else {
        let empty = Seq::<int>::empty();
        lemma_visit(g, roots[k], empty, placed);
        match visit(g, roots[k], empty, placed) {
            Err(e) => {},
            Ok(mid) => {
                assert forall|j: int| 0 <= j < k + 1 implies mid.contains(#[trigger] roots[j]) by {
                    if j < k {
                        lemma_prefix_contains(placed, mid, roots[j]);
                    }
                }
                lemma_visit_roots(g, roots, k + 1, mid);
                match visit_roots(g, roots, k + 1, mid) {
                    Ok(order) => {
                        lemma_prefix_transitive(placed, mid, order);
                    },
                    Err(e) => {},
                }
            },
        }
    }
}

/// An edge that closes a cycle shows a cycle.
pub proof fn lemma_closing_edge_is_cycle(g: Seq<Seq<int>>, a: int, b: int)
    requires
        closes_cycle(g, a, b),
    ensures
        has_cycle(g),
{
    let p = choose|p: Seq<int>| is_path(g, p) && p.first() == a && p.last() == b;
    let c = p.push(a);
    assert(is_path(g, c)) by {
        assert forall|i: int| 0 <= i < c.len() - 1 implies has_edge(g, #[trigger] c[i], c[i + 1]) by {
            if i < p.len() - 1 {
                assert(has_edge(g, p[i], p[i + 1]));
            } else {
                assert(c[i] == b && c[i + 1] == a);
            }
        }
    }
    assert(c.first() == p[0]);
    assert(is_cycle(g, c));
}

/// Along a dependency chain that starts in a valid order, positions in the
/// order fall by at least one per edge.
proof fn lemma_path_descends(g: Seq<Seq<int>>, order: Seq<int>, p: Seq<int>, i: int, start: int)
    requires
        valid_order(g, order),
        is_path(g, p),
        0 <= i < p.len(),
        0 <= start < order.len(),
        order[start] == p[0],
    ensures
        exists|q: int| 0 <= q <= start - i && q < order.len() && order[q] == p[i],
    decreases i,
{
    if i == 0 {
    } else {
        lemma_path_descends(g, order, p, i - 1, start);
        let q0 = choose|q: int| 0 <= q <= start - (i - 1) && q < order.len() && order[q] == p[i - 1];
        assert(has_edge(g, p[i - 1], p[i - 1 + 1]));
        let adj = g[p[i - 1]];
        let k = choose|k: int| 0 <= k < adj.len() && #[trigger] adj[k] == p[i];
        assert(appears_before(order, g[order[q0]][k], q0));
    }
}

/// A graph whose edges all end in one valid order has no cycle.
pub proof fn lemma_valid_order_excludes_cycles(g: Seq<Seq<int>>, order: Seq<int>)
    requires
        valid_order(g, order),
        forall|u: int, k: int|
            #![trigger g[u][k]]
            0 <= u < g.len() && 0 <= k < g[u].len() ==> order.contains(g[u][k]),
    ensures
        !has_cycle(g),
{
    if has_cycle(g) {
        let p = choose|p: Seq<int>| is_cycle(g, p);
        let last = p.len() - 1;
        assert(has_edge(g, p[last - 1], p[last - 1 + 1]));
        let adj = g[p[last - 1]];
        let k = choose|k: int| 0 <= k < adj.len() && #[trigger] adj[k] == p[last];
        assert(order.contains(g[p[last - 1]][k]));
        let start = choose|q: int| 0 <= q < order.len() && order[q] == p[last];
        lemma_path_descends(g, order, p, last, start);
        let q = choose|q: int| 0 <= q <= start - last && q < order.len() && order[q] == p[last];
        assert(q != start);
        assert(false);
    }
}

} // verus!
