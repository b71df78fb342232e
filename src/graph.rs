//! Directed graphs over node positions, held in a petgraph `DiGraph`:
//! construction, topological order and forward reachability.
use vstd::prelude::*;
use petgraph::graph::DiGraph;

verus! {

#[verifier::external_type_specification]
#[verifier::external_body]
#[verifier::reject_recursive_types(N)]
#[verifier::reject_recursive_types(E)]
#[verifier::reject_recursive_types(Ty)]
#[verifier::reject_recursive_types(Ix)]
pub struct ExGraph<N, E, Ty, Ix>(petgraph::graph::Graph<N, E, Ty, Ix>);

#[verifier::external_type_specification]
#[verifier::external_body]
pub struct ExDirected(petgraph::Directed);

/// How many nodes a graph holds; they are numbered `0 .. count`.
pub uninterp spec fn graph_node_count(g: DiGraph<usize, ()>) -> nat;

/// The edges of a graph, as pairs of node numbers, in the order they were added.
pub uninterp spec fn graph_edges(g: DiGraph<usize, ()>) -> Seq<(int, int)>;

/// `order` lists each of the nodes `0 .. n` once, every edge going forward.
pub open spec fn is_topo_order(order: Seq<int>, n: nat, edges: Seq<(int, int)>) -> bool {
    &&& order.len() == n
    &&& forall|i: int| 0 <= i < order.len() ==> 0 <= #[trigger] order[i] < n
    &&& forall|v: int| 0 <= v < n ==> #[trigger] order.contains(v)
    &&& forall|i: int, j: int| 0 <= i < j < order.len() ==> order[i] != order[j]
    &&& forall|e: int, i: int, j: int|
        #![trigger edges[e], order[i], order[j]]
        0 <= e < edges.len() && 0 <= i < order.len() && 0 <= j < order.len() && order[i]
            == edges[e].0 && order[j] == edges[e].1 ==> i < j
}

/// The graph has no directed cycle: some order of its nodes sends every edge forward.
pub open spec fn acyclic(n: nat, edges: Seq<(int, int)>) -> bool {
    exists|order: Seq<int>| is_topo_order(order, n, edges)
}

/// `p` is a walk along `edges`.
pub open spec fn is_walk(p: Seq<int>, edges: Seq<(int, int)>) -> bool {
    &&& p.len() >= 1
    &&& forall|i: int| 0 <= i < p.len() - 1 ==> edges.contains((#[trigger] p[i], p[i + 1]))
}

/// `t` can be reached from `s` by following edges forward (every node reaches itself).
pub open spec fn reaches(edges: Seq<(int, int)>, s: int, t: int) -> bool {
    exists|p: Seq<int>| is_walk(p, edges) && p[0] == s && p.last() == t
}

pub open spec fn as_ints(v: Seq<usize>) -> Seq<int> {
    v.map_values(|x: usize| x as int)
}

/// Relies on Graph::new: a graph with no nodes and no edges.
#[verifier::external_body]
pub fn new_graph() -> (g: DiGraph<usize, ()>)
    ensures
        graph_node_count(g) == 0,
        graph_edges(g) == Seq::<(int, int)>::empty(),
{
    DiGraph::new()
}

/// Relies on Graph::add_node: the new node takes the next number; it panics
/// only when the `u32` index space is full.
#[verifier::external_body]
pub fn add_graph_node(g: &mut DiGraph<usize, ()>, weight: usize) -> (r: usize)
    requires
        graph_node_count(*old(g)) < u32::MAX,
    ensures
        r == graph_node_count(*old(g)),
        graph_node_count(*final(g)) == graph_node_count(*old(g)) + 1,
        graph_edges(*final(g)) == graph_edges(*old(g)),
{
    g.add_node(weight).index()
}

/// Relies on Graph::add_edge: appends the edge `a -> b`; it panics on an
/// unknown node or when the `u32` edge index space is full.
#[verifier::external_body]
pub fn add_graph_edge(g: &mut DiGraph<usize, ()>, a: usize, b: usize)
    requires
        a < graph_node_count(*old(g)),
        b < graph_node_count(*old(g)),
        graph_edges(*old(g)).len() < u32::MAX,
    ensures
        graph_node_count(*final(g)) == graph_node_count(*old(g)),
        graph_edges(*final(g)) == graph_edges(*old(g)).push((a as int, b as int)),
{
    g.add_edge(petgraph::graph::NodeIndex::new(a), petgraph::graph::NodeIndex::new(b), ());
}

/// Relies on Graph::neighbors: the targets of the edges that leave `a`.
#[verifier::external_body]
pub fn graph_successors(g: &DiGraph<usize, ()>, a: usize) -> (r: Vec<usize>)
    requires
        a < graph_node_count(*g),
    ensures
        forall|k: int| 0 <= k < r.len() ==> graph_edges(*g).contains((a as int, #[trigger] r@[k] as int)),
        forall|b: int| #![trigger graph_edges(*g).contains((a as int, b))]
            graph_edges(*g).contains((a as int, b)) ==> exists|k: int| 0 <= k < r.len() && r@[k] == b,
{
    g.neighbors(petgraph::graph::NodeIndex::new(a)).map(|n| n.index()).collect()
}

/// Relies on petgraph::algo::toposort: every node once, each before its
/// successors; a cycle (a self loop too) gives no order.
#[verifier::external_body]
pub fn topological_order(g: &DiGraph<usize, ()>) -> (r: Option<Vec<usize>>)
    ensures
        match r {
            Some(order) => is_topo_order(as_ints(order@), graph_node_count(*g), graph_edges(*g)),
            None => !acyclic(graph_node_count(*g), graph_edges(*g)),
        },
{
    petgraph::algo::toposort(g, None).ok().map(|v| v.into_iter().map(|n| n.index()).collect())
}

proof fn lemma_extend_reach(edges: Seq<(int, int)>, s: int, u: int, v: int)
    requires
        reaches(edges, s, u),
        edges.contains((u, v)),
    ensures
        reaches(edges, s, v),
{
    let p = choose|p: Seq<int>| is_walk(p, edges) && p[0] == s && p.last() == u;
    let q = p.push(v);
    assert forall|i: int| 0 <= i < q.len() - 1 implies edges.contains((#[trigger] q[i], q[i + 1])) by {
        if i < p.len() - 1 {
            assert(q[i] == p[i] && q[i + 1] == p[i + 1]);
        } else {
            assert(q[i] == u && q[i + 1] == v);
        }
    }
    assert(is_walk(q, edges) && q[0] == s && q.last() == v);
}

proof fn lemma_walk_stays(edges: Seq<(int, int)>, seen: Seq<bool>, p: Seq<int>, k: int)
    requires
        is_walk(p, edges),
        0 <= k < p.len(),
        0 <= p[0] < seen.len(),
        seen[p[0]],
        forall|e: int| 0 <= e < edges.len() && 0 <= #[trigger] edges[e].0 < seen.len() && seen[edges[e].0]
            ==> 0 <= edges[e].1 < seen.len() && seen[edges[e].1],
    ensures
        0 <= p[k] < seen.len() && seen[p[k]],
    decreases k,
{
    if k > 0 {
        lemma_walk_stays(edges, seen, p, k - 1);
        assert(edges.contains((p[k - 1], p[k])));
        let e = choose|e: int| 0 <= e < edges.len() && edges[e] == (p[k - 1], p[k]);
        assert(edges[e].0 == p[k - 1]);
    }
}

proof fn lemma_closed_contains_reach(edges: Seq<(int, int)>, seen: Seq<bool>, s: int, t: int)
    requires
        0 <= s < seen.len(),
        seen[s],
        forall|e: int| 0 <= e < edges.len() && 0 <= #[trigger] edges[e].0 < seen.len() && seen[edges[e].0]
            ==> 0 <= edges[e].1 < seen.len() && seen[edges[e].1],
        reaches(edges, s, t),
    ensures
        0 <= t < seen.len() && seen[t],
{
    let p = choose|p: Seq<int>| is_walk(p, edges) && p[0] == s && p.last() == t;
    lemma_walk_stays(edges, seen, p, p.len() - 1);
}

/// Every marked node is reachable from `s`.
#[verifier::opaque]
pub open spec fn marks_sound(edges: Seq<(int, int)>, s: int, seen: Seq<bool>) -> bool {
    forall|t: int| 0 <= t < seen.len() && #[trigger] seen[t] ==> reaches(edges, s, t)
}

/// Every edge that leaves a marked node off `stack` ends at a marked node.
pub open spec fn marks_closed(edges: Seq<(int, int)>, seen: Seq<bool>, stack: Seq<usize>) -> bool {
    forall|e: int|
        #![trigger edges[e]]
        0 <= e < edges.len() && 0 <= edges[e].0 < seen.len() && seen[edges[e].0] && !stack.contains(
            edges[e].0 as usize,
        ) ==> 0 <= edges[e].1 < seen.len() && seen[edges[e].1]
}

#[verifier::opaque]
pub open spec fn stack_marked(seen: Seq<bool>, stack: Seq<usize>) -> bool {
    forall|k: int| 0 <= k < stack.len() ==> #[trigger] stack[k] < seen.len() && seen[stack[k] as int]
}

pub open spec fn edges_within(edges: Seq<(int, int)>, n: nat) -> bool {
    forall|e: int| 0 <= e < edges.len() ==> 0 <= #[trigger] edges[e].0 < n && 0 <= edges[e].1 < n
}

/// `succ` lists exactly the targets of the edges that leave `u`.
#[verifier::opaque]
pub open spec fn lists_successors(edges: Seq<(int, int)>, u: usize, succ: Seq<usize>) -> bool {
    &&& forall|k: int| 0 <= k < succ.len() ==> edges.contains((u as int, #[trigger] succ[k] as int))
    &&& forall|b: int| #![trigger edges.contains((u as int, b))]
        edges.contains((u as int, b)) ==> exists|k: int| 0 <= k < succ.len() && succ[k] == b
}

/// Every node marked in `a` is marked in `b`.
#[verifier::opaque]
pub open spec fn marks_grow(a: Seq<bool>, b: Seq<bool>) -> bool {
    &&& a.len() == b.len()
    &&& forall|t: int| 0 <= t < a.len() && #[trigger] a[t] ==> b[t]
}

/// Every node marked in `b` but not in `a` is on `stack`.
#[verifier::opaque]
pub open spec fn new_marks_stacked(a: Seq<bool>, b: Seq<bool>, stack: Seq<usize>) -> bool {
    forall|t: int| 0 <= t < a.len() && #[trigger] b[t] && !a[t] ==> stack.contains(t as usize)
}

/// Marks `v`, a successor of the reachable `u`, and pushes it on `stack`.
fn mark_node(
    edges: Ghost<Seq<(int, int)>>,
    s: Ghost<int>,
    u: Ghost<int>,
    v: usize,
    seen: &mut Vec<bool>,
    count: &mut usize,
    stack: &mut Vec<usize>,
)
    requires
        v < old(seen).len(),
        !old(seen)@[v as int],
        *old(count) == count_true(old(seen)@),
        marks_sound(edges@, s@, old(seen)@),
        stack_marked(old(seen)@, old(stack)@),
        reaches(edges@, s@, u@),
        edges@.contains((u@, v as int)),
    ensures
        final(seen)@ == old(seen)@.update(v as int, true),
        *final(count) == *old(count) + 1,
        *final(count) == count_true(final(seen)@),
        final(stack)@ == old(stack)@.push(v),
        marks_sound(edges@, s@, final(seen)@),
        stack_marked(final(seen)@, final(stack)@),
{
    proof {
        lemma_extend_reach(edges@, s@, u@, v as int);
        lemma_mark_one(old(seen)@, v as int);
        reveal(marks_sound);
        reveal(stack_marked);
    }
    seen.set(v, true);
    *count = *count + 1;
    stack.push(v);
}

/// Marks the unmarked successors of `u` and pushes them on `stack`.
fn visit_successors(
    g: &DiGraph<usize, ()>,
    s: Ghost<int>,
    u: usize,
    seen: &mut Vec<bool>,
    count: &mut usize,
    stack: &mut Vec<usize>,
)
    requires
        u < old(seen).len(),
        old(seen)@[u as int],
        old(seen).len() == graph_node_count(*g),
        edges_within(graph_edges(*g), graph_node_count(*g)),
        *old(count) == count_true(old(seen)@),
        marks_sound(graph_edges(*g), s@, old(seen)@),
        stack_marked(old(seen)@, old(stack)@),
        reaches(graph_edges(*g), s@, u as int),
    ensures
        final(seen).len() == old(seen).len(),
        *final(count) == count_true(final(seen)@),
        marks_sound(graph_edges(*g), s@, final(seen)@),
        stack_marked(final(seen)@, final(stack)@),
        *final(count) >= *old(count),
        *final(count) > *old(count) || final(stack)@ == old(stack)@,
        final(stack)@.len() >= old(stack)@.len(),
        final(stack)@.subrange(0, old(stack)@.len() as int) == old(stack)@,
        marks_grow(old(seen)@, final(seen)@),
        new_marks_stacked(old(seen)@, final(seen)@, final(stack)@),
        forall|e: int| 0 <= e < graph_edges(*g).len() && #[trigger] graph_edges(*g)[e].0 == u as int ==> final(seen)@[graph_edges(*g)[e].1],
{
    let ghost edges = graph_edges(*g);
    let succ = graph_successors(g, u);
    proof {
        reveal(lists_successors);
        reveal(marks_grow);
        reveal(new_marks_stacked);
        assert forall|k: int| 0 <= k < succ.len() implies #[trigger] succ@[k] < seen.len() by {
            assert(edges.contains((u as int, succ@[k] as int)));
            let e = choose|e: int| 0 <= e < edges.len() && edges[e] == (u as int, succ@[k] as int);
            assert(edges[e].0 == u as int);
        }
    }
    let mut j: usize = 0;
    while j < succ.len()
        invariant
            seen.len() == old(seen).len(),
            seen.len() == graph_node_count(*g),
            edges == graph_edges(*g),
            edges_within(edges, graph_node_count(*g)),
            *count == count_true(seen@),
            *count >= *old(count),
            marks_sound(edges, s@, seen@),
            stack_marked(seen@, stack@),
            reaches(edges, s@, u as int),
            j <= succ.len(),
            lists_successors(edges, u, succ@),
            forall|k: int| 0 <= k < succ.len() ==> #[trigger] succ@[k] < seen.len(),
            *count > *old(count) || stack@ == old(stack)@,
            stack@.len() >= old(stack)@.len(),
            stack@.subrange(0, old(stack)@.len() as int) == old(stack)@,
            marks_grow(old(seen)@, seen@),
            new_marks_stacked(old(seen)@, seen@, stack@),
            forall|k: int| 0 <= k < j ==> seen@[#[trigger] succ@[k] as int],
        decreases succ.len() - j,
    {
        let v = succ[j];
        proof {
            reveal(lists_successors);
            assert(edges.contains((u as int, v as int)));
            let e = choose|e: int| 0 <= e < edges.len() && edges[e] == (u as int, v as int);
            assert(edges[e].0 == u as int);
            assert(0 <= edges[e].1 < graph_node_count(*g));
        }
        if !seen[v] {
            let ghost before = stack@;
            let ghost seen_prev = seen@;
            mark_node(Ghost(edges), s, Ghost(u as int), v, seen, count, stack);
            proof {
                reveal(marks_grow);
                reveal(new_marks_stacked);
                assert(stack@.subrange(0, old(stack)@.len() as int) =~= before.subrange(0, old(stack)@.len() as int));
                assert(stack@[before.len() as int] == v);
                assert forall|t: int| 0 <= t < old(seen).len() && #[trigger] seen@[t] && !old(seen)@[t] implies stack@.contains(t as usize) by {
                    if t != v as int {
                        let k = choose|k: int| 0 <= k < before.len() && before[k] == t as usize;
                        assert(stack@[k] == before[k]);
                    }
                }
                assert forall|k: int| 0 <= k < j + 1 implies seen@[#[trigger] succ@[k] as int] by {
                    if k < j {
                        assert(seen_prev[succ@[k] as int]);
                    }
                }
            }
        }
        j = j + 1;
    }
    proof {
        reveal(lists_successors);
        assert forall|e: int| 0 <= e < edges.len() && #[trigger] edges[e].0 == u as int implies seen@[edges[e].1] by {
            assert(edges.contains((u as int, edges[e].1)));
            let k = choose|k: int| 0 <= k < succ.len() && succ@[k] == edges[e].1;
        }
    }
}

/// Marks, for each node of `g`, whether it can be reached from `start`.
pub fn reachable_from(g: &DiGraph<usize, ()>, start: usize) -> (r: Vec<bool>)
    requires
        start < graph_node_count(*g),
        edges_within(graph_edges(*g), graph_node_count(*g)),
    ensures
        r.len() == graph_node_count(*g),
        forall|t: int| 0 <= t < r.len() ==> (r@[t] <==> reaches(graph_edges(*g), start as int, t)),
{
    let ghost edges = graph_edges(*g);
    let n = graph_count(g);
    let mut seen: Vec<bool> = Vec::new();
    let mut i: usize = 0;
    while i < n
        invariant
            i <= n,
            seen.len() == i,
            forall|k: int| 0 <= k < i ==> !seen@[k],
        decreases n - i,
    {
        seen.push(false);
        i = i + 1;
    }
    proof {
        lemma_mark_one(seen@, start as int);
        lemma_all_false(seen@);
    }
    seen.set(start, true);
    let mut count: usize = 1;
    let mut stack: Vec<usize> = Vec::new();
    stack.push(start);
    proof {
        let p = seq![start as int];
        assert(is_walk(p, edges));
        assert(p[0] == start as int && p.last() == start as int);
        assert(stack@[0] == start);
        assert(stack@.contains(start));
        assert forall|t: int| 0 <= t < n && #[trigger] seen@[t] implies t == start as int by {}
        reveal(marks_sound);
        reveal(stack_marked);
    }
    while stack.len() > 0
        invariant
            n == graph_node_count(*g),
            edges == graph_edges(*g),
            edges_within(edges, graph_node_count(*g)),
            start < n,
            seen.len() == n,
            count == count_true(seen@),
            count <= n,
            seen@[start as int],
            stack_marked(seen@, stack@),
            marks_sound(edges, start as int, seen@),
            marks_closed(edges, seen@, stack@),
        decreases n - count, stack.len(),
    {
        let ghost stack_start = stack@;
        let u = stack.pop().unwrap();
        let ghost popped = stack@;
        assert(stack_start =~= popped.push(u));
        let ghost seen_before = seen@;
        proof {
            reveal(stack_marked);
            reveal(marks_sound);
            assert(stack_start[stack_start.len() - 1] == u);
            assert(seen@[u as int]);
        }
        visit_successors(g, Ghost(start as int), u, &mut seen, &mut count, &mut stack);
        proof {
            reveal(marks_grow);
            reveal(new_marks_stacked);
            reveal(stack_marked);
            lemma_count_true_bound(seen@);
            assert forall|e: int|
                #![trigger edges[e]]
                0 <= e < edges.len() && 0 <= edges[e].0 < seen.len() && seen@[edges[e].0] && !stack@.contains(
                    edges[e].0 as usize,
                ) implies 0 <= edges[e].1 < seen.len() && seen@[edges[e].1] by {
                let x = edges[e].0;
                assert(0 <= x < n);
                if x != u as int {
                    if seen_before[x] {
                        if popped.contains(x as usize) {
                            let k = choose|k: int| 0 <= k < popped.len() && popped[k] == x as usize;
                            assert(stack@.subrange(0, popped.len() as int)[k] == popped[k]);
                            assert(stack@[k] == x as usize);
                        }
                        if stack_start.contains(x as usize) {
                            let k = choose|k: int| 0 <= k < stack_start.len() && stack_start[k] == x as usize;
                            assert(k < popped.len());
                            assert(popped[k] == x as usize);
                        }
                        assert(seen_before[edges[e].1]);
                    }
                }
            }
        }
    }
    proof {
        reveal(marks_sound);
        assert forall|t: int| 0 <= t < seen.len() implies (seen@[t] <==> reaches(edges, start as int, t)) by {
            if reaches(edges, start as int, t) {
                lemma_closed_contains_reach(edges, seen@, start as int, t);
            }
        }
    }
    seen
}

proof fn lemma_all_false(s: Seq<bool>)
    requires
        forall|k: int| 0 <= k < s.len() ==> !s[k],
    ensures
        count_true(s) == 0,
    decreases s.len(),
{
    if s.len() > 0 {
        lemma_all_false(s.drop_last());
    }
}

pub open spec fn count_true(s: Seq<bool>) -> nat
    decreases s.len(),
{
    if s.len() == 0 {
        0
    } else {
        count_true(s.drop_last()) + if s.last() {
            1nat
        } else {
            0nat
        }
    }
}

proof fn lemma_count_true_bound(s: Seq<bool>)
    ensures
        count_true(s) <= s.len(),
    decreases s.len(),
{
    if s.len() > 0 {
        lemma_count_true_bound(s.drop_last());
    }
}

proof fn lemma_mark_one(s: Seq<bool>, v: int)
    requires
        0 <= v < s.len(),
        !s[v],
    ensures
        count_true(s.update(v, true)) == count_true(s) + 1,
        count_true(s.update(v, true)) <= s.len(),
    decreases s.len(),
{
    let t = s.update(v, true);
    if v == s.len() - 1 {
        assert(t.drop_last() =~= s.drop_last());
    } else {
        assert(t.drop_last() =~= s.drop_last().update(v, true));
        lemma_mark_one(s.drop_last(), v);
    }
    lemma_count_true_bound(t);
}

/// Relies on Graph::node_count: the number of nodes.
#[verifier::external_body]
pub fn graph_count(g: &DiGraph<usize, ()>) -> (r: usize)
    ensures
        r == graph_node_count(*g),
{
    g.node_count()
}

} // verus!
