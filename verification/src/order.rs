//! Depth-first ordering of a graph given by adjacency lists over indices.

use vstd::prelude::*;

verus! {

/// The state of a node during the depth-first walk.
#[derive(PartialEq, Eq, Structural, Clone, Copy)]
pub enum NodeState {
    Unvisited,
    Visiting,
    Visited,
}

pub open spec fn rank(s: NodeState) -> int {
    match s {
        NodeState::Unvisited => 0,
        NodeState::Visiting => 1,
        NodeState::Visited => 2,
    }
}

/// Every adjacency entry names a node of the graph.
pub open spec fn adj_wf(adj: Seq<Seq<usize>>) -> bool {
    forall|u: int, k: int|
        0 <= u < adj.len() && 0 <= k < adj[u].len() ==> #[trigger] adj[u][k] < adj.len()
}

/// `path` follows edges of the graph: each node has an edge to the next one.
pub open spec fn is_walk(adj: Seq<Seq<usize>>, path: Seq<usize>) -> bool {
    &&& forall|m: int| 0 <= m < path.len() ==> #[trigger] path[m] < adj.len()
    &&& forall|m: int|
        0 <= m < path.len() - 1 ==> adj[#[trigger] path[m] as int].contains(path[m + 1])
}

/// `path` is a walk whose last node occurs earlier in it: it closes a cycle.
pub open spec fn is_cycle_walk(adj: Seq<Seq<usize>>, path: Seq<usize>) -> bool {
    &&& path.len() >= 2
    &&& is_walk(adj, path)
    &&& exists|j: int| 0 <= j < path.len() - 1 && path[j] == path.last()
}

/// Every node of `order` comes after all the nodes it has edges to.
pub open spec fn is_topological(adj: Seq<Seq<usize>>, order: Seq<usize>) -> bool {
    forall|p: int, k: int|
        0 <= p < order.len() && 0 <= k < adj[order[p] as int].len() ==> #[trigger] placed_before(
            adj,
            order,
            p,
            k,
        )
}

/// The `k`-th successor of `order[p]` occurs in `order` before position `p`.
pub open spec fn placed_before(adj: Seq<Seq<usize>>, order: Seq<usize>, p: int, k: int) -> bool {
    exists|q: int| 0 <= q < p && order[q] == adj[order[p] as int][k]
}

pub open spec fn count_unvisited(st: Seq<NodeState>) -> nat
    decreases st.len(),
{
    if st.len() == 0 {
        0
    } else {
        count_unvisited(st.drop_last()) + if st.last() == NodeState::Unvisited {
            1nat
        } else {
            0nat
        }
    }
}

pub open spec fn advanced(old: Seq<NodeState>, new: Seq<NodeState>) -> bool {
    &&& old.len() == new.len()
    &&& forall|v: int| 0 <= v < old.len() ==> rank(#[trigger] old[v]) <= rank(new[v])
}

proof fn lemma_count_advanced(old: Seq<NodeState>, new: Seq<NodeState>)
    requires
        advanced(old, new),
    ensures
        count_unvisited(new) <= count_unvisited(old),
    decreases old.len(),
{
    if old.len() > 0 {
        assert(advanced(old.drop_last(), new.drop_last())) by {
            assert forall|v: int| 0 <= v < old.drop_last().len() implies rank(
                #[trigger] old.drop_last()[v],
            ) <= rank(new.drop_last()[v]) by {
                assert(old.drop_last()[v] == old[v]);
                assert(new.drop_last()[v] == new[v]);
            }
        }
        lemma_count_advanced(old.drop_last(), new.drop_last());
        assert(rank(old[old.len() - 1]) <= rank(new[new.len() - 1]));
    }
}

proof fn lemma_count_mark(st: Seq<NodeState>, u: int, s: NodeState)
    requires
        0 <= u < st.len(),
        st[u] == NodeState::Unvisited,
        s != NodeState::Unvisited,
    ensures
        count_unvisited(st.update(u, s)) + 1 == count_unvisited(st),
    decreases st.len(),
{
    let new = st.update(u, s);
    if u == st.len() - 1 {
        assert(new.drop_last() =~= st.drop_last());
    } else {
        assert(new.drop_last() =~= st.drop_last().update(u, s));
        lemma_count_mark(st.drop_last(), u, s);
    }
}

proof fn lemma_topological_push(adj: Seq<Seq<usize>>, order: Seq<usize>, u: usize)
    requires
        is_topological(adj, order),
        forall|k: int| 0 <= k < adj[u as int].len() ==> order.contains(#[trigger] adj[u as int][k]),
    ensures
        is_topological(adj, order.push(u)),
{
    let o2 = order.push(u);
    assert forall|p: int, k: int| 0 <= p < o2.len() && 0 <= k < adj[o2[p] as int].len() implies #[trigger] placed_before(adj, o2, p, k) by {
        if p < order.len() {
            assert(o2[p] == order[p]);
            assert(placed_before(adj, order, p, k));
            let q = choose|q: int| 0 <= q < p && order[q] == adj[order[p] as int][k];
            assert(o2[q] == order[q]);
        } else {
            assert(o2[p] == u);
            assert(order.contains(adj[u as int][k]));
            let q = choose|q: int| 0 <= q < order.len() && order[q] == adj[u as int][k];
            assert(o2[q] == order[q]);
        }
    }
}

/// The invariant of the walk: `order` holds exactly the finished nodes, in
/// an order where each comes after its successors; `stack` holds exactly
/// the nodes in progress, and is a walk.
pub open spec fn dfs_inv(
    adj: Seq<Seq<usize>>,
    st: Seq<NodeState>,
    order: Seq<usize>,
    stack: Seq<usize>,
) -> bool {
    &&& adj_wf(adj)
    &&& st.len() == adj.len()
    &&& forall|v: int| 0 <= v < order.len() ==> #[trigger] order[v] < adj.len()
    &&& order.no_duplicates()
    &&& stack.no_duplicates()
    &&& is_walk(adj, stack)
    &&& forall|v: usize|
        v < adj.len() ==> (st[v as int] == NodeState::Visited <==> #[trigger] order.contains(v))
    &&& forall|v: usize|
        v < adj.len() ==> (st[v as int] == NodeState::Visiting <==> #[trigger] stack.contains(v))
    &&& is_topological(adj, order)
}

fn visit(
    adj: &Vec<Vec<usize>>,
    u: usize,
    st: &mut Vec<NodeState>,
    order: &mut Vec<usize>,
    stack: &mut Vec<usize>,
) -> (r: Result<(), Vec<usize>>)
    requires
        dfs_inv(adj@.map_values(|a: Vec<usize>| a@), old(st)@, old(order)@, old(stack)@),
        u < adj@.len(),
        old(stack)@.len() > 0 ==> adj@[old(stack)@.last() as int]@.contains(u),
    ensures
        r is Ok ==> {
            &&& dfs_inv(adj@.map_values(|a: Vec<usize>| a@), final(st)@, final(order)@, final(stack)@)
            &&& final(stack)@ == old(stack)@
            &&& old(order)@.is_prefix_of(final(order)@)
            &&& advanced(old(st)@, final(st)@)
            &&& final(st)@[u as int] == NodeState::Visited
        },
        r matches Err(path) ==> is_cycle_walk(adj@.map_values(|a: Vec<usize>| a@), path@)
            && path@.drop_last().no_duplicates(),
    decreases count_unvisited(old(st)@),
{
    let ghost g = adj@.map_values(|a: Vec<usize>| a@);
    if st[u] == NodeState::Visited {
        assert(old(order)@.is_prefix_of(order@));
        return Ok(());
    }
    if st[u] == NodeState::Visiting {
        let mut path = stack.clone();
        path.push(u);
        proof {
            assert(stack@.contains(u));
            let j = choose|j: int| 0 <= j < stack@.len() && stack@[j] == u;
            assert(path@[j] == path@.last());
            assert(path@.drop_last() =~= stack@);
            assert forall|m: int| 0 <= m < path@.len() - 1 implies g[#[trigger] path@[m] as int].contains(path@[m + 1]) by {
                if m < stack@.len() - 1 {
                    assert(path@[m] == stack@[m] && path@[m + 1] == stack@[m + 1]);
                } else {
                    assert(path@[m] == stack@.last());
                }
            }
        }
        return Err(path);
    }
    let ghost st0 = st@;
    let ghost order0 = order@;
    let ghost stack0 = stack@;
    st.set(u, NodeState::Visiting);
    stack.push(u);
    proof {
        lemma_count_mark(st0, u as int, NodeState::Visiting);
        assert(!stack0.contains(u));
        assert forall|v: usize| v < adj@.len() implies (st@[v as int] == NodeState::Visiting <==> #[trigger] stack@.contains(v)) by {
            if v == u {
                assert(stack@[stack@.len() - 1] == u);
            } else {
                if stack0.contains(v) {
                    let j = choose|j: int| 0 <= j < stack0.len() && stack0[j] == v;
                    assert(stack@[j] == v);
                }
                if stack@.contains(v) {
                    let j = choose|j: int| 0 <= j < stack@.len() && stack@[j] == v;
                    assert(j < stack0.len());
                    assert(stack0[j] == v);
                }
            }
        }
        assert forall|v: usize| v < adj@.len() implies (st@[v as int] == NodeState::Visited <==> #[trigger] order@.contains(v)) by {
            if v == u {
                assert(!order0.contains(u));
            }
        }
        assert forall|m: int| 0 <= m < stack@.len() - 1 implies g[#[trigger] stack@[m] as int].contains(stack@[m + 1]) by {
            if m < stack0.len() - 1 {
                assert(stack@[m] == stack0[m] && stack@[m + 1] == stack0[m + 1]);
            } else {
                assert(stack@[m] == stack0.last());
            }
        }
        assert(adj@[u as int]@ == g[u as int]);
    }
    let ghost st1 = st@;
    let n = adj[u].len();
    let mut k: usize = 0;
    while k < n
        invariant
            g == adj@.map_values(|a: Vec<usize>| a@),
            u < adj@.len(),
            n == adj@[u as int]@.len(),
            k <= n,
            dfs_inv(g, st@, order@, stack@),
            stack@ == stack0.push(u),
            order0.is_prefix_of(order@),
            advanced(st0, st@),
            advanced(st1, st@),
            count_unvisited(st1) + 1 == count_unvisited(st0),
            st0 == old(st)@,
            st@[u as int] == NodeState::Visiting,
            forall|j: int| 0 <= j < k ==> st@[adj@[u as int]@[j] as int] == NodeState::Visited,
        decreases n - k,
    {
        let v = adj[u][k];
        proof {
            assert(g[u as int] == adj@[u as int]@);
            assert(v < adj@.len());
            assert(stack@.last() == u);
            lemma_count_advanced(st1, st@);
        }
        let ghost st2 = st@;
        let ghost order2 = order@;
        match visit(adj, v, st, order, stack) {
            Ok(()) => {},
            Err(path) => {
                return Err(path);
            },
        }
        proof {
            assert(stack@[stack@.len() - 1] == u);
            assert(stack@.contains(u));
            assert forall|j: int| 0 <= j < k + 1 implies st@[adj@[u as int]@[j] as int] == NodeState::Visited by {
                if j < k {
                    assert(rank(st2[adj@[u as int]@[j] as int]) <= rank(st@[adj@[u as int]@[j] as int]));
                }
            }
            assert(order0.is_prefix_of(order@)) by {
                assert forall|i: int| 0 <= i < order0.len() implies order0[i] == order@[i] by {
                    assert(order2[i] == order0[i]);
                }
            }
            assert(advanced(st0, st@)) by {
                assert forall|w: int| 0 <= w < st0.len() implies rank(#[trigger] st0[w]) <= rank(st@[w]) by {
                    assert(rank(st0[w]) <= rank(st2[w]));
                    assert(rank(st2[w]) <= rank(st@[w]));
                }
            }
            assert(advanced(st1, st@)) by {
                assert forall|w: int| 0 <= w < st1.len() implies rank(#[trigger] st1[w]) <= rank(st@[w]) by {
                    assert(rank(st1[w]) <= rank(st2[w]));
                    assert(rank(st2[w]) <= rank(st@[w]));
                }
            }
        }
        k = k + 1;
    }
    let ghost st3 = st@;
    let ghost order3 = order@;
    let ghost stack3 = stack@;
    stack.pop();
    st.set(u, NodeState::Visited);
    order.push(u);
    proof {
        assert(stack@ =~= stack0);
        assert(!order3.contains(u));
        assert forall|v: usize| v < adj@.len() implies (st@[v as int] == NodeState::Visited <==> #[trigger] order@.contains(v)) by {
            if v != u {
                if order@.contains(v) {
                    let j = choose|j: int| 0 <= j < order@.len() && order@[j] == v;
                    assert(j < order3.len());
                    assert(order3[j] == v);
                }
                if order3.contains(v) {
                    let j = choose|j: int| 0 <= j < order3.len() && order3[j] == v;
                    assert(order@[j] == v);
                }
            } else {
                assert(order@[order@.len() - 1] == u);
            }
        }
        assert forall|v: usize| v < adj@.len() implies (st@[v as int] == NodeState::Visiting <==> #[trigger] stack@.contains(v)) by {
            if v == u {
                assert(!stack0.contains(u));
            } else {
                if stack3.contains(v) {
                    let j = choose|j: int| 0 <= j < stack3.len() && stack3[j] == v;
                    if j < stack0.len() {
                        assert(stack0[j] == v);
                    }
                }
                if stack0.contains(v) {
                    let j = choose|j: int| 0 <= j < stack0.len() && stack0[j] == v;
                    assert(stack3[j] == v);
                }
            }
        }
        assert forall|m: int| 0 <= m < stack@.len() - 1 implies g[#[trigger] stack@[m] as int].contains(stack@[m + 1]) by {
            assert(stack@[m] == stack3[m] && stack@[m + 1] == stack3[m + 1]);
        }
        assert forall|kk: int| 0 <= kk < g[u as int].len() implies order3.contains(#[trigger] g[u as int][kk]) by {
            let w = g[u as int][kk];
            assert(adj@[u as int]@[kk] == w);
            assert(st3[w as int] == NodeState::Visited);
        }
        assert(order@ =~= order3.push(u));
        lemma_topological_push(g, order3, u);
        assert(order0.is_prefix_of(order@)) by {
            assert forall|i: int| 0 <= i < order0.len() implies order0[i] == order@[i] by {
                assert(order3[i] == order0[i]);
            }
        }
        assert(advanced(st0, st@)) by {
            assert forall|w: int| 0 <= w < st0.len() implies rank(#[trigger] st0[w]) <= rank(st@[w]) by {
                assert(rank(st0[w]) <= rank(st3[w]));
            }
        }
    }
    Ok(())
}

} // verus!

verus! {

/// `order` lists each node of the graph exactly once.
pub open spec fn is_permutation(n: nat, order: Seq<usize>) -> bool {
    &&& n <= usize::MAX + 1
    &&& order.len() == n
    &&& order.no_duplicates()
    &&& forall|i: int| 0 <= i < order.len() ==> #[trigger] order[i] < n
}

proof fn lemma_range_len(n: nat)
    requires
        n <= usize::MAX + 1,
    ensures
        Set::new(|v: usize| (v as int) < n).finite(),
        Set::new(|v: usize| (v as int) < n).len() == n,
    decreases n,
{
    if n == 0 {
        assert(Set::new(|v: usize| (v as int) < n) =~= Set::<usize>::empty());
    } else {
        lemma_range_len((n - 1) as nat);
        let m = (n - 1) as usize;
        assert(Set::new(|v: usize| (v as int) < n) =~= Set::new(|v: usize| (v as int) < n - 1).insert(m));
    }
}

proof fn lemma_cover_len(n: nat, order: Seq<usize>)
    requires
        n <= usize::MAX + 1,
        order.no_duplicates(),
        forall|i: int| 0 <= i < order.len() ==> #[trigger] order[i] < n,
        forall|v: usize| (v as int) < n ==> #[trigger] order.contains(v),
    ensures
        order.len() == n,
{
    order.unique_seq_to_set();
    lemma_range_len(n);
    assert(order.to_set() =~= Set::new(|v: usize| (v as int) < n)) by {
        assert forall|v: usize| order.to_set().contains(v) implies (v as int) < n by {
            let i = choose|i: int| 0 <= i < order.len() && order[i] == v;
        }
    }
}

/// Orders the nodes so that each comes after all the nodes it has edges to,
/// or finds a walk that closes a cycle.
pub fn topological_order(adj: &Vec<Vec<usize>>) -> (r: Result<Vec<usize>, Vec<usize>>)
    requires
        adj_wf(adj@.map_values(|a: Vec<usize>| a@)),
    ensures
        r matches Ok(order) ==> {
            &&& is_permutation(adj@.len() as nat, order@)
            &&& is_topological(adj@.map_values(|a: Vec<usize>| a@), order@)
        },
        r matches Err(path) ==> is_cycle_walk(adj@.map_values(|a: Vec<usize>| a@), path@)
            && path@.drop_last().no_duplicates(),
{
    let ghost g = adj@.map_values(|a: Vec<usize>| a@);
    let n = adj.len();
    let mut st: Vec<NodeState> = Vec::new();
    let mut i: usize = 0;
    while i < n
        invariant
            i <= n,
            st@.len() == i,
            forall|j: int| 0 <= j < i ==> st@[j] == NodeState::Unvisited,
        decreases n - i,
    {
        st.push(NodeState::Unvisited);
        i = i + 1;
    }
    let mut order: Vec<usize> = Vec::new();
    let mut stack: Vec<usize> = Vec::new();
    proof {
        assert forall|v: usize| v < adj@.len() implies (st@[v as int] == NodeState::Visited <==> #[trigger] order@.contains(v)) by {}
        assert forall|v: usize| v < adj@.len() implies (st@[v as int] == NodeState::Visiting <==> #[trigger] stack@.contains(v)) by {}
    }
    let mut i: usize = 0;
    while i < n
        invariant
            g == adj@.map_values(|a: Vec<usize>| a@),
            n == adj@.len(),
            i <= n,
            dfs_inv(g, st@, order@, stack@),
            stack@.len() == 0,
            forall|j: int| 0 <= j < i ==> st@[j] == NodeState::Visited,
        decreases n - i,
    {
        let ghost st0 = st@;
        match visit(adj, i, &mut st, &mut order, &mut stack) {
            Ok(()) => {},
            Err(path) => {
                return Err(path);
            },
        }
        proof {
            assert forall|j: int| 0 <= j < i + 1 implies st@[j] == NodeState::Visited by {
                if j < i {
                    assert(rank(st0[j]) <= rank(st@[j]));
                }
            }
        }
        i = i + 1;
    }
    proof {
        assert forall|v: usize| (v as int) < n implies #[trigger] order@.contains(v) by {
            assert(st@[v as int] == NodeState::Visited);
        }
        lemma_cover_len(n as nat, order@);
    }
    Ok(order)
}

/// The position of `v` in `order`.
pub open spec fn position(order: Seq<usize>, v: usize) -> int {
    choose|q: int| 0 <= q < order.len() && order[q] == v
}

proof fn lemma_edge_goes_back(adj: Seq<Seq<usize>>, order: Seq<usize>, u: usize, w: usize)
    requires
        is_permutation(adj.len(), order),
        is_topological(adj, order),
        (u as int) < adj.len(),
        adj[u as int].contains(w),
    ensures
        0 <= position(order, w) < position(order, u) < order.len(),
        order[position(order, w)] == w,
        order[position(order, u)] == u,
{
    assert(order.contains(u)) by {
        lemma_permutation_covers(adj.len(), order, u);
    }
    let p = position(order, u);
    let k = choose|k: int| 0 <= k < adj[u as int].len() && adj[u as int][k] == w;
    assert(placed_before(adj, order, p, k));
    let q = choose|q: int| 0 <= q < p && order[q] == adj[order[p] as int][k];
    assert(order.contains(w));
    let q2 = position(order, w);
    assert(q == q2) by {
        if q != q2 {
            assert(order[q] == order[q2]);
        }
    }
}

pub proof fn lemma_permutation_covers(n: nat, order: Seq<usize>, v: usize)
    requires
        is_permutation(n, order),
        (v as int) < n,
    ensures
        order.contains(v),
{
    order.unique_seq_to_set();
    lemma_range_len(n);
    let full = Set::new(|x: usize| (x as int) < n);
    assert(order.to_set().subset_of(full));
    if !order.contains(v) {
        assert(order.to_set().subset_of(full.remove(v)));
        vstd::set_lib::lemma_len_subset(order.to_set(), full.remove(v));
    }
}

/// Where a topological order of all nodes exists, no walk closes a cycle.
pub proof fn lemma_topological_excludes_cycles(
    adj: Seq<Seq<usize>>,
    order: Seq<usize>,
    path: Seq<usize>,
)
    requires
        adj_wf(adj),
        is_permutation(adj.len(), order),
        is_topological(adj, order),
    ensures
        !is_cycle_walk(adj, path),
{
    if is_cycle_walk(adj, path) {
        let j = choose|j: int| 0 <= j < path.len() - 1 && path[j] == path.last();
        let last = path.len() - 1;
        assert forall|m: int| j <= m <= last implies position(order, #[trigger] path[m]) <= position(
            order,
            path[j],
        ) - (m - j) by {
            lemma_walk_descends(adj, order, path, j, m);
        }
        assert(position(order, path[last]) <= position(order, path[j]) - (last - j));
    }
}

proof fn lemma_walk_descends(
    adj: Seq<Seq<usize>>,
    order: Seq<usize>,
    path: Seq<usize>,
    j: int,
    m: int,
)
    requires
        adj_wf(adj),
        is_permutation(adj.len(), order),
        is_topological(adj, order),
        is_walk(adj, path),
        0 <= j <= m < path.len(),
    ensures
        position(order, path[m]) <= position(order, path[j]) - (m - j),
    decreases m - j,
{
    if m > j {
        lemma_walk_descends(adj, order, path, j, m - 1);
        assert(adj[path[m - 1] as int].contains(path[m]));
        lemma_edge_goes_back(adj, order, path[m - 1], path[m]);
    }
}

} // verus!
