use vstd::prelude::*;

verus! {

#[derive(Debug, Clone, Copy, PartialEq, Eq, Structural)]
pub enum DominatorTreeEdgeType {
    ImmediateDominator,
}

/// The list holds an edge from `a` to `b`.
pub open spec fn has_edge(edges: Seq<(usize, usize)>, a: int, b: int) -> bool {
    exists|k: int| 0 <= k < edges.len() && edges[k].0 as int == a && edges[k].1 as int == b
}

/// Step `i` of the walk `p` follows an edge.
pub open spec fn walk_step(edges: Seq<(usize, usize)>, p: Seq<int>, i: int) -> bool {
    has_edge(edges, p[i], p[i + 1])
}

/// `p` is a walk along the edges that never passes through `avoid`.
pub open spec fn is_walk_avoiding(edges: Seq<(usize, usize)>, p: Seq<int>, avoid: int) -> bool {
    &&& p.len() >= 1
    &&& forall|i: int| 0 <= i < p.len() ==> #[trigger] p[i] != avoid
    &&& forall|i: int| 0 <= i < p.len() - 1 ==> #[trigger] walk_step(edges, p, i)
}

/// Some walk from `from` to `to` never passes through `avoid`.
pub open spec fn reaches_avoiding(edges: Seq<(usize, usize)>, from: int, to: int, avoid: int) -> bool {
    exists|p: Seq<int>| #[trigger] is_walk_avoiding(edges, p, avoid) && p[0] == from && p.last() == to
}

/// Some walk leads from `from` to `to`.
pub open spec fn reaches(edges: Seq<(usize, usize)>, from: int, to: int) -> bool {
    reaches_avoiding(edges, from, to, -1)
}

/// `d` dominates `v`: both are reached from the root, and every walk from
/// the root to `v` passes through `d`.
pub open spec fn dominance(edges: Seq<(usize, usize)>, root: int, d: int, v: int) -> bool {
    &&& reaches(edges, root, d)
    &&& reaches(edges, root, v)
    &&& (d == v || !reaches_avoiding(edges, root, v, d))
}

/// `c` is the immediate dominator of `v`: it dominates `v`, is not `v`, and
/// every other node that dominates `v` and is not `v` dominates `c`.
pub open spec fn is_immediate_dominator(edges: Seq<(usize, usize)>, n: nat, root: int, c: int, v: int) -> bool {
    &&& c != v
    &&& dominance(edges, root, c, v)
    &&& forall|x: int|
        0 <= x < n && x != v && #[trigger] dominance(edges, root, x, v) ==> dominance(edges, root, x, c)
}

/// Every edge joins two of the `n` nodes.
pub open spec fn edges_within(edges: Seq<(usize, usize)>, n: nat) -> bool {
    forall|k: int| 0 <= k < edges.len() ==> (#[trigger] edges[k]).0 < n && edges[k].1 < n
}

pub open spec fn avoid_of(avoid: Option<usize>) -> int {
    match avoid {
        Some(x) => x as int,
        None => -1,
    }
}

/// Every edge out of `w` that does not lead to `avoid` leads to a node in `seen`.
pub open spec fn closed_at(edges: Seq<(usize, usize)>, seen: Seq<bool>, w: int, avoid: int) -> bool {
    forall|k: int|
        0 <= k < edges.len() && edges[k].0 as int == w && edges[k].1 as int != avoid
            ==> #[trigger] seen[edges[k].1 as int]
}

pub open spec fn count_false(s: Seq<bool>) -> nat
    decreases s.len(),
{
    if s.len() == 0 {
        0
    } else {
        count_false(s.drop_last()) + if s.last() {
            0nat
        } else {
            1nat
        }
    }
}

pub proof fn lemma_count_false_set(s: Seq<bool>, i: int)
    requires
        0 <= i < s.len(),
        !s[i],
    ensures
        count_false(s.update(i, true)) + 1 == count_false(s),
    decreases s.len(),
{
    if i == s.len() - 1 {
        assert(s.update(i, true).drop_last() =~= s.drop_last());
    } else {
        lemma_count_false_set(s.drop_last(), i);
        assert(s.update(i, true).drop_last() =~= s.drop_last().update(i, true));
    }
}

proof fn lemma_closed_mono(edges: Seq<(usize, usize)>, s1: Seq<bool>, s2: Seq<bool>, w: int, avoid: int)
    requires
        closed_at(edges, s1, w, avoid),
        s1.len() == s2.len(),
        forall|j: int| 0 <= j < s1.len() && #[trigger] s1[j] ==> s2[j],
        forall|k: int| 0 <= k < edges.len() ==> (#[trigger] edges[k]).1 < s1.len(),
    ensures
        closed_at(edges, s2, w, avoid),
{
    assert forall|k: int|
        0 <= k < edges.len() && edges[k].0 as int == w && edges[k].1 as int != avoid implies #[trigger] s2[edges[k].1 as int] by {
        assert(s1[edges[k].1 as int]);
    }
}

/// A walk avoiding `avoid` that ends at `u`, with an edge `k` from `u` to a
/// node other than `avoid`, extends to that node.
proof fn lemma_extend_walk(edges: Seq<(usize, usize)>, p: Seq<int>, avoid: int, k: int)
    requires
        is_walk_avoiding(edges, p, avoid),
        0 <= k < edges.len(),
        edges[k].0 as int == p.last(),
        edges[k].1 as int != avoid,
    ensures
        is_walk_avoiding(edges, p.push(edges[k].1 as int), avoid),
        p.push(edges[k].1 as int)[0] == p[0],
{
    let q = p.push(edges[k].1 as int);
    assert forall|i: int| 0 <= i < q.len() - 1 implies #[trigger] walk_step(edges, q, i) by {
        if i < p.len() - 1 {
            assert(walk_step(edges, p, i));
        } else {
            assert(edges[k].0 as int == q[i] && edges[k].1 as int == q[i + 1]);
        }
    }
    assert forall|i: int| 0 <= i < q.len() implies #[trigger] q[i] != avoid by {
        if i < p.len() {
            assert(p[i] != avoid);
        }
    }
}

/// In a set of nodes that holds the start of a walk and is closed under the
/// edges that avoid `avoid`, the walk stays inside the set.
proof fn lemma_closed_holds_walk(edges: Seq<(usize, usize)>, seen: Seq<bool>, avoid: int, p: Seq<int>)
    requires
        is_walk_avoiding(edges, p, avoid),
        0 <= p[0] < seen.len(),
        seen[p[0]],
        edges_within(edges, seen.len()),
        forall|w: int| 0 <= w < seen.len() && #[trigger] seen[w] ==> closed_at(edges, seen, w, avoid),
    ensures
        0 <= p.last() < seen.len(),
        seen[p.last()],
    decreases p.len(),
{
    if p.len() > 1 {
        let q = p.drop_last();
        assert forall|i: int| 0 <= i < q.len() - 1 implies #[trigger] walk_step(edges, q, i) by {
            assert(walk_step(edges, p, i));
        }
        assert forall|i: int| 0 <= i < q.len() implies #[trigger] q[i] != avoid by {
            assert(p[i] != avoid);
        }
        lemma_closed_holds_walk(edges, seen, avoid, q);
        assert(walk_step(edges, p, p.len() - 2));
        let k = choose|k: int|
            0 <= k < edges.len() && edges[k].0 as int == p[p.len() - 2] && edges[k].1 as int == p[p.len() - 1];
        assert(p[p.len() - 1] != avoid);
        assert(closed_at(edges, seen, q.last(), avoid));
        assert(edges[k].1 < seen.len());
    }
}

/// The nodes that a walk from `from` reaches without passing `avoid`:
/// `r[v]` tells whether `v` is reached.
pub fn reach_from(n: usize, edges: &Vec<(usize, usize)>, from: usize, avoid: Option<usize>) -> (r: Vec<bool>)
    requires
        from < n,
        edges_within(edges@, n as nat),
    ensures
        r@.len() == n,
        forall|v: int| 0 <= v < n ==> (#[trigger] r@[v] <==> reaches_avoiding(edges@, from as int, v, avoid_of(avoid))),
{
    let ghost a = avoid_of(avoid);
    let ghost e = edges@;
    let mut seen: Vec<bool> = Vec::new();
    let mut i: usize = 0;
    while i < n
        invariant
            i <= n,
            seen@ == Seq::new(i as nat, |j: int| false),
        decreases n - i,
    {
        seen.push(false);
        i = i + 1;
        proof {
            assert(seen@ =~= Seq::new(i as nat, |j: int| false));
        }
    }
    let mut stack: Vec<usize> = Vec::new();
    let starts = match avoid {
        Some(x) => x != from,
        None => true,
    };
    if starts {
        seen.set(from, true);
        stack.push(from);
        proof {
            let p = seq![from as int];
            assert(is_walk_avoiding(e, p, a));
            assert(p.last() == from as int);
        }
    }
    proof {
        assert forall|w: int|
            0 <= w < n && #[trigger] seen@[w] && !stack@.contains(w as usize) implies closed_at(e, seen@, w, a) by {
            assert(w == from as int);
            assert(stack@[0] == from);
        }
    }
    while stack.len() > 0
        invariant
            e == edges@,
            a == avoid_of(avoid),
            edges_within(e, n as nat),
            from < n,
            seen@.len() == n,
            starts == (a != from as int),
            starts ==> seen@[from as int],
            forall|v: int| 0 <= v < n && #[trigger] seen@[v] ==> v != a && reaches_avoiding(e, from as int, v, a),
            forall|j: int| 0 <= j < stack@.len() ==> (#[trigger] stack@[j]) < n && seen@[stack@[j] as int],
            forall|w: int|
                0 <= w < n && #[trigger] seen@[w] && !stack@.contains(w as usize) ==> closed_at(e, seen@, w, a),
        decreases 2 * count_false(seen@) + stack@.len(),
    {
        let ghost pre = stack@;
        let u = stack.pop().unwrap();
        proof {
            assert forall|w: int|
                0 <= w < n && w != u && #[trigger] seen@[w] && !stack@.contains(w as usize) implies closed_at(
                    e,
                    seen@,
                    w,
                    a,
                ) by {
                if pre.contains(w as usize) {
                    let j = choose|j: int| 0 <= j < pre.len() && pre[j] == w as usize;
                    if j < pre.len() - 1 {
                        assert(stack@[j] == w as usize);
                    }
                }
            }
        }
        let ghost c0 = count_false(seen@);
        let ghost s0 = stack@.len();
        let mut k: usize = 0;
        while k < edges.len()
            invariant
                e == edges@,
                a == avoid_of(avoid),
                edges_within(e, n as nat),
                from < n,
                u < n,
                seen@.len() == n,
                seen@[u as int],
                starts == (a != from as int),
                starts ==> seen@[from as int],
                k <= edges@.len(),
                forall|v: int| 0 <= v < n && #[trigger] seen@[v] ==> v != a && reaches_avoiding(e, from as int, v, a),
                forall|j: int| 0 <= j < stack@.len() ==> (#[trigger] stack@[j]) < n && seen@[stack@[j] as int],
                forall|w: int|
                    0 <= w < n && w != u && #[trigger] seen@[w] && !stack@.contains(w as usize) ==> closed_at(
                        e,
                        seen@,
                        w,
                        a,
                    ),
                forall|q: int|
                    0 <= q < k && e[q].0 == u && e[q].1 as int != a ==> #[trigger] seen@[e[q].1 as int],
                count_false(seen@) <= c0,
                stack@.len() == s0 + (c0 - count_false(seen@)),
            decreases edges@.len() - k,
        {
            let (x, y) = edges[k];
            let fresh = match avoid {
                Some(z) => z != y,
                None => true,
            };
            if x == u && fresh && !seen[y] {
                let ghost before = seen@;
                let ghost before_stack = stack@;
                proof {
                    let p = choose|p: Seq<int>| #[trigger] is_walk_avoiding(e, p, a) && p[0] == from as int && p.last() == u as int;
                    lemma_extend_walk(e, p, a, k as int);
                    lemma_count_false_set(before, y as int);
                }
                seen.set(y, true);
                stack.push(y);
                proof {
                    assert forall|w: int|
                        0 <= w < n && w != u && #[trigger] seen@[w] && !stack@.contains(w as usize) implies closed_at(
                            e,
                            seen@,
                            w,
                            a,
                        ) by {
                        assert(stack@[stack@.len() - 1] == y);
                        assert(w != y);
                        assert(before[w]);
                        assert(!before_stack.contains(w as usize)) by {
                            if before_stack.contains(w as usize) {
                                let j = choose|j: int| 0 <= j < before_stack.len() && before_stack[j] == w as usize;
                                assert(stack@[j] == w as usize);
                            }
                        }
                        lemma_closed_mono(e, before, seen@, w, a);
                    }
                    assert forall|j: int| 0 <= j < stack@.len() implies (#[trigger] stack@[j]) < n && seen@[stack@[j] as int] by {
                        if j < stack@.len() - 1 {
                            assert(stack@[j] == stack@.drop_last()[j]);
                        }
                    }
                }
            }
            k = k + 1;
        }
        proof {
            assert(closed_at(e, seen@, u as int, a));
            assert forall|w: int|
                0 <= w < n && #[trigger] seen@[w] && !stack@.contains(w as usize) implies closed_at(e, seen@, w, a) by {
            }
        }
    }
    proof {
        assert forall|v: int| 0 <= v < n implies (#[trigger] seen@[v] <==> reaches_avoiding(e, from as int, v, a)) by {
            if reaches_avoiding(e, from as int, v, a) {
                let p = choose|p: Seq<int>| #[trigger] is_walk_avoiding(e, p, a) && p[0] == from as int && p.last() == v;
                assert(p[0] != a);
                lemma_closed_holds_walk(e, seen@, a, p);
            }
        }
    }
    seen
}

/// The first place where a walk meets `a` or `b`.
proof fn lemma_first_hit(p: Seq<int>, a: int, b: int) -> (i: int)
    requires
        exists|j: int| 0 <= j < p.len() && (p[j] == a || p[j] == b),
    ensures
        0 <= i < p.len(),
        p[i] == a || p[i] == b,
        forall|j: int| 0 <= j < i ==> p[j] != a && p[j] != b,
    decreases p.len(),
{
    let q = p.drop_last();
    if exists|j: int| 0 <= j < q.len() && (q[j] == a || q[j] == b) {
        let i = lemma_first_hit(q, a, b);
        assert forall|j: int| 0 <= j < i implies p[j] != a && p[j] != b by {
            assert(q[j] == p[j]);
        }
        i
    } else {
        let j = choose|j: int| 0 <= j < p.len() && (p[j] == a || p[j] == b);
        if j < p.len() - 1 {
            assert(q[j] == p[j]);
        }
        assert forall|k: int| 0 <= k < p.len() - 1 implies p[k] != a && p[k] != b by {
            assert(q[k] == p[k]);
        }
        p.len() - 1
    }
}

/// The part of a walk up to place `i` is a walk, and avoids what the walk
/// does not meet before `i` and is not the node at `i`.
proof fn lemma_walk_prefix(edges: Seq<(usize, usize)>, p: Seq<int>, i: int, avoid: int, other: int)
    requires
        is_walk_avoiding(edges, p, avoid),
        0 <= i < p.len(),
        forall|j: int| 0 <= j < i ==> p[j] != other,
        p[i] != other,
    ensures
        is_walk_avoiding(edges, p.take(i + 1), other),
        p.take(i + 1)[0] == p[0],
        p.take(i + 1).last() == p[i],
{
    let q = p.take(i + 1);
    assert forall|j: int| 0 <= j < q.len() - 1 implies #[trigger] walk_step(edges, q, j) by {
        assert(walk_step(edges, p, j));
    }
    assert forall|j: int| 0 <= j < q.len() implies #[trigger] q[j] != other by {
        assert(q[j] == p[j]);
    }
}

/// Two nodes that dominate each other are the same node.
pub proof fn lemma_dominance_antisymmetric(edges: Seq<(usize, usize)>, root: int, a: int, b: int)
    requires
        dominance(edges, root, a, b),
        dominance(edges, root, b, a),
    ensures
        a == b,
{
    if a != b {
        let p = choose|p: Seq<int>| #[trigger] is_walk_avoiding(edges, p, -1) && p[0] == root && p.last() == a;
        assert(p[p.len() - 1] == a);
        let i = lemma_first_hit(p, a, b);
        if p[i] == a {
            lemma_walk_prefix(edges, p, i, -1, b);
            assert(reaches_avoiding(edges, root, a, b));
        } else {
            lemma_walk_prefix(edges, p, i, -1, a);
            assert(reaches_avoiding(edges, root, b, a));
        }
    }
}

/// The root dominates every node that it reaches.
pub proof fn lemma_root_dominates(edges: Seq<(usize, usize)>, root: int, v: int)
    requires
        reaches(edges, root, v),
    ensures
        dominance(edges, root, root, v),
{
    assert(is_walk_avoiding(edges, seq![root], -1));
    assert(seq![root].last() == root);
    if root != v {
        assert forall|p: Seq<int>| !(#[trigger] is_walk_avoiding(edges, p, root) && p[0] == root && p.last() == v) by {
            if is_walk_avoiding(edges, p, root) && p[0] == root {
                assert(p[0] != root);
            }
        }
    }
}

/// A node that dominates a node that dominates `c` dominates `c`.
pub proof fn lemma_dominance_transitive(edges: Seq<(usize, usize)>, root: int, a: int, b: int, c: int)
    requires
        dominance(edges, root, a, b),
        dominance(edges, root, b, c),
    ensures
        dominance(edges, root, a, c),
{
    if a != c && reaches_avoiding(edges, root, c, a) {
        let p = choose|p: Seq<int>| #[trigger] is_walk_avoiding(edges, p, a) && p[0] == root && p.last() == c;
        if b == c {
        } else {
            if exists|j: int| 0 <= j < p.len() && p[j] == b {
                let i = lemma_first_hit(p, b, b);
                assert(p[i] != a);
                assert forall|j: int| 0 <= j < i implies p[j] != a by {
                    assert(p[j] != a);
                }
                lemma_walk_prefix(edges, p, i, a, a);
                assert(reaches_avoiding(edges, root, b, a));
                assert(a != b);
            } else {
                assert(is_walk_avoiding(edges, p, b)) by {
                    assert forall|j: int| 0 <= j < p.len() implies #[trigger] p[j] != b by {}
                }
                assert(reaches_avoiding(edges, root, c, b));
            }
        }
    }
}

/// A node has at most one immediate dominator.
pub proof fn lemma_immediate_dominator_unique(edges: Seq<(usize, usize)>, n: nat, root: int, c1: int, c2: int, v: int)
    requires
        0 <= c1 < n,
        0 <= c2 < n,
        is_immediate_dominator(edges, n, root, c1, v),
        is_immediate_dominator(edges, n, root, c2, v),
    ensures
        c1 == c2,
{
    assert(dominance(edges, root, c2, v));
    assert(dominance(edges, root, c1, v));
    lemma_dominance_antisymmetric(edges, root, c1, c2);
}

/// The dominators of a graph's nodes, from its root.
pub struct DominatorTree {
    pub root_id: usize,
    pub node_count: usize,
    pub edges: Vec<(usize, usize)>,
    /// `dominated[d][v]`: `d` dominates `v`.
    pub dominated: Vec<Vec<bool>>,
    /// The immediate dominator of each node.
    pub idom: Vec<Option<usize>>,
}

impl DominatorTree {
    pub open spec fn wf(&self) -> bool {
        &&& edges_within(self.edges@, self.node_count as nat)
        &&& self.root_id < self.node_count
        &&& self.dominated@.len() == self.node_count
        &&& forall|d: int| 0 <= d < self.node_count ==> (#[trigger] self.dominated@[d])@.len() == self.node_count
        &&& forall|d: int, v: int|
            0 <= d < self.node_count && 0 <= v < self.node_count ==> (#[trigger] self.dominated@[d]@[v] <==> dominance(
                self.edges@,
                self.root_id as int,
                d,
                v,
            ))
        &&& self.idom@.len() == self.node_count
        &&& forall|v: int|
            0 <= v < self.node_count ==> match #[trigger] self.idom@[v] {
                Some(c) => c < self.node_count && is_immediate_dominator(
                    self.edges@,
                    self.node_count as nat,
                    self.root_id as int,
                    c as int,
                    v,
                ),
                None => forall|y: int|
                    0 <= y < self.node_count ==> !#[trigger] is_immediate_dominator(
                        self.edges@,
                        self.node_count as nat,
                        self.root_id as int,
                        y,
                        v,
                    ),
            }
    }

    /// The dominators of the nodes `0..node_count` of the graph of `edges`,
    /// from `root`.
    pub fn from_graph(node_count: usize, edges: &Vec<(usize, usize)>, root: usize) -> (r: DominatorTree)
        requires
            root < node_count,
            edges_within(edges@, node_count as nat),
        ensures
            r.wf(),
            r.root_id == root,
            r.node_count == node_count,
            r.edges@ == edges@,
    {
        let n = node_count;
        let ghost e = edges@;
        let reached = reach_from(n, edges, root, None);
        let mut dominated: Vec<Vec<bool>> = Vec::new();
        let mut d: usize = 0;
        while d < n
            invariant
                d <= n,
                root < n,
                e == edges@,
                edges_within(e, n as nat),
                reached@.len() == n,
                forall|v: int| 0 <= v < n ==> (#[trigger] reached@[v] <==> reaches(e, root as int, v)),
                dominated@.len() == d,
                forall|x: int| 0 <= x < d ==> (#[trigger] dominated@[x])@.len() == n,
                forall|x: int, v: int|
                    0 <= x < d && 0 <= v < n ==> (#[trigger] dominated@[x]@[v] <==> dominance(e, root as int, x, v)),
            decreases n - d,
        {
            let avoiding = reach_from(n, edges, root, Some(d));
            let mut row: Vec<bool> = Vec::new();
            let mut v: usize = 0;
            while v < n
                invariant
                    v <= n,
                    d < n,
                    root < n,
                    e == edges@,
                    reached@.len() == n,
                    avoiding@.len() == n,
                    forall|w: int| 0 <= w < n ==> (#[trigger] reached@[w] <==> reaches(e, root as int, w)),
                    forall|w: int|
                        0 <= w < n ==> (#[trigger] avoiding@[w] <==> reaches_avoiding(e, root as int, w, d as int)),
                    row@.len() == v,
                    forall|w: int| 0 <= w < v ==> (#[trigger] row@[w] <==> dominance(e, root as int, d as int, w)),
                decreases n - v,
            {
                let b = reached[d] && reached[v] && (d == v || !avoiding[v]);
                row.push(b);
                v = v + 1;
            }
            dominated.push(row);
            d = d + 1;
        }
        let mut idom: Vec<Option<usize>> = Vec::new();
        let mut v: usize = 0;
        while v < n
            invariant
                v <= n,
                root < n,
                e == edges@,
                dominated@.len() == n,
                forall|x: int| 0 <= x < n ==> (#[trigger] dominated@[x])@.len() == n,
                forall|x: int, w: int|
                    0 <= x < n && 0 <= w < n ==> (#[trigger] dominated@[x]@[w] <==> dominance(e, root as int, x, w)),
                idom@.len() == v,
                forall|w: int|
                    0 <= w < v ==> match #[trigger] idom@[w] {
                        Some(c) => c < n && is_immediate_dominator(e, n as nat, root as int, c as int, w),
                        None => forall|y: int| 0 <= y < n ==> !#[trigger] is_immediate_dominator(e, n as nat, root as int, y, w),
                    },
            decreases n - v,
        {
            let found = immediate_dominator_among(n, &dominated, v, Ghost(e), root);
            idom.push(found);
            v = v + 1;
        }
        DominatorTree { root_id: root, node_count: n, edges: copy_pairs(edges), dominated, idom }
    }

    /// Whether `a` dominates `b`; false for a node that is not in the graph.
    pub fn dominates(&self, a: usize, b: usize) -> (r: bool)
        requires
            self.wf(),
        ensures
            r == (a < self.node_count && b < self.node_count && dominance(self.edges@, self.root_id as int, a as int, b as int)),
    {
        if a < self.node_count && b < self.node_count {
            self.dominated[a][b]
        } else {
            false
        }
    }

    /// The immediate dominator of a node reached from the root; the root
    /// has none.
    pub fn immediate_dominator(&self, v: usize) -> (r: Option<usize>)
        requires
            self.wf(),
            v < self.node_count,
            reaches(self.edges@, self.root_id as int, v as int),
        ensures
            r == self.idom@[v as int],
            match r {
                Some(c) => c < self.node_count && is_immediate_dominator(
                    self.edges@,
                    self.node_count as nat,
                    self.root_id as int,
                    c as int,
                    v as int,
                ),
                None => forall|y: int|
                    0 <= y < self.node_count ==> !#[trigger] is_immediate_dominator(
                        self.edges@,
                        self.node_count as nat,
                        self.root_id as int,
                        y,
                        v as int,
                    ),
            },
    {
        self.idom[v]
    }

    /// The nodes that `v` immediately dominates, its children in the
    /// dominator tree, in increasing order.
    pub fn dominance_frontier(&self, v: usize) -> (r: Vec<usize>)
        requires
            self.wf(),
            v < self.node_count,
            reaches(self.edges@, self.root_id as int, v as int),
        ensures
            forall|w: usize| #[trigger] r@.contains(w) <==> (w < self.node_count && self.idom@[w as int] == Some(v)),
            forall|i: int, j: int| 0 <= i < j < r@.len() ==> r@[i] < r@[j],
    {
        let mut r: Vec<usize> = Vec::new();
        let mut w: usize = 0;
        while w < self.node_count
            invariant
                w <= self.node_count,
                self.idom@.len() == self.node_count,
                forall|x: usize| #[trigger] r@.contains(x) <==> (x < w && self.idom@[x as int] == Some(v)),
                forall|i: int| 0 <= i < r@.len() ==> #[trigger] r@[i] < w,
                forall|i: int, j: int| 0 <= i < j < r@.len() ==> r@[i] < r@[j],
            decreases self.node_count - w,
        {
            let ghost before = r@;
            if self.idom[w] == Some(v) {
                r.push(w);
                proof {
                    assert(r@[r@.len() - 1] == w);
                }
            }
            proof {
                assert forall|x: usize| #[trigger] r@.contains(x) <==> (x < w + 1 && self.idom@[x as int] == Some(v)) by {
                    if r@.contains(x) {
                        let i = choose|i: int| 0 <= i < r@.len() && r@[i] == x;
                        if i < before.len() {
                            assert(before[i] == r@[i]);
                            assert(before.contains(x));
                        }
                    }
                    if x < w && self.idom@[x as int] == Some(v) {
                        assert(before.contains(x));
                        let i = choose|i: int| 0 <= i < before.len() && before[i] == x;
                        assert(r@[i] == before[i]);
                    }
                }
                assert forall|i: int| 0 <= i < r@.len() implies #[trigger] r@[i] < w + 1 by {
                    if i < before.len() {
                        assert(before[i] == r@[i]);
                    }
                }
            }
            w = w + 1;
        }
        r
    }

    /// Whether the immediate dominator of `a` is `b`.
    pub fn immediately_dominates(&self, a: usize, b: usize) -> (r: bool)
        requires
            self.wf(),
            a < self.node_count,
            reaches(self.edges@, self.root_id as int, a as int),
        ensures
            r == (self.idom@[a as int] == Some(b)),
            r <==> (b < self.node_count && is_immediate_dominator(
                self.edges@,
                self.node_count as nat,
                self.root_id as int,
                b as int,
                a as int,
            )),
    {
        let r = match self.immediate_dominator(a) {
            Some(c) => c == b,
            None => false,
        };
        proof {
            if b < self.node_count && is_immediate_dominator(
                self.edges@,
                self.node_count as nat,
                self.root_id as int,
                b as int,
                a as int,
            ) {
                match self.idom@[a as int] {
                    Some(c) => {
                        lemma_immediate_dominator_unique(
                            self.edges@,
                            self.node_count as nat,
                            self.root_id as int,
                            c as int,
                            b as int,
                            a as int,
                        );
                    },
                    None => {
                        assert(!is_immediate_dominator(
                            self.edges@,
                            self.node_count as nat,
                            self.root_id as int,
                            b as int,
                            a as int,
                        ));
                    },
                }
            }
        }
        r
    }
}

/// Among the nodes that dominate `v` and are not `v`, the one that all the
/// others dominate, if there is one.
fn immediate_dominator_among(
    n: usize,
    dominated: &Vec<Vec<bool>>,
    v: usize,
    Ghost(e): Ghost<Seq<(usize, usize)>>,
    root: usize,
) -> (r: Option<usize>)
    requires
        v < n,
        dominated@.len() == n,
        forall|x: int| 0 <= x < n ==> (#[trigger] dominated@[x])@.len() == n,
        forall|x: int, w: int|
            0 <= x < n && 0 <= w < n ==> (#[trigger] dominated@[x]@[w] <==> dominance(e, root as int, x, w)),
    ensures
        match r {
            Some(c) => c < n && is_immediate_dominator(e, n as nat, root as int, c as int, v as int),
            None => forall|y: int| 0 <= y < n ==> !#[trigger] is_immediate_dominator(e, n as nat, root as int, y, v as int),
        },
{
    let mut c: usize = 0;
    while c < n
        invariant
            c <= n,
            v < n,
            dominated@.len() == n,
            forall|x: int| 0 <= x < n ==> (#[trigger] dominated@[x])@.len() == n,
            forall|x: int, w: int|
                0 <= x < n && 0 <= w < n ==> (#[trigger] dominated@[x]@[w] <==> dominance(e, root as int, x, w)),
            forall|y: int| 0 <= y < c ==> !#[trigger] is_immediate_dominator(e, n as nat, root as int, y, v as int),
        decreases n - c,
    {
        if c != v && dominated[c][v] {
            let mut all = true;
            let mut x: usize = 0;
            while x < n
                invariant
                    x <= n,
                    c < n,
                    v < n,
                    dominated@.len() == n,
                    forall|y: int| 0 <= y < n ==> (#[trigger] dominated@[y])@.len() == n,
                    forall|y: int, w: int|
                        0 <= y < n && 0 <= w < n ==> (#[trigger] dominated@[y]@[w] <==> dominance(e, root as int, y, w)),
                    all <==> forall|y: int|
                        0 <= y < x && y != v && #[trigger] dominance(e, root as int, y, v as int) ==> dominance(
                            e,
                            root as int,
                            y,
                            c as int,
                        ),
                decreases n - x,
            {
                if x != v && dominated[x][v] && !dominated[x][c] {
                    all = false;
                }
                x = x + 1;
            }
            if all {
                return Some(c);
            }
        }
        c = c + 1;
    }
    None
}

/// Which node of the original graph a node of the inverted graph stands
/// for: the extra root stands for the graph's exits.
#[derive(Debug, Clone, Copy, PartialEq, Eq, Structural)]
pub enum ImmediatePostDominator {
    Node(usize),
    VirtualRoot,
}

/// `v` has no edge out.
pub open spec fn is_exit(edges: Seq<(usize, usize)>, v: int) -> bool {
    forall|k: int| 0 <= k < edges.len() ==> (#[trigger] edges[k]).0 as int != v
}

/// The edges of the inverted graph: each edge out of a node reached from
/// the root, turned round, and an edge from the extra node `n` to each
/// reached node with no edge out.
pub open spec fn inverted_edge(edges: Seq<(usize, usize)>, n: nat, root: int, a: int, b: int) -> bool {
    ||| (0 <= a < n && 0 <= b < n && reaches(edges, root, b) && has_edge(edges, b, a))
    ||| (a == n && 0 <= b < n && reaches(edges, root, b) && is_exit(edges, b))
}

/// No edge stands twice in the list.
pub open spec fn pairs_distinct(edges: Seq<(usize, usize)>) -> bool {
    forall|i: int, j: int| 0 <= i < j < edges.len() ==> edges[i] != edges[j]
}

/// The graph turned round, for finding post-dominators: node `n` stands
/// for the end of the program.
pub struct InvertedGraph {
    pub virtual_root_id: usize,
    pub node_count: usize,
    pub reverse_edges: Vec<(usize, usize)>,
    /// The nodes of the original graph that stand in the inverted one.
    pub contains: Vec<bool>,
}

impl InvertedGraph {
    pub open spec fn inverts(&self, edges: Seq<(usize, usize)>, n: nat, root: int) -> bool {
        &&& self.node_count == n + 1
        &&& self.virtual_root_id == n
        &&& edges_within(self.reverse_edges@, self.node_count as nat)
        &&& forall|a: int, b: int| #[trigger] has_edge(self.reverse_edges@, a, b) <==> inverted_edge(edges, n, root, a, b)
        &&& self.contains@.len() == n
        &&& forall|v: int| 0 <= v < n ==> (#[trigger] self.contains@[v] <==> reaches(edges, root, v))
        &&& pairs_distinct(self.reverse_edges@)
    }

    /// The graph of `edges` on the nodes `0..node_count` turned round, from
    /// the nodes reached from `root`, with an extra root before its exits.
    pub fn from_graph(node_count: usize, edges: &Vec<(usize, usize)>, root: usize) -> (r: InvertedGraph)
        requires
            root < node_count,
            node_count < usize::MAX,
            edges_within(edges@, node_count as nat),
        ensures
            r.inverts(edges@, node_count as nat, root as int),
    {
        let n = node_count;
        let ghost e = edges@;
        let reached = reach_from(n, edges, root, None);
        let mut rev: Vec<(usize, usize)> = Vec::new();
        let mut k: usize = 0;
        while k < edges.len()
            invariant
                k <= edges@.len(),
                e == edges@,
                root < n,
                n < usize::MAX,
                edges_within(e, n as nat),
                reached@.len() == n,
                forall|w: int| 0 <= w < n ==> (#[trigger] reached@[w] <==> reaches(e, root as int, w)),
                edges_within(rev@, (n + 1) as nat),
                pairs_distinct(rev@),
                forall|q: int| 0 <= q < rev@.len() ==> (#[trigger] rev@[q]).0 < n,
                forall|a: int, b: int|
                    #[trigger] has_edge(rev@, a, b) <==> (0 <= a < n && 0 <= b < n && reaches(e, root as int, b)
                        && exists|q: int| 0 <= q < k && e[q].0 as int == b && e[q].1 as int == a),
            decreases edges@.len() - k,
        {
            let (x, y) = edges[k];
            let ghost before = rev@;
            if reached[x] && !contains_pair(&rev, y, x) {
                rev.push((y, x));
                proof {
                    lemma_has_edge_push(before, (y, x));
                    assert forall|i: int, j: int| 0 <= i < j < rev@.len() implies rev@[i] != rev@[j] by {
                        if j == rev@.len() - 1 {
                            assert(rev@[i] == before[i]);
                            if rev@[i] == rev@[j] {
                                assert(has_edge(before, y as int, x as int));
                            }
                        } else {
                            assert(rev@[i] == before[i] && rev@[j] == before[j]);
                        }
                    }
                    assert forall|q: int| 0 <= q < rev@.len() implies (#[trigger] rev@[q]).0 < n by {
                        if q < before.len() {
                            assert(rev@[q] == before[q]);
                        }
                    }
                }
            }
            proof {
                assert forall|a: int, b: int|
                    #[trigger] has_edge(rev@, a, b) <==> (0 <= a < n && 0 <= b < n && reaches(e, root as int, b)
                        && exists|q: int| 0 <= q < k + 1 && e[q].0 as int == b && e[q].1 as int == a) by {
                    if exists|q: int| 0 <= q < k + 1 && e[q].0 as int == b && e[q].1 as int == a {
                        let q = choose|q: int| 0 <= q < k + 1 && e[q].0 as int == b && e[q].1 as int == a;
                        if q < k {
                            assert(exists|q: int| 0 <= q < k && e[q].0 as int == b && e[q].1 as int == a);
                        }
                    }
                    if has_edge(before, a, b) {
                        assert(has_edge(rev@, a, b)) by {
                            let j = choose|j: int| 0 <= j < before.len() && before[j].0 as int == a && before[j].1 as int == b;
                            assert(rev@[j] == before[j]);
                        }
                    }
                }
                assert forall|q: int| 0 <= q < rev@.len() implies (#[trigger] rev@[q]).0 < n + 1 && rev@[q].1 < n + 1 by {
                    if q < before.len() {
                        assert(rev@[q] == before[q]);
                    }
                }
            }
            k = k + 1;
        }
        let mut v: usize = 0;
        while v < n
            invariant
                v <= n,
                e == edges@,
                root < n,
                n < usize::MAX,
                edges_within(e, n as nat),
                reached@.len() == n,
                forall|w: int| 0 <= w < n ==> (#[trigger] reached@[w] <==> reaches(e, root as int, w)),
                edges_within(rev@, (n + 1) as nat),
                pairs_distinct(rev@),
                forall|q: int| 0 <= q < rev@.len() && (#[trigger] rev@[q]).0 == n ==> rev@[q].1 < v,
                forall|a: int, b: int|
                    #[trigger] has_edge(rev@, a, b) <==> ((0 <= a < n && 0 <= b < n && reaches(e, root as int, b)
                        && has_edge(e, b, a)) || (a == n && 0 <= b < v && reaches(e, root as int, b) && is_exit(e, b))),
            decreases n - v,
        {
            let ghost before = rev@;
            if reached[v] && !has_out_edge(edges, v) {
                rev.push((n, v));
                proof {
                    lemma_has_edge_push(before, (n, v));
                    assert forall|i: int, j: int| 0 <= i < j < rev@.len() implies rev@[i] != rev@[j] by {
                        assert(rev@[i] == before[i]);
                        if j < rev@.len() - 1 {
                            assert(rev@[j] == before[j]);
                        }
                    }
                }
                assert forall|q: int| 0 <= q < rev@.len() && (#[trigger] rev@[q]).0 == n implies rev@[q].1 < v + 1 by {
                    if q < before.len() {
                        assert(rev@[q] == before[q]);
                    }
                }
            }
            proof {
                assert forall|a: int, b: int|
                    #[trigger] has_edge(rev@, a, b) <==> ((0 <= a < n && 0 <= b < n && reaches(e, root as int, b)
                        && has_edge(e, b, a)) || (a == n && 0 <= b < v + 1 && reaches(e, root as int, b) && is_exit(e, b))) by {
                    if has_edge(before, a, b) {
                        assert(has_edge(rev@, a, b)) by {
                            let j = choose|j: int| 0 <= j < before.len() && before[j].0 as int == a && before[j].1 as int == b;
                            assert(rev@[j] == before[j]);
                        }
                    }
                }
                assert forall|q: int| 0 <= q < rev@.len() implies (#[trigger] rev@[q]).0 < n + 1 && rev@[q].1 < n + 1 by {
                    if q < before.len() {
                        assert(rev@[q] == before[q]);
                    }
                }
            }
            v = v + 1;
        }
        InvertedGraph { virtual_root_id: n, node_count: n + 1, reverse_edges: rev, contains: reached }
    }
}

proof fn lemma_has_edge_push(s: Seq<(usize, usize)>, p: (usize, usize))
    ensures
        forall|a: int, b: int|
            #[trigger] has_edge(s.push(p), a, b) <==> (has_edge(s, a, b) || (p.0 as int == a && p.1 as int == b)),
{
    let t = s.push(p);
    assert forall|a: int, b: int| #[trigger] has_edge(t, a, b) <==> (has_edge(s, a, b) || (p.0 as int == a && p.1 as int == b)) by {
        if has_edge(t, a, b) {
            let j = choose|j: int| 0 <= j < t.len() && t[j].0 as int == a && t[j].1 as int == b;
            if j < s.len() {
                assert(s[j] == t[j]);
            }
        }
        if has_edge(s, a, b) {
            let j = choose|j: int| 0 <= j < s.len() && s[j].0 as int == a && s[j].1 as int == b;
            assert(t[j] == s[j]);
        }
        if p.0 as int == a && p.1 as int == b {
            assert(t[s.len() as int] == p);
        }
    }
}

/// Whether some edge leaves `v`.
fn has_out_edge(edges: &Vec<(usize, usize)>, v: usize) -> (r: bool)
    ensures
        r == !is_exit(edges@, v as int),
{
    let mut k: usize = 0;
    while k < edges.len()
        invariant
            k <= edges@.len(),
            forall|q: int| 0 <= q < k ==> (#[trigger] edges@[q]).0 != v,
        decreases edges@.len() - k,
    {
        if edges[k].0 == v {
            return true;
        }
        k = k + 1;
    }
    false
}

/// The dominators and post-dominators of a graph.
pub struct DominationAnalysis {
    pub dominator_tree: DominatorTree,
    pub reverse_cfg: InvertedGraph,
    pub post_dominator_tree: DominatorTree,
}

impl DominationAnalysis {
    pub open spec fn wf(&self) -> bool {
        &&& self.dominator_tree.wf()
        &&& self.post_dominator_tree.wf()
        &&& self.reverse_cfg.inverts(
            self.dominator_tree.edges@,
            self.dominator_tree.node_count as nat,
            self.dominator_tree.root_id as int,
        )
        &&& self.post_dominator_tree.edges@ == self.reverse_cfg.reverse_edges@
        &&& self.post_dominator_tree.node_count == self.reverse_cfg.node_count
        &&& self.post_dominator_tree.root_id == self.reverse_cfg.virtual_root_id
    }

    pub open spec fn graph_edges(&self) -> Seq<(usize, usize)> {
        self.dominator_tree.edges@
    }

    pub open spec fn graph_root(&self) -> int {
        self.dominator_tree.root_id as int
    }

    pub open spec fn graph_size(&self) -> nat {
        self.dominator_tree.node_count as nat
    }

    /// `v` is a node of the graph reached from its root.
    pub open spec fn reached(&self, v: int) -> bool {
        0 <= v < self.graph_size() && reaches(self.graph_edges(), self.graph_root(), v)
    }

    /// `a` post-dominates `b`: every walk from `b` to the end of the program
    /// passes through `a`.
    pub open spec fn post_dominance(&self, a: int, b: int) -> bool {
        dominance(self.reverse_cfg.reverse_edges@, self.graph_size() as int, a, b)
    }

    /// The dominators and the post-dominators of the nodes `0..node_count`
    /// of the graph of `edges`, from `root`.
    pub fn from_graph(node_count: usize, edges: &Vec<(usize, usize)>, root: usize) -> (r: DominationAnalysis)
        requires
            root < node_count,
            node_count < usize::MAX,
            edges_within(edges@, node_count as nat),
        ensures
            r.wf(),
            r.graph_edges() == edges@,
            r.graph_root() == root,
            r.graph_size() == node_count,
    {
        let dominator_tree = DominatorTree::from_graph(node_count, edges, root);
        let reverse_cfg = InvertedGraph::from_graph(node_count, edges, root);
        let post_dominator_tree = DominatorTree::from_graph(
            reverse_cfg.node_count,
            &reverse_cfg.reverse_edges,
            reverse_cfg.virtual_root_id,
        );
        DominationAnalysis { dominator_tree, reverse_cfg, post_dominator_tree }
    }

    /// Whether `a` dominates `b`.
    pub fn dominates(&self, a: usize, b: usize) -> (r: bool)
        requires
            self.wf(),
        ensures
            r == (a < self.graph_size() && b < self.graph_size() && dominance(self.graph_edges(), self.graph_root(), a as int, b as int)),
    {
        self.dominator_tree.dominates(a, b)
    }

    /// Whether the immediate dominator of `a` is `b`.
    pub fn immediately_dominates(&self, a: usize, b: usize) -> (r: bool)
        requires
            self.wf(),
            self.reached(a as int),
        ensures
            r == (self.dominator_tree.idom@[a as int] == Some(b)),
            r <==> (b < self.graph_size() && is_immediate_dominator(
                self.graph_edges(),
                self.graph_size(),
                self.graph_root(),
                b as int,
                a as int,
            )),
    {
        self.dominator_tree.immediately_dominates(a, b)
    }

    /// The immediate dominator of a node reached from the root.
    pub fn immediate_dominator(&self, v: usize) -> (r: Option<usize>)
        requires
            self.wf(),
            self.reached(v as int),
        ensures
            match r {
                Some(c) => c < self.graph_size() && is_immediate_dominator(
                    self.graph_edges(),
                    self.graph_size(),
                    self.graph_root(),
                    c as int,
                    v as int,
                ),
                None => forall|y: int|
                    0 <= y < self.graph_size() ==> !#[trigger] is_immediate_dominator(
                        self.graph_edges(),
                        self.graph_size(),
                        self.graph_root(),
                        y,
                        v as int,
                    ),
            },
    {
        self.dominator_tree.immediate_dominator(v)
    }

    /// The nodes that a node reached from the root immediately dominates,
    /// in increasing order.
    pub fn dominance_frontier(&self, v: usize) -> (r: Vec<usize>)
        requires
            self.wf(),
            self.reached(v as int),
        ensures
            forall|w: usize| #[trigger] r@.contains(w) <==> (w < self.graph_size() && self.dominator_tree.idom@[w as int] == Some(v)),
            forall|i: int, j: int| 0 <= i < j < r@.len() ==> r@[i] < r@[j],
    {
        self.dominator_tree.dominance_frontier(v)
    }

    /// The nodes of the graph that a node immediately post-dominates, in
    /// increasing order; none for a node not reached from the root.
    pub fn post_dominance_frontier(&self, v: usize) -> (r: Vec<usize>)
        requires
            self.wf(),
            self.reached(v as int) ==> reaches(
                self.reverse_cfg.reverse_edges@,
                self.graph_size() as int,
                v as int,
            ),
        ensures
            forall|w: usize| #[trigger] r@.contains(w) <==> (self.reached(v as int) && w < self.graph_size()
                && self.post_dominator_tree.idom@[w as int] == Some(v)),
            forall|i: int, j: int| 0 <= i < j < r@.len() ==> r@[i] < r@[j],
    {
        if v < self.reverse_cfg.contains.len() && self.reverse_cfg.contains[v] {
            let children = self.post_dominator_tree.dominance_frontier(v);
            let ghost vr = self.reverse_cfg.virtual_root_id;
            let mut r: Vec<usize> = Vec::new();
            let mut k: usize = 0;
            while k < children.len()
                invariant
                    k <= children@.len(),
                    vr == self.reverse_cfg.virtual_root_id,
                    forall|w: usize| #[trigger] r@.contains(w) <==> (w < vr && exists|j: int| 0 <= j < k && #[trigger] children@[j] == w),
                    forall|i: int, j: int| 0 <= i < j < children@.len() ==> children@[i] < children@[j],
                    forall|i: int| #![trigger r@[i]] 0 <= i < r@.len() ==> exists|j: int| 0 <= j < k && #[trigger] children@[j] == r@[i],
                    forall|i: int, j: int| 0 <= i < j < r@.len() ==> r@[i] < r@[j],
                decreases children@.len() - k,
            {
                let ghost before = r@;
                let c = children[k];
                if c < self.reverse_cfg.virtual_root_id {
                    r.push(c);
                }
                proof {
                    assert forall|w: usize| #[trigger] r@.contains(w) <==> (w < vr && exists|j: int| 0 <= j < k + 1 && #[trigger] children@[j] == w) by {
                        if r@.contains(w) {
                            let i = choose|i: int| 0 <= i < r@.len() && r@[i] == w;
                            if i < before.len() {
                                assert(before[i] == r@[i]);
                                assert(before.contains(w));
                            } else {
                                assert(children@[k as int] == w);
                            }
                        }
                        if w < vr && exists|j: int| 0 <= j < k + 1 && #[trigger] children@[j] == w {
                            let j = choose|j: int| 0 <= j < k + 1 && #[trigger] children@[j] == w;
                            if j < k {
                                assert(before.contains(w));
                                let i = choose|i: int| 0 <= i < before.len() && before[i] == w;
                                assert(r@[i] == before[i]);
                            } else {
                                assert(r@[r@.len() - 1] == w);
                            }
                        }
                    }
                    assert forall|i: int| #![trigger r@[i]] 0 <= i < r@.len() implies exists|j: int| 0 <= j < k + 1 && #[trigger] children@[j] == r@[i] by {
                        if i < before.len() {
                            assert(before[i] == r@[i]);
                            let j = choose|j: int| 0 <= j < k && #[trigger] children@[j] == before[i];
                            assert(children@[j] == r@[i]);
                        } else {
                            assert(children@[k as int] == r@[i]);
                        }
                    }
                    assert forall|i: int, j: int| 0 <= i < j < r@.len() implies r@[i] < r@[j] by {
                        if j >= before.len() {
                            assert(before[i] == r@[i]);
                            let q = choose|q: int| 0 <= q < k && #[trigger] children@[q] == before[i];
                            assert(children@[q] < children@[k as int]);
                        } else {
                            assert(before[i] == r@[i] && before[j] == r@[j]);
                        }
                    }
                }
                k = k + 1;
            }
            proof {
                assert forall|w: usize| #[trigger] r@.contains(w) <==> (self.reached(v as int) && w < self.graph_size()
                    && self.post_dominator_tree.idom@[w as int] == Some(v)) by {
                    assert(self.reached(v as int));
                    assert(vr == self.graph_size());
                    if r@.contains(w) {
                        let j = choose|j: int| 0 <= j < k && #[trigger] children@[j] == w;
                        assert(children@.contains(w));
                    }
                    if w < vr && self.post_dominator_tree.idom@[w as int] == Some(v) {
                        assert(children@.contains(w));
                        let j = choose|j: int| 0 <= j < children@.len() && children@[j] == w;
                        assert(children@[j] == w);
                    }
                }
            }
            r
        } else {
            Vec::new()
        }
    }

    /// Whether `a` post-dominates `b`; false for a node not reached from
    /// the root.
    pub fn post_dominates(&self, a: usize, b: usize) -> (r: bool)
        requires
            self.wf(),
        ensures
            r == (self.reached(a as int) && self.reached(b as int) && self.post_dominance(a as int, b as int)),
    {
        if a < self.reverse_cfg.contains.len() && b < self.reverse_cfg.contains.len() && self.reverse_cfg.contains[a]
            && self.reverse_cfg.contains[b] {
            self.post_dominator_tree.dominates(a, b)
        } else {
            false
        }
    }

    /// Whether the immediate post-dominator of `a` is `b`; false for a node
    /// not reached from the root.
    pub fn immediately_post_dominates(&self, a: usize, b: usize) -> (r: bool)
        requires
            self.wf(),
            self.reached(a as int) ==> reaches(
                self.reverse_cfg.reverse_edges@,
                self.graph_size() as int,
                a as int,
            ),
        ensures
            r == (self.reached(a as int) && self.reached(b as int) && self.post_dominator_tree.idom@[a as int] == Some(b)),
            r <==> (self.reached(a as int) && self.reached(b as int) && is_immediate_dominator(
                self.reverse_cfg.reverse_edges@,
                self.graph_size() + 1,
                self.graph_size() as int,
                b as int,
                a as int,
            )),
    {
        if a < self.reverse_cfg.contains.len() && b < self.reverse_cfg.contains.len() && self.reverse_cfg.contains[a]
            && self.reverse_cfg.contains[b] {
            self.post_dominator_tree.immediately_dominates(a, b)
        } else {
            false
        }
    }

    /// The immediate post-dominator of a node reached from the root: a node,
    /// or the end of the program.
    pub fn immediate_post_dominator(&self, v: usize) -> (r: Option<ImmediatePostDominator>)
        requires
            self.wf(),
            self.reached(v as int) ==> reaches(
                self.reverse_cfg.reverse_edges@,
                self.graph_size() as int,
                v as int,
            ),
        ensures
            match r {
                Some(ImmediatePostDominator::Node(c)) => self.reached(v as int) && c < self.graph_size()
                    && is_immediate_dominator(
                    self.reverse_cfg.reverse_edges@,
                    self.graph_size() + 1,
                    self.graph_size() as int,
                    c as int,
                    v as int,
                ),
                Some(ImmediatePostDominator::VirtualRoot) => self.reached(v as int) && is_immediate_dominator(
                    self.reverse_cfg.reverse_edges@,
                    self.graph_size() + 1,
                    self.graph_size() as int,
                    self.graph_size() as int,
                    v as int,
                ),
                None => !self.reached(v as int) || forall|y: int|
                    0 <= y <= self.graph_size() ==> !#[trigger] is_immediate_dominator(
                        self.reverse_cfg.reverse_edges@,
                        self.graph_size() + 1,
                        self.graph_size() as int,
                        y,
                        v as int,
                    ),
            },
    {
        if v < self.reverse_cfg.contains.len() && self.reverse_cfg.contains[v] {
            match self.post_dominator_tree.immediate_dominator(v) {
                Some(c) => {
                    if c == self.reverse_cfg.virtual_root_id {
                        Some(ImmediatePostDominator::VirtualRoot)
                    } else {
                        Some(ImmediatePostDominator::Node(c))
                    }
                },
                None => None,
            }
        } else {
            None
        }
    }
}

fn copy_pairs(edges: &Vec<(usize, usize)>) -> (r: Vec<(usize, usize)>)
    ensures
        r@ == edges@,
{
    let mut r: Vec<(usize, usize)> = Vec::new();
    let mut k: usize = 0;
    while k < edges.len()
        invariant
            k <= edges@.len(),
            r@ == edges@.take(k as int),
        decreases edges@.len() - k,
    {
        r.push(edges[k]);
        k = k + 1;
        proof {
            assert(r@ =~= edges@.take(k as int));
        }
    }
    assert(edges@.take(k as int) =~= edges@);
    r
}

/// Whether the list holds the edge `a -> b`.
fn contains_pair(edges: &Vec<(usize, usize)>, a: usize, b: usize) -> (r: bool)
    ensures
        r == has_edge(edges@, a as int, b as int),
{
    let mut k: usize = 0;
    while k < edges.len()
        invariant
            k <= edges@.len(),
            forall|q: int| 0 <= q < k ==> !(edges@[q].0 == a && edges@[q].1 == b),
        decreases edges@.len() - k,
    {
        if edges[k].0 == a && edges[k].1 == b {
            return true;
        }
        k = k + 1;
    }
    false
}

/// The successors of `x` that a depth-first walk puts on its stack: those
/// not visited yet, the edge added last first.
pub open spec fn dfs_pushes(edges: Seq<(usize, usize)>, x: usize, visited: Seq<bool>) -> Seq<usize>
    decreases edges.len(),
{
    if edges.len() == 0 {
        Seq::empty()
    } else {
        (if edges.last().0 == x && edges.last().1 < visited.len() && !visited[edges.last().1 as int] {
            seq![edges.last().1]
        } else {
            Seq::empty()
        }) + dfs_pushes(edges.drop_last(), x, visited)
    }
}

/// A depth-first walk from a stack: the node on top, if not visited yet, is
/// visited and its unvisited successors go on the stack (the edge added
/// last lowest); `order` is the order of visits.
pub open spec fn dfs_from(edges: Seq<(usize, usize)>, stack: Seq<usize>, visited: Seq<bool>, order: Seq<usize>) -> Seq<
    usize,
>
    decreases count_false(visited), stack.len(),
{
    if stack.len() == 0 {
        order
    } else {
        let x = stack.last();
        let rest = stack.drop_last();
        if x >= visited.len() || visited[x as int] {
            dfs_from(edges, rest, visited, order)
        } else {
            let v2 = visited.update(x as int, true);
            proof {
                lemma_count_false_set(visited, x as int);
            }
            dfs_from(edges, rest + dfs_pushes(edges, x, v2), v2, order.push(x))
        }
    }
}

/// The nodes a depth-first walk from `root` visits, in the order it visits
/// them.
pub open spec fn dfs_order(edges: Seq<(usize, usize)>, n: nat, root: usize) -> Seq<usize> {
    dfs_from(edges, seq![root], Seq::new(n, |i: int| false), Seq::empty())
}

proof fn lemma_dfs_from_bound(edges: Seq<(usize, usize)>, stack: Seq<usize>, visited: Seq<bool>, order: Seq<usize>)
    requires
        forall|j: int| 0 <= j < order.len() ==> #[trigger] order[j] < visited.len(),
    ensures
        forall|j: int| 0 <= j < dfs_from(edges, stack, visited, order).len() ==> #[trigger] dfs_from(
            edges,
            stack,
            visited,
            order,
        )[j] < visited.len(),
    decreases count_false(visited), stack.len(),
{
    if stack.len() > 0 {
        let x = stack.last();
        let rest = stack.drop_last();
        if x >= visited.len() || visited[x as int] {
            lemma_dfs_from_bound(edges, rest, visited, order);
            assert(dfs_from(edges, stack, visited, order) == dfs_from(edges, rest, visited, order));
        } else {
            let v2 = visited.update(x as int, true);
            lemma_count_false_set(visited, x as int);
            assert(dfs_from(edges, stack, visited, order) == dfs_from(
                edges,
                rest + dfs_pushes(edges, x, v2),
                v2,
                order.push(x),
            ));
            assert(v2.len() == visited.len());
            assert forall|j: int| 0 <= j < order.push(x).len() implies #[trigger] order.push(x)[j] < v2.len() by {
                if j < order.len() {
                    assert(order.push(x)[j] == order[j]);
                }
            }
            lemma_dfs_from_bound(edges, rest + dfs_pushes(edges, x, v2), v2, order.push(x));
        }
    }
}

/// Every node a depth-first walk visits is one of the `n` nodes.
pub proof fn lemma_dfs_order_bound(edges: Seq<(usize, usize)>, n: nat, root: usize)
    ensures
        forall|j: int| 0 <= j < dfs_order(edges, n, root).len() ==> #[trigger] dfs_order(edges, n, root)[j] < n,
{
    lemma_dfs_from_bound(edges, seq![root], Seq::new(n, |i: int| false), Seq::empty());
}

/// The nodes a depth-first walk from `root` visits, in order: the
/// successors of a node are taken the edge added first first.
pub fn dfs_preorder(n: usize, edges: &Vec<(usize, usize)>, root: usize) -> (r: Vec<usize>)
    requires
        root < n,
    ensures
        r@ == dfs_order(edges@, n as nat, root),
{
    let mut visited: Vec<bool> = Vec::new();
    let mut i: usize = 0;
    while i < n
        invariant
            i <= n,
            visited@ == Seq::new(i as nat, |j: int| false),
        decreases n - i,
    {
        visited.push(false);
        i = i + 1;
        assert(visited@ =~= Seq::new(i as nat, |j: int| false));
    }
    let mut stack: Vec<usize> = Vec::new();
    stack.push(root);
    let mut order: Vec<usize> = Vec::new();
    let ghost target = dfs_order(edges@, n as nat, root);
    proof {
        assert(stack@ =~= seq![root]);
        assert(order@ =~= Seq::<usize>::empty());
    }
    while stack.len() > 0
        invariant
            visited@.len() == n,
            dfs_from(edges@, stack@, visited@, order@) == target,
        decreases count_false(visited@), stack@.len(),
    {
        let x = stack.pop().unwrap();
        let ghost rest = stack@;
        if x >= visited.len() || visited[x] {
            continue;
        }
        proof {
            lemma_count_false_set(visited@, x as int);
        }
        visited.set(x, true);
        order.push(x);
        let ghost v2 = visited@;
        let mut k: usize = edges.len();
        proof {
            assert(edges@.take(k as int) =~= edges@);
            assert(rest + dfs_pushes(edges@, x, v2) =~= stack@ + dfs_pushes(edges@.take(k as int), x, v2));
        }
        while k > 0
            invariant
                k <= edges@.len(),
                visited@ == v2,
                visited@.len() == n,
                rest + dfs_pushes(edges@, x, v2) == stack@ + dfs_pushes(edges@.take(k as int), x, v2),
            decreases k,
        {
            let (a, b) = edges[k - 1];
            proof {
                assert(edges@.take(k as int).drop_last() =~= edges@.take(k - 1));
                assert(edges@.take(k as int).last() == (a, b));
            }
            let ghost before = stack@;
            if a == x && b < visited.len() && !visited[b] {
                stack.push(b);
                proof {
                    assert(before + dfs_pushes(edges@.take(k as int), x, v2) =~= stack@ + dfs_pushes(edges@.take(k - 1), x, v2));
                }
            } else {
                proof {
                    assert(before + dfs_pushes(edges@.take(k as int), x, v2) =~= stack@ + dfs_pushes(edges@.take(k - 1), x, v2));
                }
            }
            k = k - 1;
        }
        proof {
            assert(edges@.take(0) =~= Seq::<(usize, usize)>::empty());
            assert(stack@ =~= stack@ + dfs_pushes(edges@.take(0), x, v2));
        }
    }
    order
}

} // verus!
