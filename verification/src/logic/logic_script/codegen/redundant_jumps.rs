use vstd::prelude::*;

use crate::logic::analysis::dominator_tree::{
    dfs_order, dfs_preorder, dominance, edges_within, lemma_dfs_order_bound, DominationAnalysis,
};
use crate::logic::analysis::optimization::OptimizationResult;
use crate::logic::logic_script::codegen::statement_graph::{
    edges_int, last_out_edge, lemma_last_out_edge_bound, LogicScriptStatementGraph, LogicScriptStatementGraphEdge,
};

verus! {

pub type StatementEdge = (usize, usize, LogicScriptStatementGraphEdge);

/// Source and target of each edge.
pub open spec fn edge_pairs(edges: Seq<StatementEdge>) -> Seq<(usize, usize)> {
    edges.map_values(|e: StatementEdge| (e.0, e.1))
}

/// The edges into `node`, the one added last first: source and kind.
pub open spec fn incoming_of(edges: Seq<StatementEdge>, node: usize) -> Seq<(usize, LogicScriptStatementGraphEdge)>
    decreases edges.len(),
{
    if edges.len() == 0 {
        Seq::empty()
    } else {
        let rest = incoming_of(edges.drop_last(), node);
        if edges.last().1 == node {
            seq![(edges.last().0, edges.last().2)] + rest
        } else {
            rest
        }
    }
}

/// Some edge leads from `a` to `b`.
pub open spec fn has_edge(edges: Seq<StatementEdge>, a: usize, b: usize) -> bool
    decreases edges.len(),
{
    edges.len() > 0 && ((edges.last().0 == a && edges.last().1 == b) || has_edge(edges.drop_last(), a, b))
}

/// Each edge into the jump, in turn, gets an edge of its kind from its
/// source to `target`, unless one from that source to `target` is there.
pub open spec fn jumps_led_on(edges: Seq<StatementEdge>, preds: Seq<(usize, LogicScriptStatementGraphEdge)>, target: usize) -> Seq<
    StatementEdge,
>
    decreases preds.len(),
{
    if preds.len() == 0 {
        edges
    } else {
        let e1 = if has_edge(edges, preds[0].0, target) {
            edges
        } else {
            edges.push((preds[0].0, target, preds[0].1))
        };
        jumps_led_on(e1, preds.drop_first(), target)
    }
}

/// The edges that neither start nor end at `node`, in order.
pub open spec fn without_node(edges: Seq<StatementEdge>, node: usize) -> Seq<StatementEdge>
    decreases edges.len(),
{
    if edges.len() == 0 {
        Seq::empty()
    } else {
        let rest = without_node(edges.drop_last(), node);
        if edges.last().0 == node || edges.last().1 == node {
            rest
        } else {
            rest.push(edges.last())
        }
    }
}

/// The edges after the pass on `node`: a `goto` whose target does not
/// dominate any statement before it, and post-dominates each of them, is
/// taken out; the statements before it lead to its target instead.
pub open spec fn redundant_jump_edges(edges: Seq<StatementEdge>, node: usize, d: DominationAnalysis) -> Option<Seq<StatementEdge>> {
    match last_out_edge(edges_int(edges), node as int, LogicScriptStatementGraphEdge::GotoTarget) {
        None => None,
        Some(t) => {
            let preds = incoming_of(edges, node);
            let back = exists|k: int|
                0 <= k < preds.len() && t < d.graph_size() && #[trigger] preds[k].0 < d.graph_size() && dominance(
                    d.graph_edges(),
                    d.graph_root(),
                    t,
                    preds[k].0 as int,
                );
            let all_post = forall|k: int|
                0 <= k < preds.len() ==> d.reached(t) && d.reached(#[trigger] preds[k].0 as int) && d.post_dominance(
                    t,
                    preds[k].0 as int,
                );
            if !back && all_post {
                Some(without_node(jumps_led_on(edges, preds, t as usize), node))
            } else {
                None
            }
        },
    }
}

/// The pass over the nodes in `order`: the edges after it, and whether any
/// jump was taken out.
pub open spec fn jumps_pass(edges: Seq<StatementEdge>, order: Seq<usize>, d: DominationAnalysis) -> (Seq<StatementEdge>, bool)
    decreases order.len(),
{
    if order.len() == 0 {
        (edges, false)
    } else {
        let before = jumps_pass(edges, order.drop_last(), d);
        match redundant_jump_edges(before.0, order.last(), d) {
            Some(e) => (e, true),
            None => before,
        }
    }
}

/// The pass that takes out jumps to where execution goes anyway, with the
/// dominators of the graph as it was when the pass began.
pub struct RemoveRedundantJumpsPass {
    pub domination_analysis: DominationAnalysis,
}

pub(crate) fn edge_pairs_of(edges: &Vec<StatementEdge>) -> (r: Vec<(usize, usize)>)
    ensures
        r@ == edge_pairs(edges@),
{
    let mut r: Vec<(usize, usize)> = Vec::new();
    let mut i: usize = 0;
    while i < edges.len()
        invariant
            i <= edges@.len(),
            r@ == edge_pairs(edges@.take(i as int)),
        decreases edges@.len() - i,
    {
        let e = edges[i];
        r.push((e.0, e.1));
        proof {
            assert(edge_pairs(edges@.take(i + 1)) =~= edge_pairs(edges@.take(i as int)).push((e.0, e.1)));
        }
        i = i + 1;
    }
    proof {
        assert(edges@.take(edges@.len() as int) =~= edges@);
    }
    r
}

fn has_edge_in(edges: &Vec<StatementEdge>, a: usize, b: usize) -> (r: bool)
    ensures
        r == has_edge(edges@, a, b),
{
    let mut k: usize = edges.len();
    proof {
        assert(edges@.take(k as int) =~= edges@);
    }
    while k > 0
        invariant
            k <= edges@.len(),
            has_edge(edges@, a, b) == has_edge(edges@.take(k as int), a, b),
        decreases k,
    {
        let e = edges[k - 1];
        proof {
            assert(edges@.take(k as int).drop_last() =~= edges@.take(k - 1));
        }
        if e.0 == a && e.1 == b {
            return true;
        }
        k = k - 1;
    }
    false
}

impl RemoveRedundantJumpsPass {
    /// The pass for the graph as it stands, from `root`.
    pub fn new(graph: &LogicScriptStatementGraph, root: usize) -> (r: RemoveRedundantJumpsPass)
        requires
            graph.wf(),
            root < graph.nodes@.len(),
            graph.nodes@.len() < usize::MAX,
        ensures
            r.domination_analysis.wf(),
            r.domination_analysis.graph_edges() == edge_pairs(graph.edges@),
            r.domination_analysis.graph_root() == root,
            r.domination_analysis.graph_size() == graph.nodes@.len(),
    {
        let pairs = edge_pairs_of(&graph.edges);
        proof {
            assert forall|k: int| 0 <= k < pairs@.len() implies (#[trigger] pairs@[k]).0 < graph.nodes@.len()
                && pairs@[k].1 < graph.nodes@.len() by {
                assert(pairs@[k] == (graph.edges@[k].0, graph.edges@[k].1));
            }
            assert(edges_within(pairs@, graph.nodes@.len() as nat));
        }
        RemoveRedundantJumpsPass { domination_analysis: DominationAnalysis::from_graph(graph.nodes.len(), &pairs, root) }
    }

    /// Takes out the `goto` at `node` where it is redundant: its target
    /// dominates none of the statements before it and post-dominates each;
    /// those statements then lead to the target (an edge of the same kind,
    /// where none from them to it is there), and the `goto` loses its edges.
    pub fn visit(&self, graph: &mut LogicScriptStatementGraph, node: usize) -> (r: OptimizationResult)
        requires
            self.domination_analysis.wf(),
            old(graph).wf(),
            node < old(graph).nodes@.len(),
        ensures
            final(graph).wf(),
            final(graph).nodes@ == old(graph).nodes@,
            match redundant_jump_edges(old(graph).edges@, node, self.domination_analysis) {
                Some(e) => r == OptimizationResult::Changed && final(graph).edges@ == e,
                None => r == OptimizationResult::Unchanged && final(graph).edges@ == old(graph).edges@,
            },
    {
        let ghost e0 = graph.edges@;
        let ghost n = graph.nodes@.len();
        let node_count = graph.nodes.len();
        let found = graph.neighbor_of_type(node, LogicScriptStatementGraphEdge::GotoTarget);
        let target = match found {
            Some(t) => t,
            None => {
                return OptimizationResult::Unchanged;
            },
        };
        proof {
            let ev = edges_int(e0);
            assert forall|k: int| 0 <= k < ev.len() implies 0 <= (#[trigger] ev[k]).1 < n by {
                assert(ev[k] == (e0[k].0 as int, e0[k].1 as int, e0[k].2));
            }
            lemma_last_out_edge_bound(ev, node as int, LogicScriptStatementGraphEdge::GotoTarget, n as int);
            assert(found == Some(target));
            let t = last_out_edge(ev, node as int, LogicScriptStatementGraphEdge::GotoTarget)->Some_0;
            assert(0 <= t < node_count);
            assert(t as usize == target);
            assert(last_out_edge(ev, node as int, LogicScriptStatementGraphEdge::GotoTarget) == Some(target as int));
        }
        // The edges into the jump, the one added last first.
        let mut preds: Vec<(usize, LogicScriptStatementGraphEdge)> = Vec::new();
        let mut k: usize = graph.edges.len();
        proof {
            assert(e0.take(k as int) =~= e0);
            assert(preds@ =~= Seq::<(usize, LogicScriptStatementGraphEdge)>::empty());
        }
        while k > 0
            invariant
                k <= e0.len(),
                graph.edges@ == e0,
                graph.wf(),
                graph.nodes@.len() == n,
                graph.nodes@ == old(graph).nodes@,
                incoming_of(e0, node) == preds@ + incoming_of(e0.take(k as int), node),
                forall|j: int| 0 <= j < preds@.len() ==> #[trigger] preds@[j].0 < n,
            decreases k,
        {
            let e = graph.edges[k - 1];
            proof {
                assert(e0.take(k as int).drop_last() =~= e0.take(k - 1));
                assert(e0.take(k as int).last() == e);
            }
            if e.1 == node {
                preds.push((e.0, e.2));
                proof {
                    assert(incoming_of(e0.take(k as int), node) == seq![(e.0, e.2)] + incoming_of(e0.take(k - 1), node));
                }
            }
            proof {
                assert(incoming_of(e0, node) =~= preds@ + incoming_of(e0.take(k - 1), node));
            }
            k = k - 1;
        }
        proof {
            assert(e0.take(0) =~= Seq::<StatementEdge>::empty());
            assert(preds@ =~= incoming_of(e0, node));
        }
        let d = &self.domination_analysis;
        let mut back = false;
        let mut all_post = true;
        let mut i: usize = 0;
        while i < preds.len()
            invariant
                i <= preds@.len(),
                d.wf(),
                back == exists|j: int|
                    0 <= j < i && target < d.graph_size() && #[trigger] preds@[j].0 < d.graph_size() && dominance(
                        d.graph_edges(),
                        d.graph_root(),
                        target as int,
                        preds@[j].0 as int,
                    ),
                all_post == forall|j: int|
                    0 <= j < i ==> d.reached(target as int) && d.reached(#[trigger] preds@[j].0 as int)
                        && d.post_dominance(target as int, preds@[j].0 as int),
            decreases preds@.len() - i,
        {
            let p = preds[i].0;
            if d.dominates(target, p) {
                back = true;
            }
            if !d.post_dominates(target, p) {
                all_post = false;
            }
            i = i + 1;
        }
        if back || !all_post {
            return OptimizationResult::Unchanged;
        }
        // Lead each statement before the jump to its target.
        let ghost preds_all = preds@;
        let mut j: usize = 0;
        proof {
            assert(preds_all.skip(0) =~= preds_all);
        }
        while j < preds.len()
            invariant
                j <= preds@.len(),
                preds@ == preds_all,
                forall|q: int| 0 <= q < preds@.len() ==> #[trigger] preds@[q].0 < n,
                target < n,
                graph.wf(),
                graph.nodes@.len() == n,
                graph.nodes@ == old(graph).nodes@,
                jumps_led_on(e0, preds_all, target) == jumps_led_on(graph.edges@, preds_all.skip(j as int), target),
            decreases preds@.len() - j,
        {
            let (source, kind) = preds[j];
            let ghost before = graph.edges@;
            proof {
                assert(preds_all.skip(j as int)[0] == (source, kind));
                assert(preds_all.skip(j as int).drop_first() =~= preds_all.skip(j + 1));
            }
            if !has_edge_in(&graph.edges, source, target) {
                graph.edges.push((source, target, kind));
                proof {
                    assert forall|e: int| 0 <= e < graph.edges@.len() implies #[trigger] graph.edges@[e].0 < graph.nodes@.len()
                        && graph.edges@[e].1 < graph.nodes@.len() by {
                        if e < before.len() {
                            assert(graph.edges@[e] == before[e]);
                        }
                    }
                }
            }
            j = j + 1;
        }
        proof {
            assert(preds_all.skip(preds_all.len() as int) =~= Seq::<(usize, LogicScriptStatementGraphEdge)>::empty());
        }
        // The jump loses its edges.
        let ghost led = graph.edges@;
        let mut kept: Vec<StatementEdge> = Vec::new();
        let mut m: usize = 0;
        proof {
            assert(led.take(0) =~= Seq::<StatementEdge>::empty());
        }
        while m < graph.edges.len()
            invariant
                m <= led.len(),
                graph.edges@ == led,
                graph.wf(),
                graph.nodes@.len() == n,
                graph.nodes@ == old(graph).nodes@,
                kept@ == without_node(led.take(m as int), node),
                forall|e: int| 0 <= e < kept@.len() ==> (#[trigger] kept@[e]).0 < n && kept@[e].1 < n,
            decreases led.len() - m,
        {
            let e = graph.edges[m];
            proof {
                assert(led.take(m + 1).drop_last() =~= led.take(m as int));
                assert(led.take(m + 1).last() == e);
            }
            if e.0 != node && e.1 != node {
                kept.push(e);
            }
            m = m + 1;
        }
        proof {
            assert(led.take(led.len() as int) =~= led);
        }
        graph.edges = kept;
        proof {
            assert(preds_all == incoming_of(e0, node));
            assert(graph.edges@ == without_node(jumps_led_on(e0, incoming_of(e0, node), target), node));
        }
        OptimizationResult::Changed
    }


    /// Visits the statements in the order of a depth-first walk from `root`
    /// of the graph as it stands; reports whether any jump was taken out.
    pub fn run(&self, graph: &mut LogicScriptStatementGraph, root: usize) -> (r: OptimizationResult)
        requires
            self.domination_analysis.wf(),
            old(graph).wf(),
            root < old(graph).nodes@.len(),
        ensures
            final(graph).wf(),
            final(graph).nodes@ == old(graph).nodes@,
            ({
                let p = jumps_pass(
                    old(graph).edges@,
                    dfs_order(edge_pairs(old(graph).edges@), old(graph).nodes@.len(), root),
                    self.domination_analysis,
                );
                final(graph).edges@ == p.0 && (r == OptimizationResult::Changed) == p.1
            }),
    {
        let ghost e0 = graph.edges@;
        let ghost n = graph.nodes@.len();
        let pairs = edge_pairs_of(&graph.edges);
        let order = dfs_preorder(graph.nodes.len(), &pairs, root);
        proof {
            lemma_dfs_order_bound(pairs@, n, root);
            assert(order@.take(0) =~= Seq::<usize>::empty());
        }
        let mut changed = OptimizationResult::Unchanged;
        let mut i: usize = 0;
        while i < order.len()
            invariant
                i <= order@.len(),
                self.domination_analysis.wf(),
                graph.wf(),
                graph.nodes@ == old(graph).nodes@,
                graph.nodes@.len() == n,
                order@ == dfs_order(edge_pairs(e0), n, root),
                forall|j: int| 0 <= j < order@.len() ==> #[trigger] order@[j] < n,
                graph.edges@ == jumps_pass(e0, order@.take(i as int), self.domination_analysis).0,
                (changed == OptimizationResult::Changed) == jumps_pass(e0, order@.take(i as int), self.domination_analysis).1,
            decreases order@.len() - i,
        {
            let id = order[i];
            proof {
                assert(order@.take(i + 1).drop_last() =~= order@.take(i as int));
                assert(order@.take(i + 1).last() == id);
            }
            let r = self.visit(graph, id);
            changed = changed.or(&r);
            i = i + 1;
        }
        proof {
            assert(order@.take(order@.len() as int) =~= order@);
        }
        changed
    }
}

} // verus!
