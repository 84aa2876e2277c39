use vstd::prelude::*;

use crate::logic::analysis::basic_block_graph::{
    block_label, block_view, command_count, commands_of, concatenate_linear_blocks, edges_after_join, edges_without_empty_block,
    last_in, last_out, lemma_last_in_bound, lemma_last_out_bound, remove_empty_block, BasicBlock, BasicBlockEdgeType, BasicBlockGraph, BlockEdge,
};
use crate::logic::analysis::dominator_tree::{
    count_false, dfs_order, dfs_preorder, lemma_count_false_set, lemma_dfs_order_bound,
};
use crate::logic::analysis::optimization::OptimizationResult;

verus! {

/// A block as the optimisation passes see it: single-path or not, its label
/// and how many commands it holds.
pub struct BlockShape {
    pub single: bool,
    pub label: Option<Seq<char>>,
    pub count: nat,
}

pub open spec fn block_shape(b: BasicBlock) -> BlockShape {
    BlockShape { single: b is SinglePath, label: block_label(b), count: command_count(b) }
}

/// A block graph as the optimisation passes see it.
pub struct GraphShape {
    pub blocks: Seq<BlockShape>,
    pub edges: Seq<BlockEdge>,
    pub removed: Seq<bool>,
}

pub open spec fn graph_shape(g: BasicBlockGraph) -> GraphShape {
    GraphShape { blocks: g.blocks@.map_values(|b: BasicBlock| block_shape(b)), edges: g.edges@, removed: g.removed@ }
}

/// Source and target of each edge.
pub open spec fn edge_ends(edges: Seq<BlockEdge>) -> Seq<(usize, usize)> {
    edges.map_values(|e: BlockEdge| (e.0, e.1))
}

/// What `remove_empty_block` does to a graph's shape, and whether it changed it.
pub open spec fn remove_step(s: GraphShape, id: usize) -> (GraphShape, bool) {
    let b = s.blocks[id as int];
    if !s.removed[id as int] && b.single && b.count == 0 && (last_out(s.edges, id, BasicBlockEdgeType::Next) matches Some(t)
        && t < s.blocks.len()) {
        let next = last_out(s.edges, id, BasicBlockEdgeType::Next)->Some_0;
        let nb = s.blocks[next as int];
        let label = if nb.label is None && b.label is Some {
            b.label
        } else {
            nb.label
        };
        (
            GraphShape {
                blocks: s.blocks.update(next as int, BlockShape { single: nb.single, label, count: nb.count }),
                edges: edges_without_empty_block(s.edges, id, next),
                removed: s.removed.update(id as int, true),
            },
            true,
        )
    } else {
        (s, false)
    }
}

/// What `concatenate_linear_blocks` does to a graph's shape, and whether it
/// changed it.
pub open spec fn concat_step(s: GraphShape, id: usize) -> (GraphShape, bool) {
    let b = s.blocks[id as int];
    if !s.removed[id as int] && b.single && b.label is None && (last_in(s.edges, id, BasicBlockEdgeType::Next) matches Some(t)
        && t < s.blocks.len()) {
        let prev = last_in(s.edges, id, BasicBlockEdgeType::Next)->Some_0;
        let pb = s.blocks[prev as int];
        let blocks = if pb.single {
            s.blocks.update(prev as int, BlockShape { single: true, label: pb.label, count: pb.count + b.count })
        } else {
            s.blocks
        };
        (
            GraphShape {
                blocks,
                edges: edges_after_join(s.edges, id, prev, pb.single),
                removed: s.removed.update(id as int, true),
            },
            true,
        )
    } else {
        (s, false)
    }
}

/// A pass visits the blocks in `order`, one step each (`concat` chooses
/// the step); it reports a change where any step made one.
pub open spec fn pass_over(s: GraphShape, order: Seq<usize>, concat: bool) -> (GraphShape, bool)
    decreases order.len(),
{
    if order.len() == 0 {
        (s, false)
    } else {
        let before = pass_over(s, order.drop_last(), concat);
        let after = if concat {
            concat_step(before.0, order.last())
        } else {
            remove_step(before.0, order.last())
        };
        (after.0, before.1 || after.1)
    }
}

/// A pass in the order of a depth-first walk from the root, taken on the
/// graph as the pass finds it.
pub open spec fn pass_from_root(s: GraphShape, root: usize, concat: bool) -> (GraphShape, bool) {
    pass_over(s, dfs_order(edge_ends(s.edges), s.blocks.len(), root), concat)
}

/// One round: the pass that removes empty blocks, then the one that joins
/// linear blocks.
pub open spec fn pass_round(s: GraphShape, root: usize) -> (GraphShape, bool) {
    let first = pass_from_root(s, root, false);
    let second = pass_from_root(first.0, root, true);
    (second.0, first.1 || second.1)
}

/// Rounds until one changes nothing; whether any round changed the graph.
pub open spec fn optimized(s: GraphShape, root: usize) -> (GraphShape, bool)
    decreases count_false(s.removed),
{
    let round = pass_round(s, root);
    if round.1 && count_false(round.0.removed) < count_false(s.removed) {
        (optimized(round.0, root).0, true)
    } else {
        round
    }
}

pub open spec fn shape_wf(s: GraphShape) -> bool {
    s.removed.len() == s.blocks.len()
}

proof fn lemma_pass_over(s: GraphShape, order: Seq<usize>, concat: bool)
    requires
        shape_wf(s),
        forall|j: int| 0 <= j < order.len() ==> #[trigger] order[j] < s.blocks.len(),
    ensures
        shape_wf(pass_over(s, order, concat).0),
        pass_over(s, order, concat).0.blocks.len() == s.blocks.len(),
        count_false(pass_over(s, order, concat).0.removed) <= count_false(s.removed),
        pass_over(s, order, concat).1 ==> count_false(pass_over(s, order, concat).0.removed) < count_false(s.removed),
        !pass_over(s, order, concat).1 ==> pass_over(s, order, concat).0 == s,
    decreases order.len(),
{
    if order.len() > 0 {
        assert forall|j: int| 0 <= j < order.drop_last().len() implies #[trigger] order.drop_last()[j] < s.blocks.len() by {
            assert(order.drop_last()[j] == order[j]);
        }
        lemma_pass_over(s, order.drop_last(), concat);
        let before = pass_over(s, order.drop_last(), concat).0;
        let id = order.last();
        assert(order.last() == order[order.len() - 1]);
        assert(order.last() < s.blocks.len());
        if concat {
            if concat_step(before, id).1 {
                lemma_count_false_set(before.removed, id as int);
            }
        } else {
            if remove_step(before, id).1 {
                lemma_count_false_set(before.removed, id as int);
            }
        }
    }
}

proof fn lemma_pass_round(s: GraphShape, root: usize)
    requires
        shape_wf(s),
    ensures
        shape_wf(pass_round(s, root).0),
        pass_round(s, root).0.blocks.len() == s.blocks.len(),
        pass_round(s, root).1 ==> count_false(pass_round(s, root).0.removed) < count_false(s.removed),
        !pass_round(s, root).1 ==> pass_round(s, root).0 == s,
{
    let o1 = dfs_order(edge_ends(s.edges), s.blocks.len(), root);
    lemma_dfs_order_bound(edge_ends(s.edges), s.blocks.len(), root);
    lemma_pass_over(s, o1, false);
    let first = pass_over(s, o1, false).0;
    let o2 = dfs_order(edge_ends(first.edges), first.blocks.len(), root);
    lemma_dfs_order_bound(edge_ends(first.edges), first.blocks.len(), root);
    lemma_pass_over(first, o2, true);
}

/// Optimising a block graph ends in one that a further round leaves as it
/// is: neither pass finds an empty block to remove or a linear block to
/// join.
pub proof fn lemma_optimized_is_stable(s: GraphShape, root: usize)
    requires
        shape_wf(s),
    ensures
        !pass_round(optimized(s, root).0, root).1,
        pass_round(optimized(s, root).0, root).0 == optimized(s, root).0,
    decreases count_false(s.removed),
{
    lemma_pass_round(s, root);
    let round = pass_round(s, root);
    if round.1 {
        lemma_optimized_is_stable(round.0, root);
    } else {
        assert(round.0 == s);
        lemma_pass_round(s, root);
    }
}

/// Source and target of each edge of the graph.
fn edge_ends_of(edges: &Vec<BlockEdge>) -> (r: Vec<(usize, usize)>)
    ensures
        r@ == edge_ends(edges@),
{
    let mut r: Vec<(usize, usize)> = Vec::new();
    let mut i: usize = 0;
    while i < edges.len()
        invariant
            i <= edges@.len(),
            r@ == edge_ends(edges@.take(i as int)),
        decreases edges@.len() - i,
    {
        let e = edges[i];
        r.push((e.0, e.1));
        proof {
            assert(edge_ends(edges@.take(i + 1)) =~= edge_ends(edges@.take(i as int)).push((e.0, e.1)));
        }
        i = i + 1;
    }
    proof {
        assert(edges@.take(edges@.len() as int) =~= edges@);
    }
    r
}

impl BasicBlockGraph {
    /// Runs one pass over the blocks in the order of a depth-first walk
    /// from the root: `remove_empty_block` on each, or with `concat`
    /// `concatenate_linear_blocks`.
    pub fn run_pass(&mut self, concat: bool) -> (r: OptimizationResult)
        requires
            old(self).wf(),
            old(self).root_block_id < old(self).blocks@.len(),
        ensures
            final(self).wf(),
            final(self).root_block_id == old(self).root_block_id,
            final(self).blocks@.len() == old(self).blocks@.len(),
            graph_shape(*final(self)) == pass_from_root(graph_shape(*old(self)), old(self).root_block_id, concat).0,
            (r == OptimizationResult::Changed) == pass_from_root(
                graph_shape(*old(self)),
                old(self).root_block_id,
                concat,
            ).1,
    {
        let ghost s0 = graph_shape(*self);
        let ghost root = self.root_block_id;
        let ghost n = self.blocks@.len();
        let ends = edge_ends_of(&self.edges);
        let order = dfs_preorder(self.blocks.len(), &ends, self.root_block_id);
        proof {
            lemma_dfs_order_bound(ends@, n, root);
            assert(s0.blocks.len() == n);
            assert(s0.edges == self.edges@);
            assert(order@.take(0) =~= Seq::<usize>::empty());
        }
        let mut changed = OptimizationResult::Unchanged;
        let mut i: usize = 0;
        while i < order.len()
            invariant
                self.wf(),
                self.root_block_id == root,
                self.blocks@.len() == n,
                order@ == dfs_order(edge_ends(s0.edges), n, root),
                forall|j: int| 0 <= j < order@.len() ==> #[trigger] order@[j] < n,
                i <= order@.len(),
                graph_shape(*self) == pass_over(s0, order@.take(i as int), concat).0,
                (changed == OptimizationResult::Changed) == pass_over(s0, order@.take(i as int), concat).1,
            decreases order@.len() - i,
        {
            let id = order[i];
            let ghost g = *self;
            let ghost s = graph_shape(g);
            let r = if concat {
                concatenate_linear_blocks(self, id)
            } else {
                remove_empty_block(self, id)
            };
            proof {
                assert(order@.take(i + 1).drop_last() =~= order@.take(i as int));
                assert(order@.take(i + 1).last() == id);
                assert(id < n);
                let a_id = g.blocks@[id as int];
                assert(s.blocks[id as int] == block_shape(a_id));
                let step = if concat {
                    concat_step(s, id)
                } else {
                    remove_step(s, id)
                };
                if concat {
                    if r == OptimizationResult::Changed {
                        let prev = last_in(g.edges@, id, BasicBlockEdgeType::Next)->Some_0;
                        lemma_last_in_bound(g.edges@, id, BasicBlockEdgeType::Next, n);
                        let a = g.blocks@[prev as int];
                        let b = self.blocks@[prev as int];
                        assert(s.blocks[prev as int] == block_shape(a));
                        if a is SinglePath {
                            assert(command_count(b) == commands_of(b).len());
                            assert(command_count(a) == commands_of(a).len());
                            assert(command_count(a_id) == commands_of(a_id).len());
                        }
                        assert(block_shape(b) == step.0.blocks[prev as int]);
                    }
                } else {
                    if r == OptimizationResult::Changed {
                        let next = last_out(g.edges@, id, BasicBlockEdgeType::Next)->Some_0;
                        lemma_last_out_bound(g.edges@, id, BasicBlockEdgeType::Next, n);
                        let a = g.blocks@[next as int];
                        let b = self.blocks@[next as int];
                        assert(s.blocks[next as int] == block_shape(a));
                        assert(block_view(b) == block_view(a));
                        assert((b is SinglePath) == (a is SinglePath));
                        assert(block_shape(b) == step.0.blocks[next as int]);
                    }
                }
                assert forall|j: int| 0 <= j < n implies #[trigger] graph_shape(*self).blocks[j] == step.0.blocks[j] by {
                    assert(graph_shape(*self).blocks[j] == block_shape(self.blocks@[j]));
                    assert(s.blocks[j] == block_shape(g.blocks@[j]));
                }
                assert(graph_shape(*self).blocks =~= step.0.blocks);
                assert(graph_shape(*self) == step.0);
            }
            changed = changed.or(&r);
            i = i + 1;
        }
        proof {
            assert(order@.take(order@.len() as int) =~= order@);
        }
        changed
    }

    /// Runs the pass that removes empty blocks and then the one that joins
    /// linear blocks, each over a walk of the graph as it finds it.
    pub fn run_optimization_passes_once(&mut self) -> (r: OptimizationResult)
        requires
            old(self).wf(),
            old(self).root_block_id < old(self).blocks@.len(),
        ensures
            final(self).wf(),
            final(self).root_block_id == old(self).root_block_id,
            final(self).blocks@.len() == old(self).blocks@.len(),
            graph_shape(*final(self)) == pass_round(graph_shape(*old(self)), old(self).root_block_id).0,
            (r == OptimizationResult::Changed) == pass_round(graph_shape(*old(self)), old(self).root_block_id).1,
    {
        let first = self.run_pass(false);
        let second = self.run_pass(true);
        first.or(&second)
    }

    /// Runs rounds of both passes until one changes nothing; reports
    /// whether any did.
    pub fn optimize(&mut self) -> (r: OptimizationResult)
        requires
            old(self).wf(),
            old(self).root_block_id < old(self).blocks@.len(),
        ensures
            final(self).wf(),
            final(self).root_block_id == old(self).root_block_id,
            final(self).blocks@.len() == old(self).blocks@.len(),
            graph_shape(*final(self)) == optimized(graph_shape(*old(self)), old(self).root_block_id).0,
            (r == OptimizationResult::Changed) == optimized(graph_shape(*old(self)), old(self).root_block_id).1,
            !pass_round(graph_shape(*final(self)), final(self).root_block_id).1,
    {
        let ghost s0 = graph_shape(*self);
        let ghost root = self.root_block_id;
        let ghost n = self.blocks@.len();
        let mut overall = OptimizationResult::Unchanged;
        loop
            invariant_except_break
                self.wf(),
                self.root_block_id == root,
                root < n,
                self.blocks@.len() == n,
                shape_wf(graph_shape(*self)),
                optimized(s0, root).0 == optimized(graph_shape(*self), root).0,
                optimized(s0, root).1 == (optimized(graph_shape(*self), root).1 || overall == OptimizationResult::Changed),
            ensures
                self.wf(),
                self.root_block_id == root,
                self.blocks@.len() == n,
                graph_shape(*self) == optimized(s0, root).0,
                (overall == OptimizationResult::Changed) == optimized(s0, root).1,
            decreases count_false(graph_shape(*self).removed),
        {
            let ghost s = graph_shape(*self);
            proof {
                lemma_pass_round(s, root);
            }
            let round = self.run_optimization_passes_once();
            overall = overall.or(&round);
            if !round.is_changed() {
                break;
            }
        }
        proof {
            lemma_optimized_is_stable(s0, root);
        }
        overall
    }
}

} // verus!
