use vstd::prelude::*;
use std::collections::HashMap;

use crate::logic::analysis::ast::{
    first_out_edge, pending_weight, lemma_pending_mark, AstView, LogicAST, LogicASTEdge, LogicASTNode, LogicCommandNode,
    NodeKind,
};
use crate::logic::LogicConditionClause;
use crate::logic::analysis::dominator_tree::{edges_within, DominationAnalysis};
use crate::logic::analysis::optimization::OptimizationResult;

verus! {

#[derive(Debug, Clone)]
pub struct SinglePathBasicBlock {
    pub label: Option<String>,
    pub commands: Vec<LogicCommandNode>,
}

#[derive(Debug, Clone)]
pub struct ConditionalBasicBlock {
    pub label: Option<String>,
    pub conditions: Vec<LogicConditionClause>,
}

#[derive(Debug, Clone)]
pub enum BasicBlock {
    SinglePath(SinglePathBasicBlock),
    Conditional(ConditionalBasicBlock),
}

#[derive(Debug, Clone, Copy, PartialEq, Eq, Structural, Hash)]
pub enum BasicBlockEdgeType {
    Next,
    IfThen,
    IfElse,
}

/// A block as far as the graph's shape goes: conditional or not, and how
/// many commands a single-path block runs.
pub enum BlockView {
    SinglePath(nat),
    Conditional,
}

pub open spec fn block_view(b: BasicBlock) -> BlockView {
    match b {
        BasicBlock::SinglePath(s) => BlockView::SinglePath(s.commands@.len()),
        BasicBlock::Conditional(_) => BlockView::Conditional,
    }
}

/// The blocks made so far, their edges, and the block of each node.
pub struct BlocksView {
    pub blocks: Seq<BlockView>,
    pub edges: Seq<(int, int, BasicBlockEdgeType)>,
    pub block_of: Map<usize, usize>,
}

pub open spec fn block_edges_view(e: Seq<(usize, usize, BasicBlockEdgeType)>) -> Seq<(int, int, BasicBlockEdgeType)> {
    e.map_values(|x: (usize, usize, BasicBlockEdgeType)| (x.0 as int, x.1 as int, x.2))
}

pub open spec fn sb_add_block(s: BlocksView, b: BlockView, node: int) -> BlocksView {
    BlocksView {
        blocks: s.blocks.push(b),
        block_of: s.block_of.insert(node as usize, s.blocks.len() as usize),
        ..s
    }
}

pub open spec fn sb_add_edge(s: BlocksView, from: int, to: int, e: BasicBlockEdgeType) -> BlocksView {
    BlocksView { edges: s.edges.push((from, to, e)), ..s }
}

/// Follows the edge of `kind` out of `node`, if there is one, to its block
/// (made now if need be), and adds an edge of `block_edge` to it.
pub open spec fn follow_spec(
    a: AstView,
    s: BlocksView,
    k: int,
    node: int,
    kind: LogicASTEdge,
    block_edge: BasicBlockEdgeType,
    fuel: nat,
) -> BlocksView
    decreases fuel, 2nat,
{
    match first_out_edge(a.edges, node, kind) {
        Some(n) => {
            let (s1, b) = find_or_build_spec(a, s, n, fuel);
            sb_add_edge(s1, k, b, block_edge)
        },
        None => s,
    }
}

/// The block of a node: one made before, or one made now.
pub open spec fn find_or_build_spec(a: AstView, s: BlocksView, node: int, fuel: nat) -> (BlocksView, int)
    decreases fuel, 1nat,
{
    if fuel == 0 {
        (s, 0)
    } else if s.block_of.contains_key(node as usize) {
        (s, s.block_of[node as usize] as int)
    } else {
        build_spec(a, s, node, (fuel - 1) as nat)
    }
}

/// The block of a node, made now: a command a single-path block of that
/// command, a conditional a conditional block, a jump an empty single-path
/// block; then the blocks of where the node leads, in the order next, then,
/// else, jump target.
pub open spec fn build_spec(a: AstView, s: BlocksView, node: int, fuel: nat) -> (BlocksView, int)
    decreases fuel, 0nat,
{
    if fuel == 0 {
        (s, 0)
    } else {
        let k = s.blocks.len() as int;
        match a.nodes[node].kind {
            NodeKind::Command => {
                let s1 = sb_add_block(s, BlockView::SinglePath(1), node);
                (follow_spec(a, s1, k, node, LogicASTEdge::CommandToNext, BasicBlockEdgeType::Next, (fuel - 1) as nat), k)
            },
            NodeKind::If => {
                let s1 = sb_add_block(s, BlockView::Conditional, node);
                let s2 = follow_spec(a, s1, k, node, LogicASTEdge::IfThen, BasicBlockEdgeType::IfThen, (fuel - 1) as nat);
                (follow_spec(a, s2, k, node, LogicASTEdge::IfElse, BasicBlockEdgeType::IfElse, (fuel - 1) as nat), k)
            },
            NodeKind::Goto => {
                let s1 = sb_add_block(s, BlockView::SinglePath(0), node);
                (follow_spec(a, s1, k, node, LogicASTEdge::GotoToTarget, BasicBlockEdgeType::Next, (fuel - 1) as nat), k)
            },
        }
    }
}

/// The graph of basic blocks of a program's graph.
pub struct BasicBlockGraph {
    pub blocks: Vec<BasicBlock>,
    pub edges: Vec<(usize, usize, BasicBlockEdgeType)>,
    pub root_block_id: usize,
    /// The blocks taken out of the graph; their places stay, so the others
    /// keep their numbers.
    pub removed: Vec<bool>,
}

/// The graph of blocks of a program's graph, from its root.
pub open spec fn blocks_of(a: AstView) -> (BlocksView, int) {
    build_spec(
        a,
        BlocksView { blocks: Seq::empty(), edges: Seq::empty(), block_of: Map::empty() },
        a.root,
        (2 * a.nodes.len() + 1) as nat,
    )
}

struct BlockBuilder {
    blocks: Vec<BasicBlock>,
    edges: Vec<(usize, usize, BasicBlockEdgeType)>,
    block_of: HashMap<usize, usize>,
    built: Vec<bool>,
}

impl BlockBuilder {
    spec fn view_of(&self) -> BlocksView {
        BlocksView {
            blocks: self.blocks@.map_values(|b: BasicBlock| block_view(b)),
            edges: block_edges_view(self.edges@),
            block_of: self.block_of@,
        }
    }

    spec fn wf(&self, n: nat) -> bool {
        &&& self.built@.len() == n
        &&& forall|i: usize| #[trigger] self.block_of@.contains_key(i) <==> (i < n && self.built@[i as int])
        &&& forall|i: usize| #[trigger] self.block_of@.contains_key(i) ==> self.block_of@[i] < self.blocks@.len()
        &&& forall|e: int| 0 <= e < self.edges@.len() ==> #[trigger] self.edges@[e].0 < self.blocks@.len()
            && self.edges@[e].1 < self.blocks@.len()
    }

    spec fn grows_to(&self, new: Self) -> bool {
        &&& self.blocks@.len() <= new.blocks@.len()
        &&& pending_weight(new.built@, 0) <= pending_weight(self.built@, 0)
    }

    fn add_edge(&mut self, from: usize, to: usize, e: BasicBlockEdgeType, Ghost(n): Ghost<nat>)
        requires
            old(self).wf(n),
            from < old(self).blocks@.len(),
            to < old(self).blocks@.len(),
        ensures
            final(self).wf(n),
            final(self).view_of() == sb_add_edge(old(self).view_of(), from as int, to as int, e),
            final(self).blocks@ == old(self).blocks@,
            final(self).built@ == old(self).built@,
    {
        self.edges.push((from, to, e));
        proof {
            assert(self.view_of().edges =~= sb_add_edge(old(self).view_of(), from as int, to as int, e).edges);
            assert forall|x: int| 0 <= x < self.edges@.len() implies #[trigger] self.edges@[x].0 < self.blocks@.len()
                && self.edges@[x].1 < self.blocks@.len() by {
                if x < old(self).edges@.len() {
                    assert(self.edges@[x] == old(self).edges@[x]);
                }
            }
        }
    }
}

/// Follows the edge of `kind` out of `node` to its block.
fn follow(
    ast: &LogicAST,
    st: &mut BlockBuilder,
    k: usize,
    node: usize,
    kind: LogicASTEdge,
    block_edge: BasicBlockEdgeType,
    Ghost(fuel): Ghost<nat>,
)
    requires
        ast.wf(),
        node < ast.nodes@.len(),
        old(st).wf(ast.nodes@.len()),
        k < old(st).blocks@.len(),
        fuel >= 2 * pending_weight(old(st).built@, 0) + 2,
    ensures
        final(st).wf(ast.nodes@.len()),
        old(st).grows_to(*final(st)),
        final(st).view_of() == follow_spec(ast.view_of(), old(st).view_of(), k as int, node as int, kind, block_edge, fuel),
    decreases pending_weight(old(st).built@, 0), 2nat,
{
    match ast.outgoing_neighbor_id_of_type(node, kind) {
        Some(n) => {
            proof {
                lemma_first_out_edge_in(ast.view_of().edges, node as int, kind);
                assert(ast.view_of().edges == crate::logic::analysis::ast::edges_view(ast.edges@));
            }
            let ghost before = *st;
            let b = find_or_build(ast, st, n, Ghost(fuel));
            st.add_edge(k, b, block_edge, Ghost(ast.nodes@.len()));
        },
        None => {},
    }
}

/// Targets of edges are nodes of the graph.
proof fn lemma_first_out_edge_in(edges: Seq<(int, int, LogicASTEdge)>, node: int, kind: LogicASTEdge)
    ensures
        first_out_edge(edges, node, kind) matches Some(t) ==> exists|e: int| 0 <= e < edges.len() && edges[e].1 == t,
    decreases edges.len(),
{
    if edges.len() > 0 && !(edges[0].0 == node && edges[0].2 == kind) {
        lemma_first_out_edge_in(edges.drop_first(), node, kind);
        if let Some(t) = first_out_edge(edges, node, kind) {
            let e = choose|e: int| 0 <= e < edges.drop_first().len() && edges.drop_first()[e].1 == t;
            assert(edges[e + 1].1 == t);
        }
    }
}

/// The block of a node: one made before, or one made now.
fn find_or_build(ast: &LogicAST, st: &mut BlockBuilder, node: usize, Ghost(fuel): Ghost<nat>) -> (r: usize)
    requires
        ast.wf(),
        node < ast.nodes@.len(),
        old(st).wf(ast.nodes@.len()),
        fuel >= 2 * pending_weight(old(st).built@, 0) + 2,
    ensures
        final(st).wf(ast.nodes@.len()),
        old(st).grows_to(*final(st)),
        r < final(st).blocks@.len(),
        (final(st).view_of(), r as int) == find_or_build_spec(ast.view_of(), old(st).view_of(), node as int, fuel),
    decreases pending_weight(old(st).built@, 0), 1nat,
{
    broadcast use vstd::std_specs::hash::group_hash_axioms;
    match st.block_of.get(&node) {
        Some(b) => *b,
        None => build_basic_blocks(ast, st, node, Ghost((fuel - 1) as nat)),
    }
}

/// Makes the block of a node, then those of where it leads.
fn build_basic_blocks(ast: &LogicAST, st: &mut BlockBuilder, node: usize, Ghost(fuel): Ghost<nat>) -> (r: usize)
    requires
        ast.wf(),
        node < ast.nodes@.len(),
        old(st).wf(ast.nodes@.len()),
        !old(st).built@[node as int],
        fuel >= 2 * pending_weight(old(st).built@, 0) + 1,
    ensures
        final(st).wf(ast.nodes@.len()),
        old(st).grows_to(*final(st)),
        r < final(st).blocks@.len(),
        (final(st).view_of(), r as int) == build_spec(ast.view_of(), old(st).view_of(), node as int, fuel),
    decreases pending_weight(old(st).built@, 0), 0nat,
{
    broadcast use vstd::std_specs::hash::group_hash_axioms;
    let ghost n = ast.nodes@.len();
    let ghost s0 = st.view_of();
    let k = st.blocks.len();
    let (block, kind, edge_kinds) = match &ast.nodes[node] {
        LogicASTNode::Command(c) => {
            let mut commands: Vec<LogicCommandNode> = Vec::new();
            commands.push(c.clone());
            (
                BasicBlock::SinglePath(SinglePathBasicBlock { label: label_text(&c.label), commands }),
                NodeKind::Command,
                0u8,
            )
        },
        LogicASTNode::If(i) => (
            BasicBlock::Conditional(ConditionalBasicBlock { label: label_text(&i.label), conditions: i.clauses.clone() }),
            NodeKind::If,
            1u8,
        ),
        LogicASTNode::Goto(g) => (
            BasicBlock::SinglePath(SinglePathBasicBlock { label: label_text(&g.label), commands: Vec::new() }),
            NodeKind::Goto,
            2u8,
        ),
    };
    proof {
        lemma_pending_mark(st.built@, 0, node as int);
    }
    let ghost bv = block_view(block);
    st.blocks.push(block);
    st.block_of.insert(node, k);
    st.built.set(node, true);
    proof {
        assert(st.view_of().blocks =~= sb_add_block(s0, bv, node as int).blocks);
        assert(st.view_of().block_of =~= sb_add_block(s0, bv, node as int).block_of);
        assert(st.view_of() == sb_add_block(s0, bv, node as int));
        assert forall|i: usize| #[trigger] st.block_of@.contains_key(i) <==> (i < n && st.built@[i as int]) by {
            if i != node && i < n {
                assert(st.built@[i as int] == old(st).built@[i as int]);
            }
        }
        assert forall|e: int| 0 <= e < st.edges@.len() implies #[trigger] st.edges@[e].0 < st.blocks@.len()
            && st.edges@[e].1 < st.blocks@.len() by {
            assert(old(st).edges@[e].0 < old(st).blocks@.len());
        }
    }
    if edge_kinds == 0 {
        follow(ast, st, k, node, LogicASTEdge::CommandToNext, BasicBlockEdgeType::Next, Ghost((fuel - 1) as nat));
    } else if edge_kinds == 1 {
        follow(ast, st, k, node, LogicASTEdge::IfThen, BasicBlockEdgeType::IfThen, Ghost((fuel - 1) as nat));
        follow(ast, st, k, node, LogicASTEdge::IfElse, BasicBlockEdgeType::IfElse, Ghost((fuel - 1) as nat));
    } else {
        follow(ast, st, k, node, LogicASTEdge::GotoToTarget, BasicBlockEdgeType::Next, Ghost((fuel - 1) as nat));
    }
    k
}

fn label_text(label: &Option<crate::logic::assembly::LogicLabel>) -> (r: Option<String>) {
    match label {
        Some(l) => Some(l.label.clone()),
        None => None,
    }
}

impl BasicBlockGraph {
    /// The blocks of a program's graph: one block for each node reached from
    /// the root, as `blocks_of` describes them.
    pub fn from_ast(ast: &LogicAST) -> (r: BasicBlockGraph)
        requires
            ast.wf(),
        ensures
            r.blocks@.map_values(|b: BasicBlock| block_view(b)) == blocks_of(ast.view_of()).0.blocks,
            block_edges_view(r.edges@) == blocks_of(ast.view_of()).0.edges,
            r.root_block_id as int == blocks_of(ast.view_of()).1,
            r.root_block_id < r.blocks@.len(),
            r.removed@ == Seq::new(r.blocks@.len(), |k: int| false),
    {
        let n = ast.nodes.len();
        let mut built: Vec<bool> = Vec::new();
        let mut i: usize = 0;
        while i < n
            invariant
                n == ast.nodes@.len(),
                i <= n,
                built@ == Seq::new(i as nat, |j: int| false),
            decreases n - i,
        {
            built.push(false);
            i = i + 1;
            assert(built@ =~= Seq::new(i as nat, |j: int| false));
        }
        let mut st = BlockBuilder { blocks: Vec::new(), edges: Vec::new(), block_of: HashMap::new(), built };
        proof {
            lemma_weight_of_unbuilt(n as nat);
            assert(st.view_of().blocks =~= Seq::<BlockView>::empty());
            assert(st.view_of().edges =~= Seq::<(int, int, BasicBlockEdgeType)>::empty());
            assert(st.view_of().block_of =~= Map::<usize, usize>::empty());
        }
        let root_block_id = build_basic_blocks(ast, &mut st, ast.root_node_id, Ghost((2 * n + 1) as nat));
        let mut removed: Vec<bool> = Vec::new();
        let mut j: usize = 0;
        while j < st.blocks.len()
            invariant
                j <= st.blocks@.len(),
                removed@ == Seq::new(j as nat, |k: int| false),
            decreases st.blocks@.len() - j,
        {
            removed.push(false);
            j = j + 1;
            assert(removed@ =~= Seq::new(j as nat, |k: int| false));
        }
        BasicBlockGraph { blocks: st.blocks, edges: st.edges, root_block_id, removed }
    }

    /// The edges between blocks, without their kinds.
    pub open spec fn pairs(&self) -> Seq<(usize, usize)> {
        self.edges@.map_values(|x: (usize, usize, BasicBlockEdgeType)| (x.0, x.1))
    }

    /// Each edge as the pair of blocks it joins.
    pub fn successor_pairs(&self) -> (r: Vec<(usize, usize)>)
        ensures
            r@ == self.pairs(),
    {
        let mut r: Vec<(usize, usize)> = Vec::new();
        let mut k: usize = 0;
        while k < self.edges.len()
            invariant
                k <= self.edges@.len(),
                r@ == self.pairs().take(k as int),
            decreases self.edges@.len() - k,
        {
            let (a, b, _) = self.edges[k];
            r.push((a, b));
            k = k + 1;
            proof {
                assert(r@ =~= self.pairs().take(k as int));
            }
        }
        assert(self.pairs().take(k as int) =~= self.pairs());
        r
    }

    /// The dominators and post-dominators of the blocks, from the root block.
    pub fn domination_analysis(&self) -> (r: DominationAnalysis)
        requires
            self.root_block_id < self.blocks@.len(),
            self.blocks@.len() < usize::MAX,
            edges_within(self.pairs(), self.blocks@.len()),
        ensures
            r.wf(),
            r.graph_edges() == self.pairs(),
            r.graph_root() == self.root_block_id,
            r.graph_size() == self.blocks@.len(),
    {
        let pairs = self.successor_pairs();
        DominationAnalysis::from_graph(self.blocks.len(), &pairs, self.root_block_id)
    }
}

proof fn lemma_weight_of_unbuilt(n: nat)
    ensures
        pending_weight(Seq::new(n, |j: int| false), 0) == n,
    decreases n,
{
    if n > 0 {
        assert(Seq::new(n, |j: int| false).drop_last() =~= Seq::new((n - 1) as nat, |j: int| false));
        lemma_weight_of_unbuilt((n - 1) as nat);
    }
}

pub type BlockEdge = (usize, usize, BasicBlockEdgeType);

/// A block's label.
pub open spec fn block_label(b: BasicBlock) -> Option<Seq<char>> {
    match b {
        BasicBlock::SinglePath(s) => match s.label {
            Some(l) => Some(l@),
            None => None,
        },
        BasicBlock::Conditional(c) => match c.label {
            Some(l) => Some(l@),
            None => None,
        },
    }
}

/// The number of commands of a single-path block (none for a conditional).
pub open spec fn command_count(b: BasicBlock) -> nat {
    match b {
        BasicBlock::SinglePath(s) => s.commands@.len(),
        BasicBlock::Conditional(_) => 0,
    }
}

/// The target of the edge of `kind` out of `node` added last: the one a
/// look-up of that kind finds.
pub open spec fn last_out(edges: Seq<BlockEdge>, node: usize, kind: BasicBlockEdgeType) -> Option<usize>
    decreases edges.len(),
{
    if edges.len() == 0 {
        None
    } else if edges.last().0 == node && edges.last().2 == kind {
        Some(edges.last().1)
    } else {
        last_out(edges.drop_last(), node, kind)
    }
}

/// The place of the edge of `kind` out of `node` added last.
pub open spec fn last_out_index(edges: Seq<BlockEdge>, node: usize, kind: BasicBlockEdgeType) -> Option<int>
    decreases edges.len(),
{
    if edges.len() == 0 {
        None
    } else if edges.last().0 == node && edges.last().2 == kind {
        Some(edges.len() - 1)
    } else {
        last_out_index(edges.drop_last(), node, kind)
    }
}

/// The source of the edge of `kind` into `node` added last.
pub open spec fn last_in(edges: Seq<BlockEdge>, node: usize, kind: BasicBlockEdgeType) -> Option<usize>
    decreases edges.len(),
{
    if edges.len() == 0 {
        None
    } else if edges.last().1 == node && edges.last().2 == kind {
        Some(edges.last().0)
    } else {
        last_in(edges.drop_last(), node, kind)
    }
}

/// The edges into `node`, the last added first: source and kind.
pub open spec fn incoming(edges: Seq<BlockEdge>, node: usize) -> Seq<(usize, BasicBlockEdgeType)>
    decreases edges.len(),
{
    if edges.len() == 0 {
        Seq::empty()
    } else {
        (if edges.last().1 == node {
            seq![(edges.last().0, edges.last().2)]
        } else {
            Seq::empty()
        }) + incoming(edges.drop_last(), node)
    }
}

/// The edges without those that touch `node`, in their order.
pub open spec fn detached(edges: Seq<BlockEdge>, node: usize) -> Seq<BlockEdge>
    decreases edges.len(),
{
    if edges.len() == 0 {
        Seq::empty()
    } else {
        detached(edges.drop_last(), node) + if edges.last().0 != node && edges.last().1 != node {
            seq![edges.last()]
        } else {
            Seq::empty()
        }
    }
}

/// The place of the edge from `a` to `b` added last.
pub open spec fn last_between(edges: Seq<BlockEdge>, a: usize, b: usize) -> Option<int>
    decreases edges.len(),
{
    if edges.len() == 0 {
        None
    } else if edges.last().0 == a && edges.last().1 == b {
        Some(edges.len() - 1)
    } else {
        last_between(edges.drop_last(), a, b)
    }
}

/// The edges after the edge from `a` to `b` is given the kind `kind`: the
/// one added last takes it, or a new one is added.
pub open spec fn with_edge(edges: Seq<BlockEdge>, a: usize, b: usize, kind: BasicBlockEdgeType) -> Seq<BlockEdge> {
    match last_between(edges, a, b) {
        Some(i) => edges.update(i, (a, b, kind)),
        None => edges.push((a, b, kind)),
    }
}

/// The edges after each of `sources` gets an edge of its kind to `target`,
/// in order.
pub open spec fn redirected(edges: Seq<BlockEdge>, sources: Seq<(usize, BasicBlockEdgeType)>, target: usize) -> Seq<BlockEdge>
    decreases sources.len(),
{
    if sources.len() == 0 {
        edges
    } else {
        redirected(with_edge(edges, sources[0].0, target, sources[0].1), sources.drop_first(), target)
    }
}

impl BasicBlockGraph {
    /// Every edge joins two blocks, and each block is marked as kept or
    /// removed.
    pub open spec fn wf(&self) -> bool {
        &&& self.removed@.len() == self.blocks@.len()
        &&& forall|e: int| 0 <= e < self.edges@.len() ==> (#[trigger] self.edges@[e]).0 < self.blocks@.len()
            && self.edges@[e].1 < self.blocks@.len()
    }
}

pub proof fn lemma_last_out_bound(edges: Seq<BlockEdge>, node: usize, kind: BasicBlockEdgeType, n: nat)
    requires
        forall|e: int| 0 <= e < edges.len() ==> (#[trigger] edges[e]).1 < n,
    ensures
        last_out(edges, node, kind) matches Some(t) ==> t < n,
    decreases edges.len(),
{
    if edges.len() > 0 {
        lemma_last_out_bound(edges.drop_last(), node, kind, n);
    }
}

fn find_last_out(edges: &Vec<BlockEdge>, node: usize, kind: BasicBlockEdgeType) -> (r: Option<usize>)
    ensures
        r == last_out(edges@, node, kind),
{
    let mut k: usize = edges.len();
    assert(edges@.take(k as int) =~= edges@);
    while k > 0
        invariant
            k <= edges@.len(),
            last_out(edges@, node, kind) == last_out(edges@.take(k as int), node, kind),
        decreases k,
    {
        assert(edges@.take(k as int).drop_last() =~= edges@.take(k - 1));
        let (a, b, w) = edges[k - 1];
        if a == node && w == kind {
            return Some(b);
        }
        k = k - 1;
    }
    None
}

fn find_last_in(edges: &Vec<BlockEdge>, node: usize, kind: BasicBlockEdgeType) -> (r: Option<usize>)
    ensures
        r == last_in(edges@, node, kind),
{
    let mut k: usize = edges.len();
    assert(edges@.take(k as int) =~= edges@);
    while k > 0
        invariant
            k <= edges@.len(),
            last_in(edges@, node, kind) == last_in(edges@.take(k as int), node, kind),
        decreases k,
    {
        assert(edges@.take(k as int).drop_last() =~= edges@.take(k - 1));
        let (a, b, w) = edges[k - 1];
        if b == node && w == kind {
            return Some(a);
        }
        k = k - 1;
    }
    None
}

fn find_last_out_index(edges: &Vec<BlockEdge>, node: usize, kind: BasicBlockEdgeType) -> (r: Option<usize>)
    ensures
        match last_out_index(edges@, node, kind) {
            Some(i) => r == Some(i as usize) && 0 <= i < edges@.len(),
            None => r is None,
        },
{
    let mut k: usize = edges.len();
    assert(edges@.take(k as int) =~= edges@);
    proof {
        lemma_last_out_index_bound(edges@, node, kind);
    }
    while k > 0
        invariant
            k <= edges@.len(),
            last_out_index(edges@, node, kind) == last_out_index(edges@.take(k as int), node, kind),
            last_out_index(edges@.take(k as int), node, kind) matches Some(i) ==> 0 <= i < k,
        decreases k,
    {
        assert(edges@.take(k as int).drop_last() =~= edges@.take(k - 1));
        let (a, b, w) = edges[k - 1];
        if a == node && w == kind {
            return Some(k - 1);
        }
        k = k - 1;
        proof {
            lemma_last_out_index_bound(edges@.take(k as int), node, kind);
        }
    }
    None
}

proof fn lemma_last_between_bound(edges: Seq<BlockEdge>, a: usize, b: usize)
    ensures
        last_between(edges, a, b) matches Some(i) ==> 0 <= i < edges.len(),
    decreases edges.len(),
{
    if edges.len() > 0 {
        lemma_last_between_bound(edges.drop_last(), a, b);
    }
}

proof fn lemma_last_out_index_bound(edges: Seq<BlockEdge>, node: usize, kind: BasicBlockEdgeType)
    ensures
        last_out_index(edges, node, kind) matches Some(i) ==> 0 <= i < edges.len(),
    decreases edges.len(),
{
    if edges.len() > 0 {
        lemma_last_out_index_bound(edges.drop_last(), node, kind);
    }
}

fn incoming_of(edges: &Vec<BlockEdge>, node: usize) -> (r: Vec<(usize, BasicBlockEdgeType)>)
    ensures
        r@ == incoming(edges@, node),
        forall|j: int| 0 <= j < r@.len() ==> exists|e: int| 0 <= e < edges@.len() && #[trigger] r@[j].0 == edges@[e].0,
{
    let mut r: Vec<(usize, BasicBlockEdgeType)> = Vec::new();
    let mut k: usize = edges.len();
    assert(edges@.take(k as int) =~= edges@);
    assert(edges@.skip(k as int) =~= Seq::<BlockEdge>::empty());
    while k > 0
        invariant
            k <= edges@.len(),
            incoming(edges@, node) == r@ + incoming(edges@.take(k as int), node),
            forall|j: int| 0 <= j < r@.len() ==> exists|e: int| 0 <= e < edges@.len() && #[trigger] r@[j].0 == edges@[e].0,
        decreases k,
    {
        assert(edges@.take(k as int).drop_last() =~= edges@.take(k - 1));
        let (a, b, w) = edges[k - 1];
        let ghost before = r@;
        if b == node {
            r.push((a, w));
            proof {
                assert(incoming(edges@.take(k as int), node) == seq![(a, w)] + incoming(edges@.take(k - 1), node));
                assert(before + (seq![(a, w)] + incoming(edges@.take(k - 1), node)) =~= r@ + incoming(edges@.take(k - 1), node));
                assert forall|j: int| 0 <= j < r@.len() implies exists|e: int| 0 <= e < edges@.len() && #[trigger] r@[j].0 == edges@[e].0 by {
                    if j < before.len() {
                        assert(r@[j] == before[j]);
                    } else {
                        assert(r@[j].0 == edges@[k - 1].0);
                    }
                }
            }
        } else {
            proof {
                assert(incoming(edges@.take(k as int), node) =~= incoming(edges@.take(k - 1), node));
            }
        }
        k = k - 1;
    }
    assert(edges@.take(0) =~= Seq::<BlockEdge>::empty());
    assert(r@ + Seq::<(usize, BasicBlockEdgeType)>::empty() =~= r@);
    r
}

fn detach_edges(edges: &Vec<BlockEdge>, node: usize) -> (r: Vec<BlockEdge>)
    ensures
        r@ == detached(edges@, node),
        forall|j: int| 0 <= j < r@.len() ==> exists|e: int| 0 <= e < edges@.len() && #[trigger] r@[j] == edges@[e],
{
    let mut r: Vec<BlockEdge> = Vec::new();
    let mut k: usize = 0;
    while k < edges.len()
        invariant
            k <= edges@.len(),
            r@ == detached(edges@.take(k as int), node),
            forall|j: int| 0 <= j < r@.len() ==> exists|e: int| 0 <= e < edges@.len() && #[trigger] r@[j] == edges@[e],
        decreases edges@.len() - k,
    {
        assert(edges@.take(k + 1).drop_last() =~= edges@.take(k as int));
        let (a, b, w) = edges[k];
        let ghost before = r@;
        if a != node && b != node {
            r.push((a, b, w));
            proof {
                assert(r@ =~= before + seq![edges@[k as int]]);
                assert forall|j: int| 0 <= j < r@.len() implies exists|e: int| 0 <= e < edges@.len() && #[trigger] r@[j] == edges@[e] by {
                    if j < before.len() {
                        assert(r@[j] == before[j]);
                    } else {
                        assert(r@[j] == edges@[k as int]);
                    }
                }
            }
        } else {
            proof {
                assert(r@ =~= before + Seq::<BlockEdge>::empty());
            }
        }
        k = k + 1;
    }
    assert(edges@.take(k as int) =~= edges@);
    r
}

fn set_edge(edges: &mut Vec<BlockEdge>, a: usize, b: usize, kind: BasicBlockEdgeType)
    ensures
        final(edges)@ == with_edge(old(edges)@, a, b, kind),
{
    let ghost ev = edges@;
    let mut k: usize = edges.len();
    assert(ev.take(k as int) =~= ev);
    while k > 0
        invariant
            k <= edges@.len(),
            edges@ == ev,
            ev == old(edges)@,
            last_between(ev, a, b) == last_between(ev.take(k as int), a, b),
        decreases k,
    {
        assert(ev.take(k as int).drop_last() =~= ev.take(k - 1));
        let (x, y, _) = edges[k - 1];
        if x == a && y == b {
            proof {
                assert(ev.take(k as int).last() == ev[k - 1]);
                assert(last_between(ev.take(k as int), a, b) == Some(k - 1));
            }
            edges.set(k - 1, (a, b, kind));
            proof {
                assert(last_between(ev, a, b) == Some((k - 1) as int));
                assert(with_edge(ev, a, b, kind) == ev.update((k - 1) as int, (a, b, kind)));
                assert(edges@ =~= ev.update((k - 1) as int, (a, b, kind)));
            }
            return;
        }
        k = k - 1;
    }
    assert(ev.take(0) =~= Seq::<BlockEdge>::empty());
    edges.push((a, b, kind));
}

impl BasicBlock {
    /// Gives the block a label, or takes its label away.
    pub fn set_label(&mut self, label: Option<String>)
        ensures
            block_label(*final(self)) == (match label {
                Some(l) => Some(l@),
                None => None,
            }),
            block_view(*final(self)) == block_view(*old(self)),
            command_count(*final(self)) == command_count(*old(self)),
    {
        match self {
            BasicBlock::SinglePath(s) => {
                s.label = label;
            },
            BasicBlock::Conditional(c) => {
                c.label = label;
            },
        }
    }

    /// The block's label.
    pub fn label(&self) -> (r: Option<&String>)
        ensures
            block_label(*self) == (match r {
                Some(l) => Some(l@),
                None => None,
            }),
    {
        match self {
            BasicBlock::SinglePath(s) => s.label.as_ref(),
            BasicBlock::Conditional(c) => c.label.as_ref(),
        }
    }
}

/// The edges after taking an empty single-path block out of the graph: each
/// edge into it is led to the block after it, and its edges go.
pub open spec fn edges_without_empty_block(edges: Seq<BlockEdge>, id: usize, next: usize) -> Seq<BlockEdge> {
    detached(redirected(edges, incoming(edges, id), next), id)
}

/// The label the block after an empty block has once the empty block goes:
/// its own, or else the empty block's.
pub open spec fn inherited_label(blocks: Seq<BasicBlock>, id: usize, next: usize) -> Option<Seq<char>> {
    if block_label(blocks[next as int]) is None && block_label(blocks[id as int]) is Some {
        block_label(blocks[id as int])
    } else {
        block_label(blocks[next as int])
    }
}

/// An empty single-path block with a `Next` edge is taken out of the graph:
/// its label passes to the block after it where that block has none, each
/// edge into it is led to the block after it instead (as that edge's kind),
/// and it loses its edges.
pub fn remove_empty_block(graph: &mut BasicBlockGraph, block_id: usize) -> (r: OptimizationResult)
    requires
        old(graph).wf(),
        block_id < old(graph).blocks@.len(),
    ensures
        final(graph).wf(),
        final(graph).root_block_id == old(graph).root_block_id,
        final(graph).blocks@.len() == old(graph).blocks@.len(),
        ({
            let g = *old(graph);
            let removable = !g.removed@[block_id as int] && g.blocks@[block_id as int] is SinglePath
                && command_count(g.blocks@[block_id as int]) == 0 && last_out(g.edges@, block_id, BasicBlockEdgeType::Next)
                is Some;
            if removable {
                let next = last_out(g.edges@, block_id, BasicBlockEdgeType::Next)->Some_0;
                &&& r == OptimizationResult::Changed
                &&& final(graph).removed@ == g.removed@.update(block_id as int, true)
                &&& final(graph).edges@ == edges_without_empty_block(g.edges@, block_id, next)
                &&& forall|j: int| 0 <= j < g.blocks@.len() && j != next ==> #[trigger] final(graph).blocks@[j] == g.blocks@[j]
                &&& block_label(final(graph).blocks@[next as int]) == inherited_label(g.blocks@, block_id, next)
                &&& block_view(final(graph).blocks@[next as int]) == block_view(g.blocks@[next as int])
                &&& command_count(final(graph).blocks@[next as int]) == command_count(g.blocks@[next as int])
            } else {
                &&& r == OptimizationResult::Unchanged
                &&& final(graph).removed@ == g.removed@
                &&& final(graph).edges@ == g.edges@
                &&& final(graph).blocks@ == g.blocks@
            }
        }),
{
    if graph.removed[block_id] {
        return OptimizationResult::Unchanged;
    }
    let empty = match &graph.blocks[block_id] {
        BasicBlock::SinglePath(b) => b.commands.len() == 0,
        BasicBlock::Conditional(_) => false,
    };
    if !empty {
        return OptimizationResult::Unchanged;
    }
    let next_block_id = match find_last_out(&graph.edges, block_id, BasicBlockEdgeType::Next) {
        Some(n) => n,
        None => {
            return OptimizationResult::Unchanged;
        },
    };
    proof {
        lemma_last_out_bound(graph.edges@, block_id, BasicBlockEdgeType::Next, graph.blocks@.len());
    }
    let ghost g = *graph;
    let incoming_edge_data = incoming_of(&graph.edges, block_id);
    let block_label = match graph.blocks[block_id].label() {
        Some(l) => Some(l.clone()),
        None => None,
    };
    let target_has_label = graph.blocks[next_block_id].label().is_some();
    if !target_has_label && block_label.is_some() {
        let mut target = graph.blocks.remove(next_block_id);
        target.set_label(block_label);
        graph.blocks.insert(next_block_id, target);
    }
    proof {
        assert forall|j: int| 0 <= j < g.blocks@.len() && j != next_block_id implies #[trigger] graph.blocks@[j] == g.blocks@[j] by {
        }
    }
    let ghost e0 = graph.edges@;
    let ghost gb = graph.blocks@;
    let mut k: usize = 0;
    proof {
        assert(incoming_edge_data@.skip(0) =~= incoming_edge_data@);
    }
    while k < incoming_edge_data.len()
        invariant
            k <= incoming_edge_data@.len(),
            incoming_edge_data@ == incoming(e0, block_id),
            graph.removed@ == g.removed@,
            graph.blocks@ == gb,
            graph.root_block_id == g.root_block_id,
            redirected(e0, incoming(e0, block_id), next_block_id) == redirected(
                graph.edges@,
                incoming_edge_data@.skip(k as int),
                next_block_id,
            ),
            forall|e: int| 0 <= e < graph.edges@.len() ==> (#[trigger] graph.edges@[e]).0 < graph.blocks@.len()
                && graph.edges@[e].1 < graph.blocks@.len(),
            forall|j: int| 0 <= j < incoming_edge_data@.len() ==> (#[trigger] incoming_edge_data@[j]).0 < graph.blocks@.len(),
            next_block_id < graph.blocks@.len(),
            graph.blocks@.len() == g.blocks@.len(),
        decreases incoming_edge_data@.len() - k,
    {
        let (source_id, weight) = incoming_edge_data[k];
        let ghost before = graph.edges@;
        proof {
            assert(incoming_edge_data@.skip(k as int)[0] == (source_id, weight));
            assert(incoming_edge_data@.skip(k as int).drop_first() =~= incoming_edge_data@.skip(k + 1));
        }
        set_edge(&mut graph.edges, source_id, next_block_id, weight);
        proof {
            lemma_last_between_bound(before, source_id, next_block_id);
            assert forall|e: int| 0 <= e < graph.edges@.len() implies (#[trigger] graph.edges@[e]).0 < graph.blocks@.len()
                && graph.edges@[e].1 < graph.blocks@.len() by {
                match last_between(before, source_id, next_block_id) {
                    Some(i) => {
                        if e != i {
                            assert(graph.edges@[e] == before[e]);
                        }
                    },
                    None => {
                        if e < before.len() {
                            assert(graph.edges@[e] == before[e]);
                        }
                    },
                }
            }
        }
        k = k + 1;
    }
    proof {
        assert(incoming_edge_data@.skip(k as int) =~= Seq::<(usize, BasicBlockEdgeType)>::empty());
    }
    let detached_edges = detach_edges(&graph.edges, block_id);
    graph.edges = detached_edges;
    graph.removed.set(block_id, true);
    OptimizationResult::Changed
}

/// The commands of a single-path block (none for a conditional).
pub open spec fn commands_of(b: BasicBlock) -> Seq<LogicCommandNode> {
    match b {
        BasicBlock::SinglePath(s) => s.commands@,
        BasicBlock::Conditional(_) => Seq::empty(),
    }
}

/// The edges after joining an unlabelled single-path block to the block
/// whose `Next` edge leads to it: where that block is single-path and the
/// joined block has a `Next` edge on (the one at `i`), the block before gets
/// a `Next` edge to where it leads and that edge goes; then the joined
/// block's edges go.
pub open spec fn edges_after_join(edges: Seq<BlockEdge>, id: usize, prev: usize, prev_single: bool) -> Seq<BlockEdge> {
    let moved = match last_out_index(edges, id, BasicBlockEdgeType::Next) {
        Some(i) => if prev_single {
            edges.push((prev, edges[i].1, BasicBlockEdgeType::Next)).remove(i)
        } else {
            edges
        },
        None => edges,
    };
    detached(moved, id)
}

/// An unlabelled single-path block that a `Next` edge leads to is joined to
/// the block before it: a single-path block before it takes on its
/// commands and its `Next` edge; the block leaves the graph.
#[verifier::rlimit(40)]
pub fn concatenate_linear_blocks(graph: &mut BasicBlockGraph, block_id: usize) -> (r: OptimizationResult)
    requires
        old(graph).wf(),
        block_id < old(graph).blocks@.len(),
    ensures
        final(graph).wf(),
        final(graph).root_block_id == old(graph).root_block_id,
        final(graph).blocks@.len() == old(graph).blocks@.len(),
        ({
            let g = *old(graph);
            let joinable = !g.removed@[block_id as int] && g.blocks@[block_id as int] is SinglePath && block_label(
                g.blocks@[block_id as int],
            ) is None && last_in(g.edges@, block_id, BasicBlockEdgeType::Next) is Some;
            if joinable {
                let prev = last_in(g.edges@, block_id, BasicBlockEdgeType::Next)->Some_0;
                let prev_single = g.blocks@[prev as int] is SinglePath;
                &&& r == OptimizationResult::Changed
                &&& final(graph).removed@ == g.removed@.update(block_id as int, true)
                &&& final(graph).edges@ == edges_after_join(g.edges@, block_id, prev, prev_single)
                &&& forall|j: int| 0 <= j < g.blocks@.len() && j != prev ==> #[trigger] final(graph).blocks@[j] == g.blocks@[j]
                &&& prev_single ==> {
                    &&& final(graph).blocks@[prev as int] is SinglePath
                    &&& block_label(final(graph).blocks@[prev as int]) == block_label(g.blocks@[prev as int])
                    &&& commands_of(final(graph).blocks@[prev as int]).len() == commands_of(g.blocks@[prev as int]).len()
                        + commands_of(g.blocks@[block_id as int]).len()
                    &&& commands_of(final(graph).blocks@[prev as int]).take(
                        commands_of(g.blocks@[prev as int]).len() as int,
                    ) == commands_of(g.blocks@[prev as int])
                }
                &&& !prev_single ==> final(graph).blocks@[prev as int] == g.blocks@[prev as int]
            } else {
                &&& r == OptimizationResult::Unchanged
                &&& final(graph).removed@ == g.removed@
                &&& final(graph).edges@ == g.edges@
                &&& final(graph).blocks@ == g.blocks@
            }
        }),
{
    if graph.removed[block_id] {
        return OptimizationResult::Unchanged;
    }
    let joinable = match &graph.blocks[block_id] {
        BasicBlock::SinglePath(b) => b.label.is_none(),
        BasicBlock::Conditional(_) => false,
    };
    if !joinable {
        return OptimizationResult::Unchanged;
    }
    let prev_block_id = match find_last_in(&graph.edges, block_id, BasicBlockEdgeType::Next) {
        Some(p) => p,
        None => {
            return OptimizationResult::Unchanged;
        },
    };
    proof {
        lemma_last_in_bound(graph.edges@, block_id, BasicBlockEdgeType::Next, graph.blocks@.len());
    }
    let ghost g = *graph;
    let edge_count = graph.edges.len();
    let next_edge_index = find_last_out_index(&graph.edges, block_id, BasicBlockEdgeType::Next);
    let ghost found_next = last_out_index(g.edges@, block_id, BasicBlockEdgeType::Next);
    proof {
        if let Some(i) = next_edge_index {
            let j = found_next->Some_0;
            assert(0 <= j < edge_count);
            assert(found_next == Some(i as int));
        }
        assert(next_edge_index is None ==> found_next is None);
    }
    let mut commands: Vec<LogicCommandNode> = Vec::new();
    match &graph.blocks[block_id] {
        BasicBlock::SinglePath(b) => {
            let mut k: usize = 0;
            while k < b.commands.len()
                invariant
                    k <= b.commands@.len(),
                    commands@.len() == k,
                decreases b.commands@.len() - k,
            {
                commands.push(b.commands[k].clone());
                k = k + 1;
            }
        },
        BasicBlock::Conditional(_) => {},
    }
    let prev_single = match &graph.blocks[prev_block_id] {
        BasicBlock::SinglePath(_) => true,
        BasicBlock::Conditional(_) => false,
    };
    if prev_single {
        let mut prev = graph.blocks.remove(prev_block_id);
        match &mut prev {
            BasicBlock::SinglePath(p) => {
                let ghost start = p.commands@;
                let ghost start_label = p.label;
                let mut k: usize = 0;
                while k < commands.len()
                    invariant
                        p.label == start_label,
                        k <= commands@.len(),
                        p.commands@.len() == start.len() + k,
                        p.commands@.take(start.len() as int) == start,
                    decreases commands@.len() - k,
                {
                    let ghost before = p.commands@;
                    p.commands.push(commands[k].clone());
                    proof {
                        assert(p.commands@.take(start.len() as int) =~= before.take(start.len() as int));
                    }
                    k = k + 1;
                }
            },
            BasicBlock::Conditional(_) => {},
        }
        graph.blocks.insert(prev_block_id, prev);
        match next_edge_index {
            Some(i) => {
                assert(graph.edges@ == g.edges@);
                let target = graph.edges[i].1;
                proof {
                    assert(graph.edges@[i as int].1 < graph.blocks@.len());
                }
                graph.edges.push((prev_block_id, target, BasicBlockEdgeType::Next));
                let ghost pushed = graph.edges@;
                graph.edges.remove(i);
                assert(graph.edges@ == pushed.remove(i as int));
                assert(pushed == g.edges@.push((prev_block_id, g.edges@[i as int].1, BasicBlockEdgeType::Next)));
            },
            None => {},
        }
    }
    proof {
        assert forall|e: int| 0 <= e < graph.edges@.len() implies (#[trigger] graph.edges@[e]).0 < graph.blocks@.len()
            && graph.edges@[e].1 < graph.blocks@.len() by {
            if prev_single && next_edge_index is Some {
                let i = next_edge_index->Some_0 as int;
                let pushed = g.edges@.push((prev_block_id, g.edges@[i].1, BasicBlockEdgeType::Next));
                assert(graph.edges@ == pushed.remove(i));
                if e < i {
                    assert(graph.edges@[e] == g.edges@[e]);
                } else if e + 1 < pushed.len() - 1 + 1 && e + 1 < g.edges@.len() {
                    assert(graph.edges@[e] == g.edges@[e + 1]);
                } else {
                    assert(graph.edges@[e] == pushed[e + 1]);
                }
            } else {
                assert(graph.edges@[e] == g.edges@[e]);
            }
        }
        assert forall|j: int| 0 <= j < g.blocks@.len() && j != prev_block_id implies #[trigger] graph.blocks@[j] == g.blocks@[j] by {
        }
    }
    proof {
        let moved = match last_out_index(g.edges@, block_id, BasicBlockEdgeType::Next) {
            Some(i) => if prev_single {
                g.edges@.push((prev_block_id, g.edges@[i].1, BasicBlockEdgeType::Next)).remove(i)
            } else {
                g.edges@
            },
            None => g.edges@,
        };
        if prev_single && next_edge_index is Some {
            let i = next_edge_index->Some_0 as int;
            assert(found_next == Some(i));
            assert(graph.edges@ == g.edges@.push((prev_block_id, g.edges@[i].1, BasicBlockEdgeType::Next)).remove(i));
        } else {
            assert(graph.edges@ == g.edges@);
        }
        assert(graph.edges@ == moved);
    }
    let detached_edges = detach_edges(&graph.edges, block_id);
    proof {
        assert forall|e: int| 0 <= e < detached_edges@.len() implies (#[trigger] detached_edges@[e]).0 < graph.blocks@.len()
            && detached_edges@[e].1 < graph.blocks@.len() by {
            let q = choose|q: int| 0 <= q < graph.edges@.len() && #[trigger] detached_edges@[e] == graph.edges@[q];
            assert(graph.edges@[q].0 < graph.blocks@.len());
        }
    }
    graph.edges = detached_edges;
    graph.removed.set(block_id, true);
    proof {
        assert(graph.edges@ == edges_after_join(g.edges@, block_id, prev_block_id, prev_single));
        if prev_single {
            assert(graph.blocks@[prev_block_id as int] is SinglePath);
            assert(block_label(graph.blocks@[prev_block_id as int]) == block_label(g.blocks@[prev_block_id as int]));
            assert(commands_of(graph.blocks@[prev_block_id as int]).len() == commands_of(g.blocks@[prev_block_id as int]).len()
                + commands_of(g.blocks@[block_id as int]).len());
        } else {
            assert(graph.blocks@[prev_block_id as int] == g.blocks@[prev_block_id as int]);
        }
    }
    OptimizationResult::Changed
}

pub proof fn lemma_last_in_bound(edges: Seq<BlockEdge>, node: usize, kind: BasicBlockEdgeType, n: nat)
    requires
        forall|e: int| 0 <= e < edges.len() ==> (#[trigger] edges[e]).0 < n,
    ensures
        last_in(edges, node, kind) matches Some(t) ==> t < n,
    decreases edges.len(),
{
    if edges.len() > 0 {
        lemma_last_in_bound(edges.drop_last(), node, kind, n);
    }
}

} // verus!
