use vstd::prelude::*;

use crate::logic::analysis::dominator_tree::{dfs_order, dfs_preorder, edges_within, lemma_dfs_order_bound, reach_from, reaches};
use crate::logic::logic_script::codegen::redundant_jumps::{edge_pairs, edge_pairs_of};
use crate::logic::analysis::optimization::OptimizationResult;
use crate::logic::assembly::expressions::ParsedLogicArgument;
use crate::logic::logic_script::statements::{
    lemma_statements_view, statement_view, statements_view, LogicScriptStatement, LogicScriptStatementBody,
    StatementBodyView, StatementView, StatementWithOrWithoutLocation,
};

verus! {

#[derive(Debug, Clone, Copy, PartialEq, Eq, Structural)]
pub enum LogicScriptStatementGraphEdge {
    Next,
    GotoTarget,
    IfThen,
    IfElse,
    BlockExit,
}

/// A statement, then the statements of its blocks, in the order they are written.
pub open spec fn flat_one(s: StatementView) -> Seq<StatementView>
    decreases s,
{
    match s.body {
        StatementBodyView::If { then_statements, else_statements, .. } => seq![s] + flat(then_statements) + flat(
            else_statements,
        ),
        _ => seq![s],
    }
}

/// Statements and the statements of their blocks, each once, in the order
/// they are written: the nodes of their graph.
pub open spec fn flat(ss: Seq<StatementView>) -> Seq<StatementView>
    decreases ss,
{
    if ss.len() == 0 {
        Seq::empty()
    } else {
        flat(ss.subrange(0, ss.len() - 1)) + flat_one(ss[ss.len() - 1])
    }
}

pub open spec fn then_of(s: StatementView) -> Seq<StatementView> {
    match s.body {
        StatementBodyView::If { then_statements, .. } => then_statements,
        _ => Seq::empty(),
    }
}

pub open spec fn else_of(s: StatementView) -> Seq<StatementView> {
    match s.body {
        StatementBodyView::If { else_statements, .. } => else_statements,
        _ => Seq::empty(),
    }
}


pub type EdgeView = (int, int, LogicScriptStatementGraphEdge);

/// The ends of a block that the statement after its `if` follows: the ends
/// of the blocks of its last statement, or else that statement itself.
pub open spec fn block_ends(ids: Seq<int>, exits: Seq<int>) -> Seq<int> {
    if exits.len() == 0 {
        if ids.len() > 0 {
            seq![ids.last()]
        } else {
            Seq::empty()
        }
    } else {
        exits
    }
}

/// The edges within the blocks of the statement at node `id`, with the
/// `IfThen` and `IfElse` edges to their first statements, and the ends of
/// its blocks.
pub open spec fn statement_edges(s: StatementView, id: int) -> (Seq<EdgeView>, Seq<int>)
    decreases s,
{
    match s.body {
        StatementBodyView::If { then_statements, else_statements, .. } => {
            let t = block_edges(then_statements, id + 1);
            let e = block_edges(else_statements, id + 1 + flat(then_statements).len());
            let t_edges = t.0 + if t.1.len() > 0 {
                seq![(id, t.1[0], LogicScriptStatementGraphEdge::IfThen)]
            } else {
                Seq::empty()
            };
            let e_edges = e.0 + if e.1.len() > 0 {
                seq![(id, e.1[0], LogicScriptStatementGraphEdge::IfElse)]
            } else {
                Seq::empty()
            };
            (t_edges + e_edges, block_ends(t.1, t.2) + block_ends(e.1, e.2))
        },
        _ => (Seq::empty(), Seq::empty()),
    }
}

/// The edges that statements added from node `base` on get, in the order
/// they are added, the nodes of the statements, and the ends of their
/// blocks that nothing follows yet. Each statement gets a `BlockExit` edge
/// from each end left by the statement before it, a `Next` edge from the
/// statement before it, then the edges of its own blocks.
pub open spec fn block_edges(ss: Seq<StatementView>, base: int) -> (Seq<EdgeView>, Seq<int>, Seq<int>)
    decreases ss,
{
    if ss.len() == 0 {
        (Seq::empty(), Seq::empty(), Seq::empty())
    } else {
        let front = ss.subrange(0, ss.len() - 1);
        let p = block_edges(front, base);
        let id = base + flat(front).len();
        let exit_edges = Seq::new(p.2.len(), |k: int| (p.2[k], id, LogicScriptStatementGraphEdge::BlockExit));
        let next_edge = if p.1.len() > 0 {
            seq![(p.1.last(), id, LogicScriptStatementGraphEdge::Next)]
        } else {
            Seq::empty()
        };
        let st = statement_edges(ss[ss.len() - 1], id);
        (p.0 + exit_edges + next_edge + st.0, p.1.push(id), st.1)
    }
}

pub open spec fn edges_int(e: Seq<(usize, usize, LogicScriptStatementGraphEdge)>) -> Seq<EdgeView> {
    e.map_values(|x: (usize, usize, LogicScriptStatementGraphEdge)| (x.0 as int, x.1 as int, x.2))
}

pub open spec fn ints(v: Seq<usize>) -> Seq<int> {
    v.map_values(|x: usize| x as int)
}

proof fn lemma_block_edges_take(ss: Seq<StatementView>, base: int, k: int)
    requires
        0 <= k < ss.len(),
    ensures
        block_edges(ss.take(k + 1), base) == ({
            let p = block_edges(ss.take(k), base);
            let id = base + flat(ss.take(k)).len();
            let st = statement_edges(ss[k], id);
            (
                p.0 + Seq::new(p.2.len(), |j: int| (p.2[j], id, LogicScriptStatementGraphEdge::BlockExit)) + (if p.1.len()
                    > 0 {
                    seq![(p.1.last(), id, LogicScriptStatementGraphEdge::Next)]
                } else {
                    Seq::empty()
                }) + st.0,
                p.1.push(id),
                st.1,
            )
        }),
{
    assert(ss.take(k + 1).subrange(0, k) =~= ss.take(k));
}

/// The nodes of the statements: each after the nodes of those before it.
proof fn lemma_block_ids(ss: Seq<StatementView>, base: int)
    ensures
        block_edges(ss, base).1.len() == ss.len(),
        forall|k: int| 0 <= k < ss.len() ==> #[trigger] block_edges(ss, base).1[k] == base + flat(ss.take(k)).len(),
    decreases ss.len(),
{
    if ss.len() > 0 {
        let front = ss.subrange(0, ss.len() - 1);
        lemma_block_ids(front, base);
        assert forall|k: int| 0 <= k < ss.len() implies #[trigger] block_edges(ss, base).1[k] == base + flat(ss.take(k)).len() by {
            if k < ss.len() - 1 {
                assert(front.take(k) =~= ss.take(k));
            } else {
                assert(front =~= ss.take(k));
            }
        }
    }
}

proof fn lemma_flat_one_len(s: StatementView)
    ensures
        flat_one(s).len() == 1 + flat(then_of(s)).len() + flat(else_of(s)).len(),
        flat_one(s) == seq![s] + flat(then_of(s)) + flat(else_of(s)),
{
    match s.body {
        StatementBodyView::If { .. } => {},
        _ => {
            assert(flat(Seq::<StatementView>::empty()) =~= Seq::<StatementView>::empty());
            assert(seq![s] + flat(then_of(s)) + flat(else_of(s)) =~= seq![s]);
        },
    }
}

proof fn lemma_flat_take(ss: Seq<StatementView>, k: int)
    requires
        0 <= k < ss.len(),
    ensures
        flat(ss.take(k + 1)) == flat(ss.take(k)) + flat_one(ss[k]),
{
    assert(ss.take(k + 1).subrange(0, k) =~= ss.take(k));
}

/// The part of the nodes that a statement at `k` has: none beyond the whole.
proof fn lemma_flat_take_len(ss: Seq<StatementView>, k: int)
    requires
        0 <= k <= ss.len(),
    ensures
        flat(ss.take(k)).len() <= flat(ss).len(),
    decreases ss.len() - k,
{
    if k < ss.len() {
        lemma_flat_take(ss, k);
        lemma_flat_take_len(ss, k + 1);
    } else {
        assert(ss.take(k) =~= ss);
    }
}

/// The graph of a script's statements: a node for each statement and each
/// statement of a block, and the edges between them.
pub struct LogicScriptStatementGraph<'a> {
    pub nodes: Vec<&'a LogicScriptStatement<ParsedLogicArgument>>,
    pub edges: Vec<(usize, usize, LogicScriptStatementGraphEdge)>,
}

pub open spec fn nodes_view<'a>(nodes: Seq<&'a LogicScriptStatement<ParsedLogicArgument>>) -> Seq<StatementView> {
    nodes.map_values(|n: &'a LogicScriptStatement<ParsedLogicArgument>| statement_view(*n))
}

impl<'a> LogicScriptStatementGraph<'a> {
    /// Every edge joins two nodes.
    pub open spec fn wf(&self) -> bool {
        forall|e: int| 0 <= e < self.edges@.len() ==> #[trigger] self.edges@[e].0 < self.nodes@.len()
            && self.edges@[e].1 < self.nodes@.len()
    }

    /// `new` has the nodes and edges of `self`, and perhaps more after them.
    pub open spec fn grows_to(&self, new: Self) -> bool {
        &&& self.nodes@.len() <= new.nodes@.len()
        &&& forall|i: int| 0 <= i < self.nodes@.len() ==> #[trigger] new.nodes@[i] == self.nodes@[i]
        &&& self.edges@.len() <= new.edges@.len()
        &&& forall|i: int| 0 <= i < self.edges@.len() ==> #[trigger] new.edges@[i] == self.edges@[i]
    }

    fn add_edge(&mut self, from: usize, to: usize, edge: LogicScriptStatementGraphEdge)
        requires
            old(self).wf(),
            from < old(self).nodes@.len(),
            to < old(self).nodes@.len(),
        ensures
            final(self).wf(),
            final(self).nodes@ == old(self).nodes@,
            final(self).edges@ == old(self).edges@.push((from, to, edge)),
    {
        self.edges.push((from, to, edge));
        proof {
            assert forall|e: int| 0 <= e < self.edges@.len() implies #[trigger] self.edges@[e].0 < self.nodes@.len()
                && self.edges@[e].1 < self.nodes@.len() by {
                if e < old(self).edges@.len() {
                    assert(self.edges@[e] == old(self).edges@[e]);
                }
            }
        }
    }
}

proof fn lemma_grows_trans<'a>(a: LogicScriptStatementGraph<'a>, b: LogicScriptStatementGraph<'a>, c: LogicScriptStatementGraph<'a>)
    requires
        a.grows_to(b),
        b.grows_to(c),
    ensures
        a.grows_to(c),
{
    assert forall|i: int| 0 <= i < a.nodes@.len() implies #[trigger] c.nodes@[i] == a.nodes@[i] by {
        assert(c.nodes@[i] == b.nodes@[i]);
    }
    assert forall|i: int| 0 <= i < a.edges@.len() implies #[trigger] c.edges@[i] == a.edges@[i] by {
        assert(c.edges@[i] == b.edges@[i]);
    }
}

proof fn lemma_grows_contains<'a>(
    a: LogicScriptStatementGraph<'a>,
    b: LogicScriptStatementGraph<'a>,
    x: (usize, usize, LogicScriptStatementGraphEdge),
)
    requires
        a.grows_to(b),
        a.edges@.contains(x),
    ensures
        b.edges@.contains(x),
{
    let j = choose|j: int| 0 <= j < a.edges@.len() && a.edges@[j] == x;
    assert(b.edges@[j] == x);
}

/// The statements of a block, by reference.
fn block_refs<'a>(v: &'a Vec<StatementWithOrWithoutLocation<ParsedLogicArgument>>) -> (r: Vec<
    &'a LogicScriptStatement<ParsedLogicArgument>,
>)
    ensures
        nodes_view(r@) == statements_view(v@),
{
    proof {
        lemma_statements_view(v@);
    }
    let mut r: Vec<&'a LogicScriptStatement<ParsedLogicArgument>> = Vec::new();
    let mut i: usize = 0;
    while i < v.len()
        invariant
            i <= v@.len(),
            statements_view(v@).len() == v@.len(),
            forall|j: int| 0 <= j < v@.len() ==> #[trigger] statements_view(v@)[j] == statement_view(v@[j].spec_statement()),
            nodes_view(r@) == statements_view(v@).take(i as int),
        decreases v@.len() - i,
    {
        let s = v[i].statement();
        let ghost before = r@;
        r.push(s);
        proof {
            assert(nodes_view(r@) =~= nodes_view(before).push(statement_view(*s)));
            assert(statements_view(v@).take(i + 1) =~= statements_view(v@).take(i as int).push(statements_view(v@)[i as int]));
        }
        i = i + 1;
    }
    assert(statements_view(v@).take(i as int) =~= statements_view(v@));
    r
}

/// Adds statements to the graph, each after the last: a node for each,
/// joined by `Next` edges, then for an `if` the nodes of its blocks, with
/// `IfThen` and `IfElse` edges to the first statement of each block; the last
/// statements of a block (or the ends of its own blocks) get a `BlockExit`
/// edge to the statement after the `if`. The edges are exactly those that
/// `block_edges` lists, in its order. Returns the nodes of the statements,
/// and the ends of their blocks that nothing follows yet.
#[verifier::rlimit(60)]
#[verifier::spinoff_prover]
pub fn add_statements_to_graph<'a>(
    graph: &mut LogicScriptStatementGraph<'a>,
    statements: &Vec<&'a LogicScriptStatement<ParsedLogicArgument>>,
) -> (r: (Vec<usize>, Vec<usize>))
    requires
        old(graph).wf(),
    ensures
        final(graph).wf(),
        old(graph).grows_to(*final(graph)),
        nodes_view(final(graph).nodes@) == nodes_view(old(graph).nodes@) + flat(nodes_view(statements@)),
        edges_int(final(graph).edges@) == edges_int(old(graph).edges@) + block_edges(
            nodes_view(statements@),
            old(graph).nodes@.len() as int,
        ).0,
        ints(r.0@) == block_edges(nodes_view(statements@), old(graph).nodes@.len() as int).1,
        ints(r.1@) == block_edges(nodes_view(statements@), old(graph).nodes@.len() as int).2,
        forall|k: int| 0 <= k < r.0@.len() ==> #[trigger] r.0@[k] < final(graph).nodes@.len(),
        forall|k: int| 0 <= k < r.1@.len() ==> #[trigger] r.1@[k] < final(graph).nodes@.len(),
    decreases flat(nodes_view(statements@)).len(), 1nat,
{
    let ghost ss = nodes_view(statements@);
    let ghost start = *graph;
    let ghost base = start.nodes@.len() as int;
    let mut ids: Vec<usize> = Vec::new();
    let mut block_exits: Vec<usize> = Vec::new();
    let mut i: usize = 0;
    proof {
        assert(ss.take(0) =~= Seq::<StatementView>::empty());
        assert(edges_int(graph.edges@) =~= edges_int(start.edges@) + block_edges(ss.take(0), base).0);
        assert(ints(ids@) =~= block_edges(ss.take(0), base).1);
        assert(ints(block_exits@) =~= block_edges(ss.take(0), base).2);
    }
    while i < statements.len()
        invariant
            ss == nodes_view(statements@),
            base == start.nodes@.len(),
            i <= statements@.len(),
            graph.wf(),
            start.grows_to(*graph),
            nodes_view(graph.nodes@) == nodes_view(start.nodes@) + flat(ss.take(i as int)),
            edges_int(graph.edges@) == edges_int(start.edges@) + block_edges(ss.take(i as int), base).0,
            ints(ids@) == block_edges(ss.take(i as int), base).1,
            ints(block_exits@) == block_edges(ss.take(i as int), base).2,
            forall|k: int| 0 <= k < ids@.len() ==> #[trigger] ids@[k] < graph.nodes@.len(),
            forall|k: int| 0 <= k < block_exits@.len() ==> #[trigger] block_exits@[k] < graph.nodes@.len(),
            flat(ss).len() >= flat(ss.take(i as int)).len(),
        decreases statements@.len() - i,
    {
        let statement = statements[i];
        let ghost before = *graph;
        let ghost p = block_edges(ss.take(i as int), base);
        proof {
            lemma_flat_take(ss, i as int);
            lemma_flat_take_len(ss, i as int + 1);
            lemma_flat_one_len(ss[i as int]);
            lemma_block_edges_take(ss, base, i as int);
            lemma_block_ids(ss.take(i as int), base);
            assert(ids@.len() == i);
            assert(nodes_view(graph.nodes@).len() == graph.nodes@.len());
        }
        let node_id = graph.nodes.len();
        let ghost id = base + flat(ss.take(i as int)).len();
        graph.nodes.push(statement);
        proof {
            assert(node_id == id);
            assert(nodes_view(graph.nodes@) =~= nodes_view(before.nodes@).push(statement_view(*statement)));
            assert(ss[i as int] == statement_view(*statement));
            assert forall|e: int| 0 <= e < graph.edges@.len() implies #[trigger] graph.edges@[e].0 < graph.nodes@.len()
                && graph.edges@[e].1 < graph.nodes@.len() by {
                assert(before.edges@[e].0 < before.nodes@.len());
            }
            assert(before.grows_to(*graph));
            lemma_grows_trans(start, before, *graph);
        }
        let ghost ge0 = edges_int(graph.edges@);
        let mut k: usize = 0;
        while k < block_exits.len()
            invariant
                graph.wf(),
                node_id < graph.nodes@.len(),
                node_id == id,
                start.grows_to(*graph),
                before.grows_to(*graph),
                graph.nodes@.len() == before.nodes@.len() + 1,
                graph.nodes@[node_id as int] == statement,
                k <= block_exits@.len(),
                ints(block_exits@) == p.2,
                forall|j: int| 0 <= j < block_exits@.len() ==> #[trigger] block_exits@[j] < graph.nodes@.len(),
                edges_int(graph.edges@) == ge0 + Seq::new(
                    k as nat,
                    |j: int| (p.2[j], id, LogicScriptStatementGraphEdge::BlockExit),
                ),
            decreases block_exits@.len() - k,
        {
            let ghost g0 = *graph;
            graph.add_edge(block_exits[k], node_id, LogicScriptStatementGraphEdge::BlockExit);
            proof {
                assert(g0.grows_to(*graph));
                lemma_grows_trans(start, g0, *graph);
                lemma_grows_trans(before, g0, *graph);
                assert(ints(block_exits@)[k as int] == block_exits@[k as int] as int);
                assert(edges_int(graph.edges@) =~= edges_int(g0.edges@).push((block_exits@[k as int] as int, node_id as int, LogicScriptStatementGraphEdge::BlockExit)));
                assert(edges_int(graph.edges@) =~= ge0 + Seq::new(
                    (k + 1) as nat,
                    |j: int| (p.2[j], id, LogicScriptStatementGraphEdge::BlockExit),
                ));
            }
            k = k + 1;
        }
        proof {
            assert(Seq::new(k as nat, |j: int| (p.2[j], id, LogicScriptStatementGraphEdge::BlockExit)) =~= Seq::new(
                p.2.len(),
                |j: int| (p.2[j], id, LogicScriptStatementGraphEdge::BlockExit),
            ));
        }
        block_exits = Vec::new();
        if i > 0 {
            let ghost g0 = *graph;
            graph.add_edge(ids[i - 1], node_id, LogicScriptStatementGraphEdge::Next);
            proof {
                assert(g0.grows_to(*graph));
                lemma_grows_trans(start, g0, *graph);
                lemma_grows_trans(before, g0, *graph);
                lemma_block_ids(ss.take(i as int), base);
                assert(ints(ids@)[i - 1] == ids@[i - 1] as int);
                assert(edges_int(graph.edges@) =~= edges_int(g0.edges@).push((ids@[i - 1] as int, node_id as int, LogicScriptStatementGraphEdge::Next)));
            }
        }
        let ghost g1 = *graph;
        proof {
            lemma_block_ids(ss.take(i as int), base);
            assert(p.1.len() > 0 <==> i > 0);
            let ne = if p.1.len() > 0 {
                seq![(p.1.last(), id, LogicScriptStatementGraphEdge::Next)]
            } else {
                Seq::<EdgeView>::empty()
            };
            assert(edges_int(g1.edges@) =~= edges_int(start.edges@) + p.0 + Seq::new(p.2.len(), |j: int| (p.2[j], id, LogicScriptStatementGraphEdge::BlockExit)) + ne);
            assert(nodes_view(g1.nodes@) == nodes_view(before.nodes@).push(ss[i as int]));
            assert(g1.nodes@.len() == node_id + 1);
        }
        let exits = add_blocks_of(graph, statement, node_id, Ghost(id));
        block_exits = exits;
        proof {
            lemma_grows_trans(start, g1, *graph);
            lemma_flat_one_len(ss[i as int]);
            lemma_flat_take(ss, i as int);
            assert(nodes_view(graph.nodes@) =~= nodes_view(start.nodes@) + flat(ss.take(i + 1)));
        }
        let ghost old_ids = ids@;
        ids.push(node_id);
        proof {
            assert(ints(ids@) =~= ints(old_ids).push(id));
            assert(edges_int(graph.edges@) =~= edges_int(start.edges@) + block_edges(ss.take(i + 1), base).0);
            assert forall|k: int| 0 <= k < ids@.len() implies #[trigger] ids@[k] < graph.nodes@.len() by {
                if k < old_ids.len() {
                    assert(ids@[k] == old_ids[k]);
                }
            }
        }
        i = i + 1;
    }
    proof {
        assert(ss.take(i as int) =~= ss);
    }
    (ids, block_exits)
}

/// Adds the blocks of the statement at node `node_id` after it, as
/// `statement_edges` describes them; returns the ends of its blocks.
#[verifier::rlimit(60)]
#[verifier::spinoff_prover]
fn add_blocks_of<'a>(
    graph: &mut LogicScriptStatementGraph<'a>,
    statement: &'a LogicScriptStatement<ParsedLogicArgument>,
    node_id: usize,
    Ghost(id): Ghost<int>,
) -> (block_exits: Vec<usize>)
    requires
        old(graph).wf(),
        node_id == id,
        old(graph).nodes@.len() == node_id + 1,
    ensures
        final(graph).wf(),
        old(graph).grows_to(*final(graph)),
        nodes_view(final(graph).nodes@) == nodes_view(old(graph).nodes@) + flat(then_of(statement_view(*statement)))
            + flat(else_of(statement_view(*statement))),
        edges_int(final(graph).edges@) == edges_int(old(graph).edges@) + statement_edges(statement_view(*statement), id).0,
        ints(block_exits@) == statement_edges(statement_view(*statement), id).1,
        forall|j: int| 0 <= j < block_exits@.len() ==> #[trigger] block_exits@[j] < final(graph).nodes@.len(),
    decreases 1 + flat(then_of(statement_view(*statement))).len() + flat(else_of(statement_view(*statement))).len(), 0nat,
{
    let ghost sv = statement_view(*statement);
    let ghost g1 = *graph;
    let mut block_exits: Vec<usize> = Vec::new();
    proof {
        lemma_grows_refl(g1);
    }
        match &statement.body {
        LogicScriptStatementBody::IfStatement(if_statement) => {
            let then_refs = block_refs(&if_statement.then_statements);
            let ghost tv = then_of(sv);
            let ghost ev = else_of(sv);
            proof {
                assert(nodes_view(then_refs@) == tv);
            }
            let (then_ids, mut then_exits) = add_statements_to_graph(graph, &then_refs);
            let ghost t = block_edges(tv, id + 1);
            let ghost g2 = *graph;
            proof {
                lemma_block_ids(tv, id + 1);
                assert(then_ids@.len() == t.1.len());
            }
            if then_ids.len() > 0 {
                graph.add_edge(node_id, then_ids[0], LogicScriptStatementGraphEdge::IfThen);
                proof {
                    assert(g2.grows_to(*graph));
                    lemma_grows_trans(g1, g2, *graph);
                    assert(ints(then_ids@)[0] == then_ids@[0] as int);
                    assert(edges_int(graph.edges@) =~= edges_int(g2.edges@).push((node_id as int, then_ids@[0] as int, LogicScriptStatementGraphEdge::IfThen)));
                }
            }
            let ghost t_ends = block_ends(t.1, t.2);
            if then_exits.len() == 0 {
                if then_ids.len() > 0 {
                    block_exits.push(then_ids[then_ids.len() - 1]);
                    proof {
                        assert(ints(then_ids@)[then_ids@.len() - 1] == then_ids@[then_ids@.len() - 1] as int);
                        assert(ints(block_exits@) =~= t_ends);
                    }
                } else {
                    proof {
                        assert(ints(block_exits@) =~= t_ends);
                    }
                }
            } else {
                let ghost be = block_exits@;
                block_exits.append(&mut then_exits);
                proof {
                    assert(ints(block_exits@) =~= t_ends);
                }
            }
            let ghost g3 = *graph;
            proof {
                lemma_grows_trans(g1, g2, g3);
                assert(nodes_view(g3.nodes@) == nodes_view(g1.nodes@) + flat(tv));
                assert(g3.nodes@.len() == node_id + 1 + flat(tv).len()) by {
                    assert(nodes_view(g3.nodes@).len() == g3.nodes@.len());
                    assert(nodes_view(g1.nodes@).len() == g1.nodes@.len());
                }
                let te = if t.1.len() > 0 {
                    seq![(id, t.1[0], LogicScriptStatementGraphEdge::IfThen)]
                } else {
                    Seq::<EdgeView>::empty()
                };
                assert(edges_int(g3.edges@) =~= edges_int(g1.edges@) + (t.0 + te));
            }
            let else_refs = block_refs(&if_statement.else_statements);
            proof {
                assert(nodes_view(else_refs@) == ev);
            }
            let (else_ids, mut else_exits) = add_statements_to_graph(graph, &else_refs);
            let ghost e = block_edges(ev, id + 1 + flat(tv).len());
            let ghost g4 = *graph;
            proof {
                lemma_grows_trans(g1, g3, g4);
                lemma_block_ids(ev, id + 1 + flat(tv).len());
            }
            if else_ids.len() > 0 {
                graph.add_edge(node_id, else_ids[0], LogicScriptStatementGraphEdge::IfElse);
                proof {
                    assert(g4.grows_to(*graph));
                    lemma_grows_trans(g1, g4, *graph);
                    assert(ints(else_ids@)[0] == else_ids@[0] as int);
                    assert(edges_int(graph.edges@) =~= edges_int(g4.edges@).push((node_id as int, else_ids@[0] as int, LogicScriptStatementGraphEdge::IfElse)));
                }
            }
            let ghost e_ends = block_ends(e.1, e.2);
            let ghost bt = block_exits@;
            if else_exits.len() == 0 {
                if else_ids.len() > 0 {
                    block_exits.push(else_ids[else_ids.len() - 1]);
                    proof {
                        assert(ints(else_ids@)[else_ids@.len() - 1] == else_ids@[else_ids@.len() - 1] as int);
                        assert(ints(block_exits@) =~= t_ends + e_ends);
                    }
                } else {
                    proof {
                        assert(ints(block_exits@) =~= t_ends + e_ends);
                    }
                }
            } else {
                block_exits.append(&mut else_exits);
                proof {
                    assert(ints(block_exits@) =~= t_ends + e_ends);
                }
            }
            proof {
                assert(nodes_view(graph.nodes@) == nodes_view(g3.nodes@) + flat(ev));
                let te = if t.1.len() > 0 {
                    seq![(id, t.1[0], LogicScriptStatementGraphEdge::IfThen)]
                } else {
                    Seq::<EdgeView>::empty()
                };
                let ee = if e.1.len() > 0 {
                    seq![(id, e.1[0], LogicScriptStatementGraphEdge::IfElse)]
                } else {
                    Seq::<EdgeView>::empty()
                };
                assert(edges_int(graph.edges@) =~= edges_int(g3.edges@) + (e.0 + ee));
                assert(statement_edges(sv, id) == ((t.0 + te) + (e.0 + ee), t_ends + e_ends));
                assert(edges_int(graph.edges@) =~= edges_int(g1.edges@) + statement_edges(sv, id).0);
                assert forall|j: int| 0 <= j < block_exits@.len() implies #[trigger] block_exits@[j] < graph.nodes@.len() by {
                    assert(ints(block_exits@)[j] == block_exits@[j] as int);
                    if j < t_ends.len() {
                        assert(block_exits@[j] < g3.nodes@.len());
                    }
                }
            }
        },
        _ => {
            proof {
                lemma_flat_one_len(sv);
                assert(statement_edges(sv, id) == (Seq::<EdgeView>::empty(), Seq::<int>::empty()));
                assert(edges_int(graph.edges@) =~= edges_int(g1.edges@) + statement_edges(sv, id).0);
                assert(ints(block_exits@) =~= statement_edges(sv, id).1);
            }
        },
    }
    block_exits
}

proof fn lemma_grows_refl<'a>(a: LogicScriptStatementGraph<'a>)
    ensures
        a.grows_to(a),
{
}

/// The label a `goto` statement jumps to.
pub open spec fn goto_target(s: StatementView) -> Option<Seq<char>> {
    match s.body {
        StatementBodyView::CommandCall { name, args } => if name == "goto"@ && args.len() > 0 && args[0] is Name {
            Some(args[0]->Name_0)
        } else {
            None
        },
        _ => None,
    }
}

/// The last of the nodes that carries the label `l`.
pub open spec fn last_labeled(nodes: Seq<StatementView>, l: Seq<char>) -> Option<int>
    decreases nodes.len(),
{
    if nodes.len() == 0 {
        None
    } else if nodes.last().label == Some(l) {
        Some(nodes.len() - 1)
    } else {
        last_labeled(nodes.drop_last(), l)
    }
}

proof fn lemma_last_labeled_take(nodes: Seq<StatementView>, l: Seq<char>, k: int)
    requires
        0 <= k < nodes.len(),
    ensures
        last_labeled(nodes.take(k + 1), l) == (if nodes[k].label == Some(l) {
            Some(k)
        } else {
            last_labeled(nodes.take(k), l)
        }),
{
    assert(nodes.take(k + 1).drop_last() =~= nodes.take(k));
}

impl<'a> LogicScriptStatementGraph<'a> {
    /// The last node carrying `label`.
    fn node_for_label(&self, label: &String) -> (r: Option<usize>)
        ensures
            match last_labeled(nodes_view(self.nodes@), label@) {
                Some(j) => r == Some(j as usize),
                None => r is None,
            },
    {
        let ghost nv = nodes_view(self.nodes@);
        let mut found: Option<usize> = None;
        let mut j: usize = 0;
        while j < self.nodes.len()
            invariant
                j <= self.nodes@.len(),
                nv == nodes_view(self.nodes@),
                match last_labeled(nv.take(j as int), label@) {
                    Some(x) => found == Some(x as usize),
                    None => found is None,
                },
            decreases self.nodes@.len() - j,
        {
            proof {
                lemma_last_labeled_take(nv, label@, j as int);
                assert(nv[j as int] == statement_view(*self.nodes@[j as int]));
            }
            match &self.nodes[j].label {
                Some(l) => {
                    if *l == *label {
                        found = Some(j);
                    }
                },
                None => {},
            }
            j = j + 1;
        }
        assert(nv.take(j as int) =~= nv);
        found
    }

    /// The graph of a script: its statements and those of their blocks, as
    /// `add_statements_to_graph` joins them, the first statement its root;
    /// then an edge from each `goto` to the last statement that carries its
    /// label. The edges are exactly those: `script_graph_edges` lists them.
    pub fn try_from_statements(statements: &'a Vec<LogicScriptStatement<ParsedLogicArgument>>) -> (r: (
        LogicScriptStatementGraph<'a>,
        usize,
    ))
        requires
            statements@.len() >= 1,
        ensures
            r.0.wf(),
            r.1 == 0,
            r.1 < r.0.nodes@.len(),
            nodes_view(r.0.nodes@) == flat(statements@.map_values(|s: LogicScriptStatement<ParsedLogicArgument>| statement_view(s))),
            edges_int(r.0.edges@) == script_graph_edges(
                statements@.map_values(|s: LogicScriptStatement<ParsedLogicArgument>| statement_view(s)),
            ),
    {
        let ghost top = statements@.map_values(|s: LogicScriptStatement<ParsedLogicArgument>| statement_view(s));
        let mut refs: Vec<&'a LogicScriptStatement<ParsedLogicArgument>> = Vec::new();
        let mut i: usize = 0;
        while i < statements.len()
            invariant
                i <= statements@.len(),
                top == statements@.map_values(|s: LogicScriptStatement<ParsedLogicArgument>| statement_view(s)),
                nodes_view(refs@) == top.take(i as int),
            decreases statements@.len() - i,
        {
            let ghost before = refs@;
            refs.push(&statements[i]);
            proof {
                assert(nodes_view(refs@) =~= nodes_view(before).push(statement_view(statements@[i as int])));
                assert(top.take(i + 1) =~= top.take(i as int).push(statement_view(statements@[i as int])));
            }
            i = i + 1;
        }
        proof {
            assert(top.take(i as int) =~= top);
        }
        let mut graph = LogicScriptStatementGraph { nodes: Vec::new(), edges: Vec::new() };
        proof {
            assert(nodes_view(graph.nodes@) =~= Seq::<StatementView>::empty());
            assert(edges_int(graph.edges@) =~= Seq::<EdgeView>::empty());
        }
        let (ids, _) = add_statements_to_graph(&mut graph, &refs);
        proof {
            assert(nodes_view(graph.nodes@) =~= flat(top));
            lemma_block_ids(top, 0);
            assert(ints(ids@).len() == ids@.len());
            assert(top.take(0) =~= Seq::<StatementView>::empty());
            assert(ints(ids@)[0] == ids@[0] as int);
            assert(edges_int(graph.edges@) =~= block_edges(top, 0).0);
        }
        let root_id = ids[0];
        let ghost nv = nodes_view(graph.nodes@);
        let ghost e0 = edges_int(graph.edges@);
        let n = graph.nodes.len();
        let mut k: usize = 0;
        while k < n
            invariant
                n == graph.nodes@.len(),
                k <= n,
                graph.wf(),
                nv == nodes_view(graph.nodes@),
                edges_int(graph.edges@) == e0 + goto_edges(nv, k as int),
            decreases n - k,
        {
            let node = graph.nodes[k];
            proof {
                assert(nv[k as int] == statement_view(*node));
            }
            let ghost gk = edges_int(graph.edges@);
            match node.get_goto_target_label() {
                Some(target) => {
                    match graph.node_for_label(target) {
                        Some(j) => {
                            proof {
                                lemma_last_labeled_bound(nv, target@);
                            }
                            let ghost g0 = graph;
                            graph.add_edge(k, j, LogicScriptStatementGraphEdge::GotoTarget);
                            proof {
                                assert(edges_int(graph.edges@) =~= gk.push((k as int, j as int, LogicScriptStatementGraphEdge::GotoTarget)));
                            }
                        },
                        None => {},
                    }
                },
                None => {},
            }
            proof {
                assert(edges_int(graph.edges@) =~= e0 + goto_edges(nv, k + 1));
            }
            k = k + 1;
        }
        (graph, root_id)
    }
}

/// The `GotoTarget` edges of the first `k` nodes, in node order: from each
/// `goto` to the last node that carries its label, where one does.
pub open spec fn goto_edges(nodes: Seq<StatementView>, k: int) -> Seq<EdgeView>
    decreases k,
{
    if k <= 0 {
        Seq::empty()
    } else {
        goto_edges(nodes, k - 1) + match goto_target(nodes[k - 1]) {
            Some(l) => match last_labeled(nodes, l) {
                Some(j) => seq![(k - 1, j, LogicScriptStatementGraphEdge::GotoTarget)],
                None => Seq::empty(),
            },
            None => Seq::empty(),
        }
    }
}

/// The edges of the graph of a script: those of its statements and blocks,
/// then those of its `goto`s.
pub open spec fn script_graph_edges(top: Seq<StatementView>) -> Seq<EdgeView> {
    block_edges(top, 0).0 + goto_edges(flat(top), flat(top).len() as int)
}

/// The last node carrying a label is a node.
proof fn lemma_last_labeled_bound(nodes: Seq<StatementView>, l: Seq<char>)
    ensures
        last_labeled(nodes, l) matches Some(j) ==> 0 <= j < nodes.len(),
    decreases nodes.len(),
{
    if nodes.len() > 0 && nodes.last().label != Some(l) {
        lemma_last_labeled_bound(nodes.drop_last(), l);
    }
}

/// The target of the edge of `kind` out of `node` added last, which is
/// the one a look-up of that kind finds.
pub open spec fn last_out_edge(edges: Seq<EdgeView>, node: int, kind: LogicScriptStatementGraphEdge) -> Option<int>
    decreases edges.len(),
{
    if edges.len() == 0 {
        None
    } else if edges.last().0 == node && edges.last().2 == kind {
        Some(edges.last().1)
    } else {
        last_out_edge(edges.drop_last(), node, kind)
    }
}

/// The place of the edge from `a` to `b` added last.
pub open spec fn last_edge_between(edges: Seq<EdgeView>, a: int, b: int) -> Option<int>
    decreases edges.len(),
{
    if edges.len() == 0 {
        None
    } else if edges.last().0 == a && edges.last().1 == b {
        Some(edges.len() - 1)
    } else {
        last_edge_between(edges.drop_last(), a, b)
    }
}

/// The edges after an edge from `a` to `b` is given the kind `kind`: the
/// one added last changes its kind, or a new one is added.
pub open spec fn updated_edges(edges: Seq<EdgeView>, a: int, b: int, kind: LogicScriptStatementGraphEdge) -> Seq<EdgeView> {
    match last_edge_between(edges, a, b) {
        Some(i) => edges.update(i, (a, b, kind)),
        None => edges.push((a, b, kind)),
    }
}

/// The `Next` edges as pairs of nodes, in order.
pub open spec fn next_pairs(edges: Seq<EdgeView>) -> Seq<(usize, usize)>
    decreases edges.len(),
{
    if edges.len() == 0 {
        Seq::empty()
    } else {
        next_pairs(edges.drop_last()) + if edges.last().2 == LogicScriptStatementGraphEdge::Next {
            seq![(edges.last().0 as usize, edges.last().1 as usize)]
        } else {
            Seq::empty()
        }
    }
}

/// The edges after the pass on node `node`: a conditional whose `then`
/// statements run on along `Next` edges to its `else` statements has its
/// `else` edge turned into a `Next` edge; nothing changes otherwise.
pub open spec fn post_dominating_else_edges(
    nodes: Seq<StatementView>,
    edges: Seq<EdgeView>,
    node: int,
) -> Option<Seq<EdgeView>> {
    if nodes[node].body is If {
        match (
            last_out_edge(edges, node, LogicScriptStatementGraphEdge::IfThen),
            last_out_edge(edges, node, LogicScriptStatementGraphEdge::IfElse),
        ) {
            (Some(t), Some(e)) => if reaches(next_pairs(edges), t, e) {
                Some(updated_edges(edges, node, e, LogicScriptStatementGraphEdge::Next))
            } else {
                None
            },
            _ => None,
        }
    } else {
        None
    }
}

pub proof fn lemma_last_out_edge_bound(edges: Seq<EdgeView>, node: int, kind: LogicScriptStatementGraphEdge, n: int)
    requires
        forall|k: int| 0 <= k < edges.len() ==> 0 <= (#[trigger] edges[k]).1 < n,
    ensures
        last_out_edge(edges, node, kind) matches Some(t) ==> 0 <= t < n,
    decreases edges.len(),
{
    if edges.len() > 0 {
        lemma_last_out_edge_bound(edges.drop_last(), node, kind, n);
    }
}

impl<'a> LogicScriptStatementGraph<'a> {
    /// The node that the edge of `kind` out of `node` added last leads to.
    pub fn neighbor_of_type(&self, node: usize, kind: LogicScriptStatementGraphEdge) -> (r: Option<usize>)
        requires
            self.wf(),
        ensures
            match last_out_edge(edges_int(self.edges@), node as int, kind) {
                Some(t) => r == Some(t as usize) && t < self.nodes@.len(),
                None => r is None,
            },
            r matches Some(x) ==> x < self.nodes@.len(),
    {
        let ghost ev = edges_int(self.edges@);
        let mut k: usize = self.edges.len();
        proof {
            assert(ev.take(k as int) =~= ev);
        }
        while k > 0
            invariant
                k <= self.edges@.len(),
                ev == edges_int(self.edges@),
                self.wf(),
                last_out_edge(ev, node as int, kind) == last_out_edge(ev.take(k as int), node as int, kind),
            decreases k,
        {
            let (a, b, w) = self.edges[k - 1];
            proof {
                assert(ev.take(k as int).drop_last() =~= ev.take(k - 1));
                assert(ev.take(k as int).last() == (a as int, b as int, w));
            }
            if a == node && w == kind {
                return Some(b);
            }
            k = k - 1;
        }
        proof {
            assert(ev.take(0) =~= Seq::<EdgeView>::empty());
        }
        None
    }

    /// Gives the edge from `a` to `b` the kind `kind`: the edge between them
    /// added last changes its kind, or a new edge is added.
    pub fn update_edge(&mut self, a: usize, b: usize, kind: LogicScriptStatementGraphEdge)
        requires
            old(self).wf(),
            a < old(self).nodes@.len(),
            b < old(self).nodes@.len(),
        ensures
            final(self).wf(),
            final(self).nodes@ == old(self).nodes@,
            edges_int(final(self).edges@) == updated_edges(edges_int(old(self).edges@), a as int, b as int, kind),
    {
        let ghost ev = edges_int(self.edges@);
        let mut k: usize = self.edges.len();
        proof {
            assert(ev.take(k as int) =~= ev);
        }
        while k > 0
            invariant
                k <= self.edges@.len(),
                ev == edges_int(self.edges@),
                self.wf(),
                self.edges@ == old(self).edges@,
                self.nodes@ == old(self).nodes@,
                a < self.nodes@.len(),
                b < self.nodes@.len(),
                last_edge_between(ev, a as int, b as int) == last_edge_between(ev.take(k as int), a as int, b as int),
            decreases k,
        {
            let (x, y, _) = self.edges[k - 1];
            proof {
                assert(ev.take(k as int).drop_last() =~= ev.take(k - 1));
            }
            if x == a && y == b {
                self.edges.set(k - 1, (a, b, kind));
                proof {
                    assert(edges_int(self.edges@) =~= ev.update(k - 1, (a as int, b as int, kind)));
                    assert forall|e: int| 0 <= e < self.edges@.len() implies #[trigger] self.edges@[e].0 < self.nodes@.len()
                        && self.edges@[e].1 < self.nodes@.len() by {
                        if e != k - 1 {
                            assert(self.edges@[e] == old(self).edges@[e]);
                        }
                    }
                }
                return;
            }
            k = k - 1;
        }
        proof {
            assert(ev.take(0) =~= Seq::<EdgeView>::empty());
        }
        self.add_edge(a, b, kind);
        proof {
            assert(edges_int(self.edges@) =~= ev.push((a as int, b as int, kind)));
        }
    }

    /// The `Next` edges as pairs of nodes.
    fn next_pair_list(&self) -> (r: Vec<(usize, usize)>)
        requires
            self.wf(),
        ensures
            r@ == next_pairs(edges_int(self.edges@)),
            edges_within(r@, self.nodes@.len() as nat),
    {
        let ghost ev = edges_int(self.edges@);
        let mut r: Vec<(usize, usize)> = Vec::new();
        let mut k: usize = 0;
        while k < self.edges.len()
            invariant
                k <= self.edges@.len(),
                ev == edges_int(self.edges@),
                self.wf(),
                r@ == next_pairs(ev.take(k as int)),
                edges_within(r@, self.nodes@.len() as nat),
            decreases self.edges@.len() - k,
        {
            let (x, y, w) = self.edges[k];
            proof {
                assert(ev.take(k + 1).drop_last() =~= ev.take(k as int));
                assert(ev.take(k + 1).last() == (x as int, y as int, w));
                assert(self.edges@[k as int] == (x, y, w));
            }
            let ghost before = r@;
            if w == LogicScriptStatementGraphEdge::Next {
                r.push((x, y));
                proof {
                    assert(r@ =~= before + seq![(x, y)]);
                }
            } else {
                proof {
                    assert(r@ =~= before + Seq::<(usize, usize)>::empty());
                }
            }
            proof {
                assert forall|q: int| 0 <= q < r@.len() implies (#[trigger] r@[q]).0 < self.nodes@.len() && r@[q].1 < self.nodes@.len() by {
                    if q < before.len() {
                        assert(r@[q] == before[q]);
                    }
                }
            }
            k = k + 1;
        }
        proof {
            assert(ev.take(k as int) =~= ev);
        }
        r
    }

    /// Where the `then` statements of a conditional run on along `Next`
    /// edges to its `else` statements, the `else` edge becomes a `Next` edge:
    /// the `else` statements follow the conditional instead.
    pub fn transform_post_dominating_else_to_next(&mut self, node_id: usize) -> (r: OptimizationResult)
        requires
            old(self).wf(),
            node_id < old(self).nodes@.len(),
        ensures
            final(self).wf(),
            final(self).nodes@ == old(self).nodes@,
            match post_dominating_else_edges(nodes_view(old(self).nodes@), edges_int(old(self).edges@), node_id as int) {
                Some(e) => r == OptimizationResult::Changed && edges_int(final(self).edges@) == e,
                None => r == OptimizationResult::Unchanged && final(self).edges@ == old(self).edges@,
            },
    {
        let node = self.nodes[node_id];
        proof {
            assert(nodes_view(self.nodes@)[node_id as int] == statement_view(*node));
        }
        match &node.body {
            LogicScriptStatementBody::IfStatement(_) => {},
            _ => {
                return OptimizationResult::Unchanged;
            },
        }
        let then_node_id = match self.neighbor_of_type(node_id, LogicScriptStatementGraphEdge::IfThen) {
            Some(t) => t,
            None => {
                return OptimizationResult::Unchanged;
            },
        };
        let else_node_id = match self.neighbor_of_type(node_id, LogicScriptStatementGraphEdge::IfElse) {
            Some(e) => e,
            None => {
                return OptimizationResult::Unchanged;
            },
        };
        proof {
            let ev = edges_int(self.edges@);
            assert(self.wf());
            assert(ev.len() == self.edges@.len());
            assert forall|k: int| 0 <= k < ev.len() implies 0 <= (#[trigger] ev[k]).1 < self.nodes@.len() by {
                assert(ev[k] == (self.edges@[k].0 as int, self.edges@[k].1 as int, self.edges@[k].2));
                assert(self.edges@[k].1 < self.nodes@.len());
            }
            lemma_last_out_edge_bound(ev, node_id as int, LogicScriptStatementGraphEdge::IfThen, self.nodes@.len() as int);
            lemma_last_out_edge_bound(ev, node_id as int, LogicScriptStatementGraphEdge::IfElse, self.nodes@.len() as int);
        }
        let pairs = self.next_pair_list();
        let reached = reach_from(self.nodes.len(), &pairs, then_node_id, None);
        if reached[else_node_id] {
            self.update_edge(node_id, else_node_id, LogicScriptStatementGraphEdge::Next);
            OptimizationResult::Changed
        } else {
            OptimizationResult::Unchanged
        }
    }
}

/// The `else` rewriting over the nodes in `order`: the edges after it, and
/// whether any `else` edge became a `Next` edge.
pub open spec fn else_pass(nodes: Seq<StatementView>, edges: Seq<EdgeView>, order: Seq<usize>) -> (Seq<EdgeView>, bool)
    decreases order.len(),
{
    if order.len() == 0 {
        (edges, false)
    } else {
        let before = else_pass(nodes, edges, order.drop_last());
        match post_dominating_else_edges(nodes, before.0, order.last() as int) {
            Some(e) => (e, true),
            None => before,
        }
    }
}

impl<'a> LogicScriptStatementGraph<'a> {
    /// Runs the `else` rewriting on each statement, in the order of a
    /// depth-first walk from `root` of the graph as it stands; reports
    /// whether anything changed.
    pub fn run_post_dominating_else_pass(&mut self, root: usize) -> (r: OptimizationResult)
        requires
            old(self).wf(),
            root < old(self).nodes@.len(),
        ensures
            final(self).wf(),
            final(self).nodes@ == old(self).nodes@,
            ({
                let p = else_pass(
                    nodes_view(old(self).nodes@),
                    edges_int(old(self).edges@),
                    dfs_order(edge_pairs(old(self).edges@), old(self).nodes@.len(), root),
                );
                edges_int(final(self).edges@) == p.0 && (r == OptimizationResult::Changed) == p.1
            }),
    {
        let ghost e0 = self.edges@;
        let ghost n = self.nodes@.len();
        let pairs = edge_pairs_of(&self.edges);
        let order = dfs_preorder(self.nodes.len(), &pairs, root);
        proof {
            lemma_dfs_order_bound(pairs@, n, root);
            assert(order@.take(0) =~= Seq::<usize>::empty());
        }
        let mut changed = OptimizationResult::Unchanged;
        let mut i: usize = 0;
        while i < order.len()
            invariant
                i <= order@.len(),
                self.wf(),
                self.nodes@ == old(self).nodes@,
                self.nodes@.len() == n,
                order@ == dfs_order(edge_pairs(e0), n, root),
                forall|j: int| 0 <= j < order@.len() ==> #[trigger] order@[j] < n,
                edges_int(self.edges@) == else_pass(nodes_view(old(self).nodes@), edges_int(e0), order@.take(i as int)).0,
                (changed == OptimizationResult::Changed) == else_pass(
                    nodes_view(old(self).nodes@),
                    edges_int(e0),
                    order@.take(i as int),
                ).1,
            decreases order@.len() - i,
        {
            let id = order[i];
            proof {
                assert(order@.take(i + 1).drop_last() =~= order@.take(i as int));
                assert(order@.take(i + 1).last() == id);
            }
            let r = self.transform_post_dominating_else_to_next(id);
            changed = changed.or(&r);
            i = i + 1;
        }
        proof {
            assert(order@.take(order@.len() as int) =~= order@);
        }
        changed
    }
}

} // verus!
