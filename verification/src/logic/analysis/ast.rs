use vstd::prelude::*;

use std::collections::HashMap;
use vstd::string::StringExecFns;

use crate::formatting::{decimal_digits, decimal_string};

use crate::logic::assembly::codegen::generate_labels;
use crate::logic::assembly::LogicLabel;
use crate::logic::commands::{AGICommand, AGICommandArgType};
use crate::logic::{instruction_address, instructions_view, InstructionView, LogicCommand, LogicConditionClause, LogicInstruction};

verus! {

#[derive(Debug, Clone)]
pub struct LogicASTNodeMetadata {
    pub instruction_address: Option<u16>,
}

#[derive(Debug, Clone)]
pub struct LogicCommandNode {
    pub command: LogicCommand,
    pub label: Option<LogicLabel>,
    pub metadata: LogicASTNodeMetadata,
}

#[derive(Debug, Clone)]
pub struct LogicIfNode {
    pub clauses: Vec<LogicConditionClause>,
    pub label: Option<LogicLabel>,
    pub metadata: LogicASTNodeMetadata,
}

#[derive(Debug, Clone)]
pub struct LogicGotoNode {
    pub label: Option<LogicLabel>,
    pub metadata: LogicASTNodeMetadata,
}

#[derive(Debug, Clone)]
pub enum LogicASTNode {
    Command(LogicCommandNode),
    If(LogicIfNode),
    Goto(LogicGotoNode),
}

impl LogicASTNode {
    pub open spec fn label_of(&self) -> Option<LogicLabel> {
        match self {
            LogicASTNode::Command(node) => node.label,
            LogicASTNode::If(node) => node.label,
            LogicASTNode::Goto(node) => node.label,
        }
    }

    pub open spec fn metadata_of(&self) -> LogicASTNodeMetadata {
        match self {
            LogicASTNode::Command(node) => node.metadata,
            LogicASTNode::If(node) => node.metadata,
            LogicASTNode::Goto(node) => node.metadata,
        }
    }

    pub fn label(&self) -> (r: Option<&LogicLabel>)
        ensures
            r matches Some(l) ==> self.label_of() == Some(*l),
            r is None ==> self.label_of() is None,
    {
        match self {
            LogicASTNode::Command(node) => node.label.as_ref(),
            LogicASTNode::If(node) => node.label.as_ref(),
            LogicASTNode::Goto(node) => node.label.as_ref(),
        }
    }

    pub fn metadata(&self) -> (r: &LogicASTNodeMetadata)
        ensures
            *r == self.metadata_of(),
    {
        match self {
            LogicASTNode::Command(node) => &node.metadata,
            LogicASTNode::If(node) => &node.metadata,
            LogicASTNode::Goto(node) => &node.metadata,
        }
    }
}

#[derive(Debug, Clone, Copy, PartialEq, Eq, Structural, Hash)]
pub enum LogicASTEdge {
    CommandToNext,
    IfThen,
    IfElse,
    GotoToTarget,
}

/// Why bytecode could not be read as a graph. Besides a jump to an address
/// where no instruction stands, a cycle of jumps with nothing else in it, on
/// which reading would recurse without end, and a program whose addresses
/// leave no room for the jump that ends a conditional, where the address
/// counter would overflow.
#[derive(Debug, Clone, Copy, PartialEq, Eq, Structural)]
pub enum DecompilationError {
    InvalidJump { target_address: u16, current_address: u16 },
    JumpCycle { target_address: u16, current_address: u16 },
    AddressOverflow { current_address: u16 },
}

impl DecompilationError {
    /// The error as it is reported.
    pub fn to_string(&self) -> (r: String)
        ensures
            match *self {
                DecompilationError::InvalidJump { target_address, current_address } => r@
                    == "Invalid jump to "@ + decimal_digits(target_address as nat) + " at "@ + decimal_digits(
                    current_address as nat,
                ),
                DecompilationError::JumpCycle { target_address, current_address } => r@ == "Jump cycle through "@
                    + decimal_digits(target_address as nat) + " at "@ + decimal_digits(current_address as nat),
                DecompilationError::AddressOverflow { current_address } => r@ == "No address after "@
                    + decimal_digits(current_address as nat),
            },
    {
        proof {
            reveal_strlit("Invalid jump to ");
            reveal_strlit("Jump cycle through ");
            reveal_strlit(" at ");
            reveal_strlit("No address after ");
        }
        match *self {
            DecompilationError::InvalidJump { target_address, current_address } => {
                let mut s = String::from_str("Invalid jump to ");
                s.append(decimal_string(target_address as u32).as_str());
                s.append(" at ");
                s.append(decimal_string(current_address as u32).as_str());
                s
            },
            DecompilationError::JumpCycle { target_address, current_address } => {
                let mut s = String::from_str("Jump cycle through ");
                s.append(decimal_string(target_address as u32).as_str());
                s.append(" at ");
                s.append(decimal_string(current_address as u32).as_str());
                s
            },
            DecompilationError::AddressOverflow { current_address } => {
                let mut s = String::from_str("No address after ");
                s.append(decimal_string(current_address as u32).as_str());
                s
            },
        }
    }
}

/// An instruction waiting to become a node.
#[derive(Debug, Clone)]
pub struct UnresolvedIfNode {
    pub address: u16,
    pub clauses: Vec<LogicConditionClause>,
    pub else_goto_address: u16,
}

#[derive(Debug, Clone, Copy)]
pub struct UnresolvedGotoNode {
    pub address: u16,
    pub jump_target_address: u16,
}

#[derive(Debug, Clone)]
pub enum UnresolvedLogicASTNode {
    Command(LogicCommand),
    If(UnresolvedIfNode),
    Goto(UnresolvedGotoNode),
}

pub open spec fn unresolved_address(n: UnresolvedLogicASTNode) -> u16 {
    match n {
        UnresolvedLogicASTNode::Command(c) => c.address,
        UnresolvedLogicASTNode::If(i) => i.address,
        UnresolvedLogicASTNode::Goto(g) => g.address,
    }
}

/// An instruction waiting to become a node, as far as reading it as a graph
/// looks at it: its address, whether a command is `return`, and where a
/// conditional skips to or a jump jumps.
pub enum UnresolvedView {
    Command { address: u16, is_return: bool },
    If { address: u16, skip: u16 },
    Goto { address: u16, target: u16 },
}

pub open spec fn unresolved_view(n: UnresolvedLogicASTNode) -> UnresolvedView {
    match n {
        UnresolvedLogicASTNode::Command(c) => UnresolvedView::Command {
            address: c.address,
            is_return: c.agi_command.name@ == "return"@,
        },
        UnresolvedLogicASTNode::If(i) => UnresolvedView::If { address: i.address, skip: i.else_goto_address },
        UnresolvedLogicASTNode::Goto(g) => UnresolvedView::Goto { address: g.address, target: g.jump_target_address },
    }
}

/// How an instruction waits to become a node.
pub open spec fn instruction_unresolved(i: InstructionView) -> UnresolvedView {
    match i {
        InstructionView::Command { address, command, .. } => UnresolvedView::Command {
            address,
            is_return: command.name == "return"@,
        },
        InstructionView::Condition { address, skip_address, .. } => UnresolvedView::If { address, skip: skip_address },
        InstructionView::Goto { address, jump_address } => UnresolvedView::Goto { address, target: jump_address },
    }
}

pub open spec fn uv_address(u: UnresolvedView) -> u16 {
    match u {
        UnresolvedView::Command { address, .. } => address,
        UnresolvedView::If { address, .. } => address,
        UnresolvedView::Goto { address, .. } => address,
    }
}

/// Where a jump goes (a conditional's skip address; a command's own address).
pub open spec fn uv_target(u: UnresolvedView) -> u16 {
    match u {
        UnresolvedView::Command { address, .. } => address,
        UnresolvedView::If { skip, .. } => skip,
        UnresolvedView::Goto { target, .. } => target,
    }
}

fn copy_command(c: &LogicCommand) -> (r: LogicCommand)
    ensures
        r.address == c.address,
        r.agi_command@ == c.agi_command@,
        r.args@ == c.args@,
{
    LogicCommand {
        address: c.address,
        agi_command: AGICommand { opcode: c.agi_command.opcode, name: c.agi_command.name.clone(), arg_types: copy_types(&c.agi_command.arg_types) },
        args: copy_u8s(&c.args),
    }
}

fn copy_types(v: &Vec<AGICommandArgType>) -> (r: Vec<AGICommandArgType>)
    ensures
        r@ == v@,
{
    let mut r: Vec<AGICommandArgType> = Vec::new();
    let mut i: usize = 0;
    while i < v.len()
        invariant
            i <= v@.len(),
            r@ == v@.take(i as int),
        decreases v@.len() - i,
    {
        r.push(v[i]);
        i = i + 1;
        assert(r@ =~= v@.take(i as int));
    }
    assert(v@.take(i as int) =~= v@);
    r
}

fn copy_u8s(v: &Vec<u8>) -> (r: Vec<u8>)
    ensures
        r@ == v@,
{
    let mut r: Vec<u8> = Vec::new();
    let mut i: usize = 0;
    while i < v.len()
        invariant
            i <= v@.len(),
            r@ == v@.take(i as int),
        decreases v@.len() - i,
    {
        r.push(v[i]);
        i = i + 1;
        assert(r@ =~= v@.take(i as int));
    }
    assert(v@.take(i as int) =~= v@);
    r
}

impl UnresolvedLogicASTNode {
    /// The node an instruction waits as: a command, a conditional whose skip
    /// address is where its else branch jumps, or a jump.
    pub fn from_instruction(instruction: &LogicInstruction) -> (r: UnresolvedLogicASTNode)
        ensures
            unresolved_view(r) == instruction_unresolved(instruction@),
            unresolved_address(r) == instruction_address(instruction@),
    {
        match instruction {
            LogicInstruction::Command(c) => UnresolvedLogicASTNode::Command(copy_command(c)),
            LogicInstruction::Condition(c) => UnresolvedLogicASTNode::If(
                UnresolvedIfNode { address: c.address, clauses: c.clauses.clone(), else_goto_address: c.skip_address },
            ),
            LogicInstruction::Goto(g) => UnresolvedLogicASTNode::Goto(
                UnresolvedGotoNode { address: g.address, jump_target_address: g.jump_address },
            ),
        }
    }

    pub fn address(&self) -> (r: u16)
        ensures
            r == unresolved_address(*self),
            r == uv_address(unresolved_view(*self)),
    {
        match self {
            UnresolvedLogicASTNode::Command(c) => c.address,
            UnresolvedLogicASTNode::If(i) => i.address,
            UnresolvedLogicASTNode::Goto(g) => g.address,
        }
    }

    pub fn jump_target(&self) -> (r: u16)
        ensures
            r == uv_target(unresolved_view(*self)),
    {
        match self {
            UnresolvedLogicASTNode::Command(c) => c.address,
            UnresolvedLogicASTNode::If(i) => i.else_goto_address,
            UnresolvedLogicASTNode::Goto(g) => g.jump_target_address,
        }
    }

    /// A copy that waits the same way.
    pub fn duplicate(&self) -> (r: UnresolvedLogicASTNode)
        ensures
            unresolved_view(r) == unresolved_view(*self),
            unresolved_address(r) == unresolved_address(*self),
            r is Command <==> *self is Command,
            r is If <==> *self is If,
            r is Goto <==> *self is Goto,
    {
        match self {
            UnresolvedLogicASTNode::Command(c) => UnresolvedLogicASTNode::Command(copy_command(c)),
            UnresolvedLogicASTNode::If(i) => UnresolvedLogicASTNode::If(
                UnresolvedIfNode { address: i.address, clauses: i.clauses.clone(), else_goto_address: i.else_goto_address },
            ),
            UnresolvedLogicASTNode::Goto(g) => UnresolvedLogicASTNode::Goto(*g),
        }
    }
}

/// What reading bytecode as a graph keeps: the instructions (with a jump
/// added at the end for each conditional's skip target), which of them have
/// been started, and the graph so far, with the node of each address.
pub struct AstBuilder {
    pub unresolved: Vec<UnresolvedLogicASTNode>,
    pub started: Vec<bool>,
    pub original_len: usize,
    pub nodes: Vec<LogicASTNode>,
    pub edges: Vec<(usize, usize, LogicASTEdge)>,
    pub nodes_by_address: HashMap<u16, usize>,
    /// A conditional gets a `then` edge only where an instruction waits
    /// after it when it is read (the reading of the script graph).
    pub then_needs_next: bool,
}

/// The edges join nodes of the graph, the node of each address is a node of
/// the graph and carries that address.
pub open spec fn graph_wf(
    nodes: Seq<LogicASTNode>,
    edges: Seq<(usize, usize, LogicASTEdge)>,
    by_address: Map<u16, usize>,
) -> bool {
    &&& forall|e: int| 0 <= e < edges.len() ==> #[trigger] edges[e].0 < nodes.len() && edges[e].1 < nodes.len()
    &&& forall|a: u16| #[trigger] by_address.contains_key(a) ==> by_address[a] < nodes.len()
        && nodes[by_address[a] as int].metadata_of().instruction_address == Some(a)
}

/// How much reading is left at most: two for each instruction of the
/// program not yet started, one for each added jump.
pub open spec fn pending_weight(started: Seq<bool>, n0: nat) -> nat
    decreases started.len(),
{
    if started.len() == 0 {
        0
    } else {
        let i = started.len() - 1;
        pending_weight(started.drop_last(), n0) + if started[i] {
            0nat
        } else if i < n0 {
            2nat
        } else {
            1nat
        }
    }
}

pub proof fn lemma_pending_mark(started: Seq<bool>, n0: nat, i: int)
    requires
        0 <= i < started.len(),
        !started[i],
    ensures
        pending_weight(started.update(i, true), n0) + (if i < n0 { 2nat } else { 1nat }) == pending_weight(started, n0),
    decreases started.len(),
{
    let u = started.update(i, true);
    if i < started.len() - 1 {
        assert(u.drop_last() =~= started.drop_last().update(i, true));
        lemma_pending_mark(started.drop_last(), n0, i);
    } else {
        assert(u.drop_last() =~= started.drop_last());
    }
}

pub proof fn lemma_pending_push(started: Seq<bool>, n0: nat)
    requires
        n0 <= started.len(),
    ensures
        pending_weight(started.push(false), n0) == pending_weight(started, n0) + 1,
{
    assert(started.push(false).drop_last() =~= started);
}

impl AstBuilder {
    pub open spec fn wf(&self) -> bool {
        &&& self.started@.len() == self.unresolved@.len()
        &&& self.original_len <= self.unresolved@.len()
        &&& forall|i: int| self.original_len <= i < self.unresolved@.len() ==> #[trigger] self.unresolved@[i] is Goto
        &&& graph_wf(self.nodes@, self.edges@, self.nodes_by_address@)
    }

    pub open spec fn weight(&self) -> nat {
        pending_weight(self.started@, self.original_len as nat)
    }

    /// `new` comes from `self` by reading on: instructions and nodes are
    /// only added, what was started stays started, and each address keeps
    /// a node.
    pub open spec fn extends_to(&self, new: AstBuilder) -> bool {
        &&& new.original_len == self.original_len
        &&& new.then_needs_next == self.then_needs_next
        &&& self.unresolved@.len() <= new.unresolved@.len()
        &&& forall|i: int| 0 <= i < self.unresolved@.len() ==> #[trigger] new.unresolved@[i] == self.unresolved@[i]
        &&& self.started@.len() <= new.started@.len()
        &&& forall|i: int| 0 <= i < self.started@.len() && self.started@[i] ==> #[trigger] new.started@[i]
        &&& self.nodes@.len() <= new.nodes@.len()
        &&& forall|i: int| 0 <= i < self.nodes@.len() ==> #[trigger] new.nodes@[i] == self.nodes@[i]
        &&& forall|a: u16| #[trigger] self.nodes_by_address@.contains_key(a) ==> new.nodes_by_address@.contains_key(a)
        &&& new.weight() <= self.weight()
    }

    fn add_node(&mut self, node: LogicASTNode, address: u16) -> (k: usize)
        requires
            old(self).wf(),
            node.metadata_of().instruction_address == Some(address),
        ensures
            final(self).wf(),
            k == old(self).nodes@.len(),
            final(self).nodes@ == old(self).nodes@.push(node),
            final(self).nodes_by_address@ == old(self).nodes_by_address@.insert(address, k),
            final(self).edges@ == old(self).edges@,
            final(self).unresolved@ == old(self).unresolved@,
            final(self).started@ == old(self).started@,
            final(self).original_len == old(self).original_len,
            final(self).then_needs_next == old(self).then_needs_next,
    {
        broadcast use vstd::std_specs::hash::group_hash_axioms;
        let k = self.nodes.len();
        self.nodes.push(node);
        self.nodes_by_address.insert(address, k);
        proof {
            assert forall|e: int| 0 <= e < self.edges@.len() implies #[trigger] self.edges@[e].0 < self.nodes@.len()
                && self.edges@[e].1 < self.nodes@.len() by {
                assert(old(self).edges@[e].0 < old(self).nodes@.len());
            }
            assert forall|a: u16| #[trigger] self.nodes_by_address@.contains_key(a) implies self.nodes_by_address@[a]
                < self.nodes@.len() && self.nodes@[self.nodes_by_address@[a] as int].metadata_of().instruction_address
                == Some(a) by {
                if a != address {
                    assert(old(self).nodes_by_address@.contains_key(a));
                }
            }
        }
        k
    }

    fn add_edge(&mut self, from: usize, to: usize, edge: LogicASTEdge)
        requires
            old(self).wf(),
            from < old(self).nodes@.len(),
            to < old(self).nodes@.len(),
        ensures
            final(self).wf(),
            final(self).edges@ == old(self).edges@.push((from, to, edge)),
            final(self).nodes@ == old(self).nodes@,
            final(self).nodes_by_address@ == old(self).nodes_by_address@,
            final(self).unresolved@ == old(self).unresolved@,
            final(self).started@ == old(self).started@,
            final(self).original_len == old(self).original_len,
            final(self).then_needs_next == old(self).then_needs_next,
    {
        self.edges.push((from, to, edge));
        proof {
            assert forall|e: int| 0 <= e < self.edges@.len() implies #[trigger] self.edges@[e].0 < self.nodes@.len()
                && self.edges@[e].1 < self.nodes@.len() by {
                if e < old(self).edges@.len() {
                    assert(self.edges@[e] == old(self).edges@[e]);
                }
            }
        }
    }
}

proof fn lemma_extends_trans(a: AstBuilder, b: AstBuilder, c: AstBuilder)
    requires
        a.extends_to(b),
        b.extends_to(c),
    ensures
        a.extends_to(c),
{
    assert forall|i: int| 0 <= i < a.started@.len() && a.started@[i] implies #[trigger] c.started@[i] by {
        assert(b.started@[i]);
    }
    assert forall|i: int| 0 <= i < a.nodes@.len() implies #[trigger] c.nodes@[i] == a.nodes@[i] by {
        assert(c.nodes@[i] == b.nodes@[i]);
    }
    assert forall|i: int| 0 <= i < a.unresolved@.len() implies #[trigger] c.unresolved@[i] == a.unresolved@[i] by {
        assert(c.unresolved@[i] == b.unresolved@[i]);
    }
    assert forall|x: u16| #[trigger] a.nodes_by_address@.contains_key(x) implies c.nodes_by_address@.contains_key(x) by {
        assert(b.nodes_by_address@.contains_key(x));
    }
}

fn label_at(labels: &HashMap<u16, LogicLabel>, address: u16) -> (r: Option<LogicLabel>)
{
    match labels.get(&address) {
        Some(l) => Some(l.clone()),
        None => None,
    }
}

/// What kind of node a node is.
pub enum NodeKind {
    Command,
    If,
    Goto,
}

/// A node as far as the graph's shape goes: its kind and the address of the
/// instruction it stands for.
pub struct NodeView {
    pub kind: NodeKind,
    pub address: Option<u16>,
}

pub open spec fn node_view(n: LogicASTNode) -> NodeView {
    match n {
        LogicASTNode::Command(c) => NodeView { kind: NodeKind::Command, address: c.metadata.instruction_address },
        LogicASTNode::If(i) => NodeView { kind: NodeKind::If, address: i.metadata.instruction_address },
        LogicASTNode::Goto(g) => NodeView { kind: NodeKind::Goto, address: g.metadata.instruction_address },
    }
}

/// The state of reading bytecode as a graph, as values.
pub struct BuildView {
    pub unresolved: Seq<UnresolvedView>,
    pub started: Seq<bool>,
    pub nodes: Seq<NodeView>,
    pub edges: Seq<(int, int, LogicASTEdge)>,
    pub by_address: Map<u16, int>,
    pub then_needs_next: bool,
}

pub open spec fn edges_view(e: Seq<(usize, usize, LogicASTEdge)>) -> Seq<(int, int, LogicASTEdge)> {
    e.map_values(|x: (usize, usize, LogicASTEdge)| (x.0 as int, x.1 as int, x.2))
}

impl AstBuilder {
    pub open spec fn view_of(&self) -> BuildView {
        BuildView {
            unresolved: self.unresolved@.map_values(|u: UnresolvedLogicASTNode| unresolved_view(u)),
            started: self.started@,
            nodes: self.nodes@.map_values(|n: LogicASTNode| node_view(n)),
            edges: edges_view(self.edges@),
            by_address: self.nodes_by_address@.map_values(|k: usize| k as int),
            then_needs_next: self.then_needs_next,
        }
    }
}

pub open spec fn sv_add_node(s: BuildView, kind: NodeKind, address: u16) -> BuildView {
    BuildView {
        nodes: s.nodes.push(NodeView { kind, address: Some(address) }),
        by_address: s.by_address.insert(address, s.nodes.len() as int),
        ..s
    }
}

pub open spec fn sv_add_edge(s: BuildView, from: int, to: int, edge: LogicASTEdge) -> BuildView {
    BuildView { edges: s.edges.push((from, to, edge)), ..s }
}

pub open spec fn sv_mark(s: BuildView, i: int) -> BuildView {
    BuildView { started: s.started.update(i, true), ..s }
}

pub open spec fn sv_push_goto(s: BuildView, address: u16, target: u16) -> BuildView {
    BuildView {
        unresolved: s.unresolved.push(UnresolvedView::Goto { address, target }),
        started: s.started.push(false),
        ..s
    }
}

/// The first instruction at address `t`.
pub open spec fn position(us: Seq<UnresolvedView>, t: u16) -> Option<int>
    decreases us.len(),
{
    if us.len() == 0 {
        None
    } else {
        match position(us.drop_last(), t) {
            Some(p) => Some(p),
            None => if uv_address(us.last()) == t {
                Some(us.len() - 1)
            } else {
                None
            },
        }
    }
}

/// The highest address of the instructions (0 for none).
pub open spec fn max_address(us: Seq<UnresolvedView>) -> u16
    decreases us.len(),
{
    if us.len() == 0 {
        0
    } else {
        let m = max_address(us.drop_last());
        let a = uv_address(us.last());
        if a > m {
            a
        } else {
            m
        }
    }
}

/// How following jumps from a jump ends: at a node already made, at an
/// instruction not yet read, at an address where no instruction stands, or
/// back at a jump of the chain.
pub enum WalkEnd {
    Mapped(int),
    Fresh(int),
    Invalid(u16, u16),
    Cycle(u16, u16),
}

/// Follows the jump at `cur` through jumps that are being read and have no
/// node yet; `chain` holds the jumps passed, `visited` marks them.
pub open spec fn walk(s: BuildView, cur: int, visited: Seq<bool>, chain: Seq<int>) -> (Seq<int>, WalkEnd)
    decreases pending_weight(visited, 0),
{
    let t = uv_target(s.unresolved[cur]);
    let from = uv_address(s.unresolved[cur]);
    if s.by_address.contains_key(t) {
        (chain, WalkEnd::Mapped(s.by_address[t]))
    } else {
        match position(s.unresolved, t) {
            None => (chain, WalkEnd::Invalid(t, from)),
            Some(p) => if !s.started[p] {
                (chain, WalkEnd::Fresh(p))
            } else if 0 <= p < visited.len() && !visited[p] {
                proof {
                    lemma_pending_mark(visited, 0, p);
                }
                walk(s, p, visited.update(p, true), chain.push(p))
            } else {
                (chain, WalkEnd::Cycle(t, from))
            },
        }
    }
}

pub open spec fn only_visited(n: nat, x: int) -> Seq<bool> {
    Seq::new(n, |i: int| i == x)
}

/// Makes the nodes of the jumps of `chain`, the last first, each with an
/// edge to the node made before it, the first of them to `target`.
pub open spec fn build_chain(s: BuildView, chain: Seq<int>, target: int) -> (BuildView, int)
    decreases chain.len(),
{
    if chain.len() == 0 {
        (s, target)
    } else {
        let x = chain.last();
        let k = s.nodes.len() as int;
        let s1 = sv_add_node(s, NodeKind::Goto, uv_address(s.unresolved[x]));
        build_chain(sv_add_edge(s1, k, target, LogicASTEdge::GotoToTarget), chain.drop_last(), k)
    }
}

pub open spec fn fuel_out() -> DecompilationError {
    DecompilationError::JumpCycle { target_address: 0, current_address: 0 }
}

/// Reading instruction `i` as a node: the node of its address if there is
/// one; otherwise the instruction is started and its node made, then (a
/// command that does not return) the next instruction's, (a conditional)
/// the next instruction's and that of a jump added for its skip address, or
/// (a jump) the nodes of the jumps it chains through.
pub open spec fn resolve_spec(s: BuildView, i: int, fuel: nat) -> (BuildView, Result<int, DecompilationError>)
    decreases fuel,
{
    if fuel == 0 {
        (s, Err(fuel_out()))
    } else {
        let u = s.unresolved[i];
        let a = uv_address(u);
        if s.by_address.contains_key(a) {
            (s, Ok(s.by_address[a]))
        } else {
            let s1 = sv_mark(s, i);
            let k = s1.nodes.len() as int;
            match u {
                UnresolvedView::Command { is_return, .. } => {
                    let s2 = sv_add_node(s1, NodeKind::Command, a);
                    if !is_return && i + 1 < s2.unresolved.len() {
                        let (s3, r) = resolve_at_spec(s2, i + 1, (fuel - 1) as nat);
                        match r {
                            Ok(n) => (sv_add_edge(s3, k, n, LogicASTEdge::CommandToNext), Ok(k)),
                            Err(e) => (s3, Err(e)),
                        }
                    } else {
                        (s2, Ok(k))
                    }
                },
                UnresolvedView::If { skip, .. } => {
                    let s2 = sv_add_node(s1, NodeKind::If, a);
                    let m = max_address(s2.unresolved);
                    if m == 0xffff {
                        (s2, Err(DecompilationError::AddressOverflow { current_address: a }))
                    } else {
                        let g = s2.unresolved.len() as int;
                        let s3 = sv_push_goto(s2, (m + 1) as u16, skip);
                        if !s.then_needs_next || i + 1 < g {
                            let (s4, r1) = resolve_at_spec(s3, i + 1, (fuel - 1) as nat);
                            match r1 {
                                Err(e) => (s4, Err(e)),
                                Ok(n1) => {
                                    let s5 = sv_add_edge(s4, k, n1, LogicASTEdge::IfThen);
                                    let (s6, r2) = resolve_at_spec(s5, g, (fuel - 1) as nat);
                                    match r2 {
                                        Err(e) => (s6, Err(e)),
                                        Ok(n2) => (sv_add_edge(s6, k, n2, LogicASTEdge::IfElse), Ok(k)),
                                    }
                                },
                            }
                        } else {
                            let (s6, r2) = resolve_at_spec(s3, g, (fuel - 1) as nat);
                            match r2 {
                                Err(e) => (s6, Err(e)),
                                Ok(n2) => (sv_add_edge(s6, k, n2, LogicASTEdge::IfElse), Ok(k)),
                            }
                        }
                    }
                },
                UnresolvedView::Goto { .. } => resolve_goto_spec(s1, i, (fuel - 1) as nat),
            }
        }
    }
}

/// The node of instruction `j` when something leads to it: the node of its
/// address if there is one, else it is read now; a jump that is being read
/// and has no node yet is followed again.
pub open spec fn resolve_at_spec(s: BuildView, j: int, fuel: nat) -> (BuildView, Result<int, DecompilationError>)
    decreases fuel,
{
    if fuel == 0 {
        (s, Err(fuel_out()))
    } else {
        let a = uv_address(s.unresolved[j]);
        if s.by_address.contains_key(a) {
            (s, Ok(s.by_address[a]))
        } else if !s.started[j] {
            resolve_spec(s, j, (fuel - 1) as nat)
        } else {
            resolve_goto_spec(s, j, (fuel - 1) as nat)
        }
    }
}

/// The node of the jump at `x`: the jumps it chains through are followed to
/// a node (made now if need be), then their nodes are made. A jump to no
/// instruction is `InvalidJump`; a chain of jumps back to itself is
/// `JumpCycle`.
pub open spec fn resolve_goto_spec(s: BuildView, x: int, fuel: nat) -> (BuildView, Result<int, DecompilationError>)
    decreases fuel,
{
    if fuel == 0 {
        (s, Err(fuel_out()))
    } else {
        let (chain, end) = walk(s, x, only_visited(s.unresolved.len(), x), seq![x]);
        match end {
            WalkEnd::Mapped(n) => {
                let (s1, k) = build_chain(s, chain, n);
                (s1, Ok(k))
            },
            WalkEnd::Invalid(t, c) => (s, Err(DecompilationError::InvalidJump { target_address: t, current_address: c })),
            WalkEnd::Cycle(t, c) => (s, Err(DecompilationError::JumpCycle { target_address: t, current_address: c })),
            WalkEnd::Fresh(p) => {
                let (s1, r) = resolve_spec(s, p, (fuel - 1) as nat);
                match r {
                    Ok(n) => {
                        let (s2, k) = build_chain(s1, chain, n);
                        (s2, Ok(k))
                    },
                    Err(e) => (s1, Err(e)),
                }
            },
        }
    }
}

/// The target of the first edge of `kind` out of `node`.
pub open spec fn first_out_edge(edges: Seq<(int, int, LogicASTEdge)>, node: int, kind: LogicASTEdge) -> Option<int>
    decreases edges.len(),
{
    if edges.len() == 0 {
        None
    } else if edges[0].0 == node && edges[0].2 == kind {
        Some(edges[0].1)
    } else {
        first_out_edge(edges.drop_first(), node, kind)
    }
}

/// The target of the first edge of a kind out of a node is a node index.
pub proof fn lemma_first_out_edge_index(edges: Seq<(usize, usize, LogicASTEdge)>, node: int, kind: LogicASTEdge)
    ensures
        first_out_edge(edges_view(edges), node, kind) matches Some(t) ==> 0 <= t <= usize::MAX,
    decreases edges.len(),
{
    if edges.len() > 0 {
        assert(edges_view(edges).drop_first() =~= edges_view(edges.drop_first()));
        lemma_first_out_edge_index(edges.drop_first(), node, kind);
    }
}

pub open spec fn res_int(r: Result<usize, DecompilationError>) -> Result<int, DecompilationError> {
    match r {
        Ok(k) => Ok(k as int),
        Err(e) => Err(e),
    }
}

proof fn lemma_view_add_node(a: AstBuilder, b: AstBuilder, node: LogicASTNode, kind: NodeKind, address: u16, k: usize)
    requires
        k == a.nodes@.len(),
        b.nodes@ == a.nodes@.push(node),
        b.nodes_by_address@ == a.nodes_by_address@.insert(address, k),
        b.edges@ == a.edges@,
        b.unresolved@ == a.unresolved@,
        b.started@ == a.started@,
        b.then_needs_next == a.then_needs_next,
        node_view(node) == (NodeView { kind, address: Some(address) }),
    ensures
        b.view_of() == sv_add_node(a.view_of(), kind, address),
{
    assert(b.view_of().nodes =~= sv_add_node(a.view_of(), kind, address).nodes);
    assert forall|x: u16| #[trigger] b.view_of().by_address.contains_key(x) == sv_add_node(a.view_of(), kind, address).by_address.contains_key(x)
        && (b.view_of().by_address.contains_key(x) ==> b.view_of().by_address[x] == sv_add_node(a.view_of(), kind, address).by_address[x]) by {
        if x != address {
            if a.nodes_by_address@.contains_key(x) {
                assert(b.view_of().by_address[x] == a.nodes_by_address@[x] as int);
            }
        }
    }
    assert(b.view_of().by_address =~= sv_add_node(a.view_of(), kind, address).by_address);
}

proof fn lemma_view_add_edge(a: AstBuilder, b: AstBuilder, from: usize, to: usize, edge: LogicASTEdge)
    requires
        b.edges@ == a.edges@.push((from, to, edge)),
        b.nodes@ == a.nodes@,
        b.nodes_by_address@ == a.nodes_by_address@,
        b.unresolved@ == a.unresolved@,
        b.started@ == a.started@,
        b.then_needs_next == a.then_needs_next,
    ensures
        b.view_of() == sv_add_edge(a.view_of(), from as int, to as int, edge),
{
    assert(b.view_of().edges =~= sv_add_edge(a.view_of(), from as int, to as int, edge).edges);
}

pub enum ChainEnd {
    Mapped(usize),
    Fresh(usize),
    Invalid(u16, u16),
    Cycle(u16, u16),
}

pub open spec fn chain_end_view(e: ChainEnd) -> WalkEnd {
    match e {
        ChainEnd::Mapped(k) => WalkEnd::Mapped(k as int),
        ChainEnd::Fresh(p) => WalkEnd::Fresh(p as int),
        ChainEnd::Invalid(t, c) => WalkEnd::Invalid(t, c),
        ChainEnd::Cycle(t, c) => WalkEnd::Cycle(t, c),
    }
}

pub open spec fn indices_view(v: Seq<usize>) -> Seq<int> {
    v.map_values(|x: usize| x as int)
}

fn position_of(b: &AstBuilder, t: u16) -> (r: Option<usize>)
    ensures
        match position(b.view_of().unresolved, t) {
            Some(p) => r == Some(p as usize) && 0 <= p < b.unresolved@.len(),
            None => r is None,
        },
{
    let ghost us = b.view_of().unresolved;
    let mut found: Option<usize> = None;
    let mut i: usize = 0;
    while i < b.unresolved.len()
        invariant
            i <= b.unresolved@.len(),
            us == b.view_of().unresolved,
            us.len() == b.unresolved@.len(),
            match position(us.take(i as int), t) {
                Some(p) => found == Some(p as usize) && 0 <= p < i,
                None => found is None,
            },
        decreases b.unresolved@.len() - i,
    {
        proof {
            assert(us.take(i + 1).drop_last() =~= us.take(i as int));
            assert(us[i as int] == unresolved_view(b.unresolved@[i as int]));
        }
        if found.is_none() && b.unresolved[i].address() == t {
            found = Some(i);
        }
        i = i + 1;
    }
    assert(us.take(i as int) =~= us);
    found
}

fn max_address_of(b: &AstBuilder) -> (r: u16)
    ensures
        r == max_address(b.view_of().unresolved),
{
    let ghost us = b.view_of().unresolved;
    let mut m: u16 = 0;
    let mut i: usize = 0;
    while i < b.unresolved.len()
        invariant
            i <= b.unresolved@.len(),
            us == b.view_of().unresolved,
            us.len() == b.unresolved@.len(),
            m == max_address(us.take(i as int)),
        decreases b.unresolved@.len() - i,
    {
        proof {
            assert(us.take(i + 1).drop_last() =~= us.take(i as int));
            assert(us[i as int] == unresolved_view(b.unresolved@[i as int]));
        }
        let a = b.unresolved[i].address();
        if a > m {
            m = a;
        }
        i = i + 1;
    }
    assert(us.take(i as int) =~= us);
    m
}

/// Follows the jump at `x` through jumps being read that have no node yet.
fn walk_exec(b: &AstBuilder, x: usize) -> (r: (Vec<usize>, ChainEnd))
    requires
        b.wf(),
        x < b.unresolved@.len(),
    ensures
        (indices_view(r.0@), chain_end_view(r.1)) == walk(
            b.view_of(),
            x as int,
            only_visited(b.unresolved@.len() as nat, x as int),
            seq![x as int],
        ),
        forall|k: int| 0 <= k < r.0@.len() ==> #[trigger] r.0@[k] < b.unresolved@.len(),
        r.1 matches ChainEnd::Mapped(k) ==> k < b.nodes@.len(),
        r.1 matches ChainEnd::Fresh(p) ==> p < b.unresolved@.len() && !b.started@[p as int],
{
    broadcast use vstd::std_specs::hash::group_hash_axioms;
    let ghost s = b.view_of();
    let n = b.unresolved.len();
    let mut visited: Vec<bool> = Vec::new();
    let mut i: usize = 0;
    while i < n
        invariant
            n == b.unresolved@.len(),
            i <= n,
            visited@ == only_visited(n as nat, x as int).take(i as int),
        decreases n - i,
    {
        visited.push(i == x);
        i = i + 1;
        assert(visited@ =~= only_visited(n as nat, x as int).take(i as int));
    }
    assert(visited@ =~= only_visited(n as nat, x as int));
    let mut chain: Vec<usize> = Vec::new();
    chain.push(x);
    assert(indices_view(chain@) =~= seq![x as int]);
    let mut cur = x;
    loop
        invariant
            b.wf(),
            s == b.view_of(),
            n == b.unresolved@.len(),
            cur < n,
            visited@.len() == n,
            forall|k: int| 0 <= k < chain@.len() ==> #[trigger] chain@[k] < n,
            walk(s, x as int, only_visited(n as nat, x as int), seq![x as int]) == walk(
                s,
                cur as int,
                visited@,
                indices_view(chain@),
            ),
        decreases pending_weight(visited@, 0),
    {
        let t = b.unresolved[cur].jump_target();
        let from = b.unresolved[cur].address();
        proof {
            assert(s.unresolved[cur as int] == unresolved_view(b.unresolved@[cur as int]));
        }
        match b.nodes_by_address.get(&t) {
            Some(k) => {
                return (chain, ChainEnd::Mapped(*k));
            },
            None => {},
        }
        match position_of(b, t) {
            None => {
                return (chain, ChainEnd::Invalid(t, from));
            },
            Some(p) => {
                if !b.started[p] {
                    return (chain, ChainEnd::Fresh(p));
                } else if !visited[p] {
                    proof {
                        lemma_pending_mark(visited@, 0, p as int);
                    }
                    let ghost before = chain@;
                    visited.set(p, true);
                    chain.push(p);
                    proof {
                        assert(indices_view(chain@) =~= indices_view(before).push(p as int));
                    }
                    cur = p;
                } else {
                    return (chain, ChainEnd::Cycle(t, from));
                }
            },
        }
    }
}

/// Makes the nodes of the jumps of `chain`, the last first, each with an
/// edge to the node made before it, the first of them to `target`.
fn build_chain_exec(b: &mut AstBuilder, chain: &Vec<usize>, target: usize, labels: &HashMap<u16, LogicLabel>) -> (k: usize)
    requires
        old(b).wf(),
        target < old(b).nodes@.len(),
        forall|j: int| 0 <= j < chain@.len() ==> #[trigger] chain@[j] < old(b).unresolved@.len(),
    ensures
        final(b).wf(),
        old(b).extends_to(*final(b)),
        k < final(b).nodes@.len(),
        (final(b).view_of(), k as int) == build_chain(old(b).view_of(), indices_view(chain@), target as int),
{
    let ghost s0 = b.view_of();
    let ghost b0 = *b;
    let ghost cv = indices_view(chain@);
    let mut cur = target;
    let mut m = chain.len();
    assert(cv.take(m as int) =~= cv);
    while m > 0
        invariant
            b.wf(),
            b0.extends_to(*b),
            m <= chain@.len(),
            cv == indices_view(chain@),
            cur < b.nodes@.len(),
            b.unresolved@ == b0.unresolved@,
            forall|j: int| 0 <= j < chain@.len() ==> #[trigger] chain@[j] < b.unresolved@.len(),
            build_chain(s0, cv, target as int) == build_chain(b.view_of(), cv.take(m as int), cur as int),
        decreases m,
    {
        m = m - 1;
        let x = chain[m];
        let address = b.unresolved[x].address();
        let ghost before = *b;
        proof {
            assert(cv.take(m + 1).last() == x as int);
            assert(cv.take(m + 1).drop_last() =~= cv.take(m as int));
            assert(b.view_of().unresolved[x as int] == unresolved_view(b.unresolved@[x as int]));
        }
        let metadata = LogicASTNodeMetadata { instruction_address: Some(address) };
        let node = LogicASTNode::Goto(LogicGotoNode { label: label_at(labels, address), metadata });
        let k = b.add_node(node, address);
        proof {
            lemma_view_add_node(before, *b, node, NodeKind::Goto, address, k);
        }
        let ghost mid = *b;
        b.add_edge(k, cur, LogicASTEdge::GotoToTarget);
        proof {
            lemma_view_add_edge(mid, *b, k, cur, LogicASTEdge::GotoToTarget);
            assert(before.extends_to(*b));
            lemma_extends_trans(b0, before, *b);
        }
        cur = k;
    }
    assert(cv.take(0) =~= Seq::<int>::empty());
    cur
}

/// The node of instruction `j` when something leads to it.
fn resolve_at(b: &mut AstBuilder, j: usize, labels: &HashMap<u16, LogicLabel>, Ghost(fuel): Ghost<nat>) -> (r: Result<
    usize,
    DecompilationError,
>)
    requires
        old(b).wf(),
        j < old(b).unresolved@.len(),
        fuel >= 4 * old(b).weight() + 3,
    ensures
        final(b).wf(),
        old(b).extends_to(*final(b)),
        r matches Ok(k) ==> k < final(b).nodes@.len(),
        (final(b).view_of(), res_int(r)) == resolve_at_spec(old(b).view_of(), j as int, fuel),
    decreases old(b).weight(), 2nat,
{
    broadcast use vstd::std_specs::hash::group_hash_axioms;
    let a = b.unresolved[j].address();
    proof {
        assert(b.view_of().unresolved[j as int] == unresolved_view(b.unresolved@[j as int]));
    }
    match b.nodes_by_address.get(&a) {
        Some(k) => {
            return Ok(*k);
        },
        None => {},
    }
    if !b.started[j] {
        resolve_nodes(b, j, labels, Ghost((fuel - 1) as nat))
    } else {
        resolve_goto(b, j, labels, Ghost((fuel - 1) as nat))
    }
}

/// The node of the jump at `x`, and of the jumps it chains through.
fn resolve_goto(b: &mut AstBuilder, x: usize, labels: &HashMap<u16, LogicLabel>, Ghost(fuel): Ghost<nat>) -> (r: Result<
    usize,
    DecompilationError,
>)
    requires
        old(b).wf(),
        x < old(b).unresolved@.len(),
        fuel >= 4 * old(b).weight() + 2,
    ensures
        final(b).wf(),
        old(b).extends_to(*final(b)),
        r matches Ok(k) ==> k < final(b).nodes@.len(),
        (final(b).view_of(), res_int(r)) == resolve_goto_spec(old(b).view_of(), x as int, fuel),
    decreases old(b).weight(), 1nat,
{
    let ghost b0 = *b;
    let (chain, end) = walk_exec(b, x);
    match end {
        ChainEnd::Mapped(n) => Ok(build_chain_exec(b, &chain, n, labels)),
        ChainEnd::Invalid(t, c) => Err(DecompilationError::InvalidJump { target_address: t, current_address: c }),
        ChainEnd::Cycle(t, c) => Err(DecompilationError::JumpCycle { target_address: t, current_address: c }),
        ChainEnd::Fresh(p) => {
            let r = resolve_nodes(b, p, labels, Ghost((fuel - 1) as nat));
            match r {
                Ok(n) => {
                    let ghost b1 = *b;
                    let k = build_chain_exec(b, &chain, n, labels);
                    proof {
                        lemma_extends_trans(b0, b1, *b);
                    }
                    Ok(k)
                },
                Err(e) => Err(e),
            }
        },
    }
}

/// Reads instruction `current`, not yet started, as a node.
fn resolve_nodes(b: &mut AstBuilder, current: usize, labels: &HashMap<u16, LogicLabel>, Ghost(fuel): Ghost<nat>) -> (r: Result<
    usize,
    DecompilationError,
>)
    requires
        old(b).wf(),
        current < old(b).unresolved@.len(),
        !old(b).started@[current as int],
        fuel >= 4 * old(b).weight() + 1,
    ensures
        final(b).wf(),
        old(b).extends_to(*final(b)),
        r matches Ok(k) ==> k < final(b).nodes@.len(),
        (final(b).view_of(), res_int(r)) == resolve_spec(old(b).view_of(), current as int, fuel),
    decreases old(b).weight(), 0nat,
{
    broadcast use vstd::std_specs::hash::group_hash_axioms;
    let ghost entry = *b;
    let ghost s = b.view_of();
    let current_node = b.unresolved[current].duplicate();
    let address = current_node.address();
    proof {
        assert(s.unresolved[current as int] == unresolved_view(b.unresolved@[current as int]));
    }
    match b.nodes_by_address.get(&address) {
        Some(k) => {
            return Ok(*k);
        },
        None => {},
    }
    proof {
        lemma_pending_mark(b.started@, b.original_len as nat, current as int);
    }
    b.started.set(current, true);
    let ghost marked = *b;
    proof {
        assert(marked.view_of() =~= sv_mark(s, current as int));
        assert(entry.extends_to(marked));
    }
    let metadata = LogicASTNodeMetadata { instruction_address: Some(address) };
    match current_node {
        UnresolvedLogicASTNode::Command(logic_command) => {
            let is_return = logic_command.agi_command.name == String::from_str("return");
            proof {
                reveal_strlit("return");
            }
            let node = LogicASTNode::Command(LogicCommandNode { command: logic_command, label: label_at(labels, address), metadata });
            let node_index = b.add_node(node, address);
            let ghost s1 = *b;
            proof {
                lemma_view_add_node(marked, s1, node, NodeKind::Command, address, node_index);
                assert(marked.extends_to(s1));
                lemma_extends_trans(entry, marked, s1);
                assert(current < b.original_len);
            }
            if !is_return && current + 1 < b.unresolved.len() {
                let next = resolve_at(b, current + 1, labels, Ghost((fuel - 1) as nat));
                let ghost s2 = *b;
                proof {
                    lemma_extends_trans(entry, s1, s2);
                }
                let next_index = match next {
                    Ok(n) => n,
                    Err(e) => {
                        return Err(e);
                    },
                };
                b.add_edge(node_index, next_index, LogicASTEdge::CommandToNext);
                proof {
                    lemma_view_add_edge(s2, *b, node_index, next_index, LogicASTEdge::CommandToNext);
                    assert(s2.extends_to(*b));
                    lemma_extends_trans(entry, s2, *b);
                }
            }
            Ok(node_index)
        },
        UnresolvedLogicASTNode::If(unresolved_if_node) => {
            let node = LogicASTNode::If(
                LogicIfNode { clauses: unresolved_if_node.clauses, label: label_at(labels, address), metadata },
            );
            let if_node_index = b.add_node(node, address);
            let ghost s1 = *b;
            proof {
                lemma_view_add_node(marked, s1, node, NodeKind::If, address, if_node_index);
                assert(marked.extends_to(s1));
                lemma_extends_trans(entry, marked, s1);
                assert(current < b.original_len);
            }
            let max_address = max_address_of(b);
            if max_address == 0xffff {
                return Err(DecompilationError::AddressOverflow { current_address: address });
            }
            let goto_node_address = max_address + 1;
            let goto_node_index = b.unresolved.len();
            proof {
                lemma_pending_push(b.started@, b.original_len as nat);
            }
            b.unresolved.push(
                UnresolvedLogicASTNode::Goto(
                    UnresolvedGotoNode { address: goto_node_address, jump_target_address: unresolved_if_node.else_goto_address },
                ),
            );
            b.started.push(false);
            let ghost s2 = *b;
            proof {
                assert(s2.view_of().unresolved =~= sv_push_goto(s1.view_of(), goto_node_address, unresolved_if_node.else_goto_address).unresolved);
                assert(s2.view_of().started =~= sv_push_goto(s1.view_of(), goto_node_address, unresolved_if_node.else_goto_address).started);
                assert(s2.view_of() == sv_push_goto(s1.view_of(), goto_node_address, unresolved_if_node.else_goto_address));
                assert forall|k: int| b.original_len <= k < b.unresolved@.len() implies #[trigger] b.unresolved@[k] is Goto by {
                    if k < s1.unresolved@.len() {
                        assert(b.unresolved@[k] == s1.unresolved@[k]);
                    }
                }
                assert forall|k: int| 0 <= k < entry.unresolved@.len() implies #[trigger] b.unresolved@[k] == entry.unresolved@[k] by {
                    assert(b.unresolved@[k] == s1.unresolved@[k]);
                }
                assert forall|k: int| 0 <= k < entry.started@.len() && entry.started@[k] implies #[trigger] b.started@[k] by {
                    assert(b.started@[k] == s1.started@[k]);
                }
                assert(entry.extends_to(s2));
                assert(s2.weight() < entry.weight());
            }
            if !b.then_needs_next || current + 1 < goto_node_index {
                let then = resolve_at(b, current + 1, labels, Ghost((fuel - 1) as nat));
                let ghost s3 = *b;
                proof {
                    lemma_extends_trans(entry, s2, s3);
                }
                let then_node_index = match then {
                    Ok(n) => n,
                    Err(e) => {
                        return Err(e);
                    },
                };
                b.add_edge(if_node_index, then_node_index, LogicASTEdge::IfThen);
                proof {
                    lemma_view_add_edge(s3, *b, if_node_index, then_node_index, LogicASTEdge::IfThen);
                    assert(s3.extends_to(*b));
                    lemma_extends_trans(entry, s3, *b);
                    lemma_extends_trans(s2, s3, *b);
                }
            }
            let ghost s4 = *b;
            proof {
                lemma_extends_trans(s2, s2, s4);
            }
            let other = resolve_at(b, goto_node_index, labels, Ghost((fuel - 1) as nat));
            let ghost s5 = *b;
            proof {
                lemma_extends_trans(entry, s4, s5);
            }
            let else_node_index = match other {
                Ok(n) => n,
                Err(e) => {
                    return Err(e);
                },
            };
            b.add_edge(if_node_index, else_node_index, LogicASTEdge::IfElse);
            proof {
                lemma_view_add_edge(s5, *b, if_node_index, else_node_index, LogicASTEdge::IfElse);
                assert(s5.extends_to(*b));
                lemma_extends_trans(entry, s5, *b);
            }
            Ok(if_node_index)
        },
        UnresolvedLogicASTNode::Goto(_) => {
            let r = resolve_goto(b, current, labels, Ghost((fuel - 1) as nat));
            proof {
                lemma_extends_trans(entry, marked, *b);
            }
            r
        },
    }
}

/// A weight counts at most two for each instruction.
proof fn lemma_weight_bound(s: Seq<bool>, n0: nat)
    ensures
        pending_weight(s, n0) <= 2 * s.len(),
    decreases s.len(),
{
    if s.len() > 0 {
        lemma_weight_bound(s.drop_last(), n0);
    }
}

/// The graph as values: its nodes, edges, root and the node of each address.
pub struct AstView {
    pub nodes: Seq<NodeView>,
    pub edges: Seq<(int, int, LogicASTEdge)>,
    pub root: int,
    pub by_address: Map<u16, int>,
}

/// Reading starts with every instruction waiting and no node.
pub open spec fn initial_view(is: Seq<InstructionView>) -> BuildView {
    initial_view_with(is, false)
}

/// Reading starts with every instruction waiting and no node; whether a
/// conditional read last gets a `then` edge is given.
pub open spec fn initial_view_with(is: Seq<InstructionView>, then_needs_next: bool) -> BuildView {
    BuildView {
        unresolved: is.map_values(|i: InstructionView| instruction_unresolved(i)),
        started: Seq::new(is.len(), |i: int| false),
        nodes: Seq::empty(),
        edges: Seq::empty(),
        by_address: Map::empty(),
        then_needs_next,
    }
}

/// The graph of a program's instructions, read from the first one.
pub open spec fn ast_of(is: Seq<InstructionView>) -> Result<AstView, DecompilationError> {
    ast_of_with(is, false)
}

/// The graph of a program's instructions, read from the first one, with a
/// conditional read last getting a `then` edge or not as given.
pub open spec fn ast_of_with(is: Seq<InstructionView>, then_needs_next: bool) -> Result<AstView, DecompilationError> {
    let (s, r) = resolve_spec(initial_view_with(is, then_needs_next), 0, (8 * is.len() + 1) as nat);
    match r {
        Ok(root) => Ok(AstView { nodes: s.nodes, edges: s.edges, root, by_address: s.by_address }),
        Err(e) => Err(e),
    }
}

/// Bytecode read as a graph: a node for each instruction reached from the
/// first, and for each conditional a jump node to its skip address.
pub struct LogicAST {
    pub nodes: Vec<LogicASTNode>,
    pub edges: Vec<(usize, usize, LogicASTEdge)>,
    pub root_node_id: usize,
    pub nodes_by_address: HashMap<u16, usize>,
}

impl LogicAST {
    pub open spec fn wf(&self) -> bool {
        &&& graph_wf(self.nodes@, self.edges@, self.nodes_by_address@)
        &&& self.root_node_id < self.nodes@.len()
    }

    /// The graph as values.
    pub open spec fn view_of(&self) -> AstView {
        AstView {
            nodes: self.nodes@.map_values(|n: LogicASTNode| node_view(n)),
            edges: edges_view(self.edges@),
            root: self.root_node_id as int,
            by_address: self.nodes_by_address@.map_values(|k: usize| k as int),
        }
    }

    /// Reads the instructions as a graph from the first one on, with the
    /// labels that the assembly gives: the graph `ast_of` describes, or the
    /// error it describes.
    pub fn from_instructions(instructions: &[LogicInstruction]) -> (r: Result<LogicAST, DecompilationError>)
        requires
            instructions@.len() >= 1,
        ensures
            match ast_of(instructions_view(instructions@)) {
                Ok(v) => r matches Ok(ast) && ast.wf() && ast.view_of() == v,
                Err(e) => r matches Err(x) && x == e,
            },
    {
        Self::read_instructions(instructions, false)
    }

    /// Reads the instructions as a graph, as `from_instructions` does; with
    /// `then_needs_next`, a conditional read when no instruction waits after
    /// it gets no `then` edge.
    pub fn read_instructions(instructions: &[LogicInstruction], then_needs_next: bool) -> (r: Result<
        LogicAST,
        DecompilationError,
    >)
        requires
            instructions@.len() >= 1,
        ensures
            match ast_of_with(instructions_view(instructions@), then_needs_next) {
                Ok(v) => r matches Ok(ast) && ast.wf() && ast.view_of() == v,
                Err(e) => r matches Err(x) && x == e,
            },
    {
        broadcast use vstd::std_specs::hash::group_hash_axioms;
        let label_list = generate_labels(instructions, &[]);
        let mut labels: HashMap<u16, LogicLabel> = HashMap::new();
        for label in label_list {
            let address = label.address;
            labels.insert(address, label);
        }
        let ghost is = instructions_view(instructions@);
        let mut unresolved: Vec<UnresolvedLogicASTNode> = Vec::new();
        let mut started: Vec<bool> = Vec::new();
        let mut i: usize = 0;
        while i < instructions.len()
            invariant
                is == instructions_view(instructions@),
                i <= instructions@.len(),
                unresolved@.len() == i,
                started@ == Seq::new(i as nat, |k: int| false),
                unresolved@.map_values(|u: UnresolvedLogicASTNode| unresolved_view(u)) == is.map_values(
                    |x: InstructionView| instruction_unresolved(x),
                ).take(i as int),
            decreases instructions@.len() - i,
        {
            let u = UnresolvedLogicASTNode::from_instruction(&instructions[i]);
            let ghost before = unresolved@;
            unresolved.push(u);
            started.push(false);
            i = i + 1;
            proof {
                assert(started@ =~= Seq::new(i as nat, |k: int| false));
                assert(unresolved@.map_values(|u: UnresolvedLogicASTNode| unresolved_view(u)) =~= is.map_values(
                    |x: InstructionView| instruction_unresolved(x),
                ).take(i as int));
            }
        }
        let n = unresolved.len();
        let mut b = AstBuilder {
            unresolved,
            started,
            original_len: n,
            nodes: Vec::new(),
            edges: Vec::new(),
            nodes_by_address: HashMap::new(),
            then_needs_next,
        };
        proof {
            assert(b.view_of().unresolved =~= initial_view_with(is, then_needs_next).unresolved);
            assert(b.view_of().nodes =~= initial_view_with(is, then_needs_next).nodes);
            assert(b.view_of().edges =~= initial_view_with(is, then_needs_next).edges);
            assert(b.view_of().by_address =~= initial_view_with(is, then_needs_next).by_address);
            assert(b.view_of() == initial_view_with(is, then_needs_next));
            lemma_weight_bound(b.started@, n as nat);
        }
        let root = resolve_nodes(&mut b, 0, &labels, Ghost((8 * n + 1) as nat));
        match root {
            Ok(root_node_id) => {
                let ast = LogicAST { nodes: b.nodes, edges: b.edges, root_node_id, nodes_by_address: b.nodes_by_address };
                proof {
                    assert(ast.view_of() =~= AstView {
                        nodes: b.view_of().nodes,
                        edges: b.view_of().edges,
                        root: root_node_id as int,
                        by_address: b.view_of().by_address,
                    });
                }
                Ok(ast)
            },
            Err(e) => Err(e),
        }
    }

    /// The first node with an edge of `edge_type` out of `node_id`, along
    /// the edges in the order they were added.
    pub fn outgoing_neighbor_id_of_type(&self, node_id: usize, edge_type: LogicASTEdge) -> (r: Option<usize>)
        ensures
            match first_out_edge(edges_view(self.edges@), node_id as int, edge_type) {
                Some(t) => r == Some(t as usize),
                None => r is None,
            },
            self.wf() ==> (r matches Some(t) ==> t < self.nodes@.len()),
    {
        let ghost ev = edges_view(self.edges@);
        let mut e: usize = 0;
        assert(ev.skip(0) =~= ev);
        while e < self.edges.len()
            invariant
                e <= self.edges@.len(),
                ev == edges_view(self.edges@),
                first_out_edge(ev, node_id as int, edge_type) == first_out_edge(ev.skip(e as int), node_id as int, edge_type),
            decreases self.edges@.len() - e,
        {
            let (from, to, kind) = self.edges[e];
            proof {
                assert(ev.skip(e as int).drop_first() =~= ev.skip(e + 1));
                assert(ev.skip(e as int)[0] == (from as int, to as int, kind));
            }
            if from == node_id && kind == edge_type {
                return Some(to);
            }
            e = e + 1;
        }
        assert(ev.skip(e as int).len() == 0);
        None
    }

    /// The root node.
    pub fn root_node(&self) -> (r: &LogicASTNode)
        requires
            self.wf(),
        ensures
            *r == self.nodes@[self.root_node_id as int],
    {
        &self.nodes[self.root_node_id]
    }

    /// Where a command goes next.
    pub fn next_node_id(&self, node_id: usize) -> (r: Option<usize>)
        ensures
            match first_out_edge(edges_view(self.edges@), node_id as int, LogicASTEdge::CommandToNext) {
                Some(t) => r == Some(t as usize),
                None => r is None,
            },
            self.wf() ==> (r matches Some(t) ==> t < self.nodes@.len()),
    {
        self.outgoing_neighbor_id_of_type(node_id, LogicASTEdge::CommandToNext)
    }

    /// Where a conditional goes when its clauses hold.
    pub fn then_node_id(&self, node_id: usize) -> (r: Option<usize>)
        ensures
            match first_out_edge(edges_view(self.edges@), node_id as int, LogicASTEdge::IfThen) {
                Some(t) => r == Some(t as usize),
                None => r is None,
            },
            self.wf() ==> (r matches Some(t) ==> t < self.nodes@.len()),
    {
        self.outgoing_neighbor_id_of_type(node_id, LogicASTEdge::IfThen)
    }

    /// Where a conditional goes when its clauses do not hold.
    pub fn else_node_id(&self, node_id: usize) -> (r: Option<usize>)
        ensures
            match first_out_edge(edges_view(self.edges@), node_id as int, LogicASTEdge::IfElse) {
                Some(t) => r == Some(t as usize),
                None => r is None,
            },
            self.wf() ==> (r matches Some(t) ==> t < self.nodes@.len()),
    {
        self.outgoing_neighbor_id_of_type(node_id, LogicASTEdge::IfElse)
    }

    /// Where a jump goes.
    pub fn goto_target_node_id(&self, node_id: usize) -> (r: Option<usize>)
        ensures
            match first_out_edge(edges_view(self.edges@), node_id as int, LogicASTEdge::GotoToTarget) {
                Some(t) => r == Some(t as usize),
                None => r is None,
            },
            self.wf() ==> (r matches Some(t) ==> t < self.nodes@.len()),
    {
        self.outgoing_neighbor_id_of_type(node_id, LogicASTEdge::GotoToTarget)
    }
}

/// An instruction at address `t` among those waiting is found by `position`.
proof fn lemma_position_finds(us: Seq<UnresolvedView>, t: u16, j: int)
    requires
        0 <= j < us.len(),
        uv_address(us[j]) == t,
    ensures
        position(us, t) is Some,
    decreases us.len(),
{
    if j < us.len() - 1 {
        lemma_position_finds(us.drop_last(), t, j);
    }
}

proof fn lemma_prefix_trans(a: Seq<UnresolvedView>, b: Seq<UnresolvedView>, c: Seq<UnresolvedView>)
    requires
        a.is_prefix_of(b),
        b.is_prefix_of(c),
    ensures
        a.is_prefix_of(c),
{
    assert(a =~= c.subrange(0, a.len() as int)) by {
        assert forall|j: int| 0 <= j < a.len() implies a[j] == c[j] by {
            assert(a[j] == b.subrange(0, a.len() as int)[j]);
            assert(b[j] == c.subrange(0, b.len() as int)[j]);
        }
    }
}

/// Building the nodes of a chain of jumps leaves the instructions waiting
/// as they were.
proof fn lemma_chain_keeps_unresolved(s: BuildView, chain: Seq<int>, target: int)
    ensures
        build_chain(s, chain, target).0.unresolved == s.unresolved,
    decreases chain.len(),
{
    if chain.len() > 0 {
        let x = chain.last();
        let k = s.nodes.len() as int;
        let s1 = sv_add_node(s, NodeKind::Goto, uv_address(s.unresolved[x]));
        lemma_chain_keeps_unresolved(sv_add_edge(s1, k, target, LogicASTEdge::GotoToTarget), chain.drop_last(), k);
    }
}

/// Where a waiting instruction jumps: a conditional's skip address, a
/// jump's target; a command does not jump.
pub open spec fn jump_target_of(u: UnresolvedView) -> Option<u16> {
    match u {
        UnresolvedView::Command { .. } => None,
        UnresolvedView::If { skip, .. } => Some(skip),
        UnresolvedView::Goto { target, .. } => Some(target),
    }
}

/// Past the first `n0`, the waiting instructions are jumps added for
/// conditionals, each to the skip address of one of the first `n0`.
pub open spec fn added_jumps_ok(us: Seq<UnresolvedView>, n0: int) -> bool {
    forall|j: int|
        n0 <= j < us.len() ==> (#[trigger] us[j]) is Goto && exists|k: int|
            0 <= k < n0 && jump_target_of(us[k]) == jump_target_of(us[j])
}

/// What reading an instruction leaves: the instructions waiting before
/// still wait in front, the added ones are jumps for conditionals, and an
/// invalid jump names an address where none of them stands but to which
/// one of them jumps.
pub open spec fn invalid_jump_sound(s: BuildView, out: (BuildView, Result<int, DecompilationError>), n0: int) -> bool {
    &&& s.unresolved.is_prefix_of(out.0.unresolved)
    &&& added_jumps_ok(out.0.unresolved, n0)
    &&& (out.1 matches Err(DecompilationError::InvalidJump { target_address, .. }) ==> {
        &&& position(out.0.unresolved, target_address) is None
        &&& exists|j: int|
            0 <= j < out.0.unresolved.len() && jump_target_of(#[trigger] out.0.unresolved[j]) == Some(target_address)
    })
}

/// `position` finds an instruction at the address it is asked for.
proof fn lemma_position_found(us: Seq<UnresolvedView>, t: u16)
    ensures
        position(us, t) matches Some(p) ==> 0 <= p < us.len() && uv_address(us[p]) == t,
    decreases us.len(),
{
    if us.len() > 0 {
        lemma_position_found(us.drop_last(), t);
    }
}

proof fn lemma_resolve_invalid(s: BuildView, i: int, fuel: nat, n0: int)
    requires
        0 <= i < s.unresolved.len(),
        n0 <= s.unresolved.len(),
        added_jumps_ok(s.unresolved, n0),
    ensures
        invalid_jump_sound(s, resolve_spec(s, i, fuel), n0),
    decreases fuel,
{
    if fuel > 0 {
        let u = s.unresolved[i];
        let a = uv_address(u);
        if !s.by_address.contains_key(a) {
            let s1 = sv_mark(s, i);
            let k = s1.nodes.len() as int;
            match u {
                UnresolvedView::Command { is_return, .. } => {
                    let s2 = sv_add_node(s1, NodeKind::Command, a);
                    if !is_return && i + 1 < s2.unresolved.len() {
                        lemma_resolve_at_invalid(s2, i + 1, (fuel - 1) as nat, n0);
                    }
                },
                UnresolvedView::If { skip, .. } => {
                    let s2 = sv_add_node(s1, NodeKind::If, a);
                    let m = max_address(s2.unresolved);
                    if m != 0xffff {
                        let g = s2.unresolved.len() as int;
                        let s3 = sv_push_goto(s2, (m + 1) as u16, skip);
                        assert(s.unresolved.is_prefix_of(s3.unresolved)) by {
                            assert(s.unresolved =~= s3.unresolved.subrange(0, s.unresolved.len() as int));
                        }
                        assert(i < n0) by {
                            if i >= n0 {
                                assert(s.unresolved[i] is Goto);
                            }
                        }
                        assert(added_jumps_ok(s3.unresolved, n0)) by {
                            assert forall|j: int| n0 <= j < s3.unresolved.len() implies (#[trigger] s3.unresolved[j]) is Goto
                                && exists|q: int| 0 <= q < n0 && jump_target_of(s3.unresolved[q]) == jump_target_of(s3.unresolved[j]) by {
                                if j < g {
                                    assert(s3.unresolved[j] == s.unresolved[j]);
                                    let q = choose|q: int| 0 <= q < n0 && jump_target_of(s.unresolved[q]) == jump_target_of(s.unresolved[j]);
                                    assert(s3.unresolved[q] == s.unresolved[q]);
                                } else {
                                    assert(s3.unresolved[i] == s.unresolved[i]);
                                    assert(jump_target_of(s3.unresolved[i]) == jump_target_of(s3.unresolved[j]));
                                }
                            }
                        }
                        lemma_resolve_at_invalid(s3, i + 1, (fuel - 1) as nat, n0);
                        let (s4, r1) = resolve_at_spec(s3, i + 1, (fuel - 1) as nat);
                        lemma_prefix_trans(s.unresolved, s3.unresolved, s4.unresolved);
                        if r1 is Ok {
                            let s5 = sv_add_edge(s4, k, r1->Ok_0, LogicASTEdge::IfThen);
                            lemma_resolve_at_invalid(s5, g, (fuel - 1) as nat, n0);
                            let (s6, r2) = resolve_at_spec(s5, g, (fuel - 1) as nat);
                            lemma_prefix_trans(s.unresolved, s5.unresolved, s6.unresolved);
                        }
                    }
                },
                UnresolvedView::Goto { .. } => {
                    lemma_resolve_goto_invalid(s1, i, (fuel - 1) as nat, n0);
                },
            }
        }
    }
}

proof fn lemma_resolve_at_invalid(s: BuildView, j: int, fuel: nat, n0: int)
    requires
        0 <= j < s.unresolved.len(),
        n0 <= s.unresolved.len(),
        added_jumps_ok(s.unresolved, n0),
    ensures
        invalid_jump_sound(s, resolve_at_spec(s, j, fuel), n0),
    decreases fuel,
{
    if fuel > 0 {
        let a = uv_address(s.unresolved[j]);
        if !s.by_address.contains_key(a) {
            if !s.started[j] {
                lemma_resolve_invalid(s, j, (fuel - 1) as nat, n0);
            } else {
                lemma_resolve_goto_invalid(s, j, (fuel - 1) as nat, n0);
            }
        }
    }
}

proof fn lemma_resolve_goto_invalid(s: BuildView, x: int, fuel: nat, n0: int)
    requires
        0 <= x < s.unresolved.len(),
        n0 <= s.unresolved.len(),
        added_jumps_ok(s.unresolved, n0),
    ensures
        invalid_jump_sound(s, resolve_goto_spec(s, x, fuel), n0),
    decreases fuel,
{
    if fuel > 0 {
        let (chain, end) = walk(s, x, only_visited(s.unresolved.len(), x), seq![x]);
        lemma_walk_invalid(s, x, only_visited(s.unresolved.len(), x), seq![x]);
        match end {
            WalkEnd::Mapped(n) => {
                lemma_chain_keeps_unresolved(s, chain, n);
            },
            WalkEnd::Invalid(t, c) => {},
            WalkEnd::Cycle(t, c) => {},
            WalkEnd::Fresh(p) => {
                lemma_resolve_invalid(s, p, (fuel - 1) as nat, n0);
                let (s1, r) = resolve_spec(s, p, (fuel - 1) as nat);
                if r is Ok {
                    lemma_chain_keeps_unresolved(s1, chain, r->Ok_0);
                }
            },
        }
    }
}

/// A walk through jumps that ends at an invalid address ends at one where
/// no instruction waits, and that a waiting instruction jumps to; a walk
/// that ends at a fresh instruction ends inside the list.
proof fn lemma_walk_invalid(s: BuildView, cur: int, visited: Seq<bool>, chain: Seq<int>)
    requires
        0 <= cur < s.unresolved.len(),
    ensures
        walk(s, cur, visited, chain).1 matches WalkEnd::Invalid(t, _) ==> position(s.unresolved, t) is None
            && exists|j: int| 0 <= j < s.unresolved.len() && jump_target_of(#[trigger] s.unresolved[j]) == Some(t),
        walk(s, cur, visited, chain).1 matches WalkEnd::Fresh(p) ==> 0 <= p < s.unresolved.len(),
    decreases pending_weight(visited, 0),
{
    let t = uv_target(s.unresolved[cur]);
    lemma_position_found(s.unresolved, t);
    if !s.by_address.contains_key(t) {
        match position(s.unresolved, t) {
            None => {
                if s.unresolved[cur] is Command {
                    lemma_position_finds(s.unresolved, t, cur);
                }
                assert(jump_target_of(s.unresolved[cur]) == Some(t));
            },
            Some(p) => {
                if s.started[p] && 0 <= p < visited.len() && !visited[p] {
                    lemma_pending_mark(visited, 0, p);
                    lemma_walk_invalid(s, p, visited.update(p, true), chain.push(p));
                }
            },
        }
    }
}

/// Where an instruction jumps: a conditional's skip address, a jump's
/// target; a command does not jump.
pub open spec fn instruction_jump_target(i: InstructionView) -> Option<u16> {
    match i {
        InstructionView::Command { .. } => None,
        InstructionView::Condition { skip_address, .. } => Some(skip_address),
        InstructionView::Goto { jump_address, .. } => Some(jump_address),
    }
}

/// Reading a program as a graph fails with an invalid jump only for an
/// address that one of its conditionals or jumps jumps to and where none of
/// its instructions stands.
pub proof fn lemma_invalid_jump_has_no_target(is: Seq<InstructionView>, t: u16, c: u16)
    requires
        is.len() >= 1,
        ast_of(is) == Err::<AstView, DecompilationError>(
            DecompilationError::InvalidJump { target_address: t, current_address: c },
        ),
    ensures
        forall|j: int| 0 <= j < is.len() ==> instruction_address(#[trigger] is[j]) != t,
        exists|j: int| 0 <= j < is.len() && instruction_jump_target(#[trigger] is[j]) == Some(t),
{
    let s0 = initial_view(is);
    let n0 = is.len() as int;
    lemma_resolve_invalid(s0, 0, (8 * is.len() + 1) as nat, n0);
    let out = resolve_spec(s0, 0, (8 * is.len() + 1) as nat);
    assert forall|j: int| 0 <= j < is.len() implies instruction_address(#[trigger] is[j]) != t by {
        if instruction_address(is[j]) == t {
            assert(out.0.unresolved[j] == s0.unresolved[j]);
            assert(uv_address(s0.unresolved[j]) == instruction_address(is[j]));
            lemma_position_finds(out.0.unresolved, t, j);
        }
    }
    let j = choose|j: int| 0 <= j < out.0.unresolved.len() && jump_target_of(#[trigger] out.0.unresolved[j]) == Some(t);
    let k = if j < n0 {
        j
    } else {
        choose|k: int| 0 <= k < n0 && jump_target_of(out.0.unresolved[k]) == jump_target_of(out.0.unresolved[j])
    };
    assert(out.0.unresolved[k] == s0.unresolved[k]);
    assert(jump_target_of(s0.unresolved[k]) == instruction_jump_target(is[k]));
}

/// A program all of whose conditionals and jumps jump to the address of one
/// of its instructions is never read as a graph with an invalid jump.
pub proof fn lemma_valid_targets_no_invalid_jump(is: Seq<InstructionView>)
    requires
        is.len() >= 1,
        forall|j: int|
            0 <= j < is.len() && #[trigger] instruction_jump_target(is[j]) is Some ==> exists|k: int|
                0 <= k < is.len() && instruction_address(is[k]) == instruction_jump_target(is[j])->Some_0,
    ensures
        !(ast_of(is) matches Err(DecompilationError::InvalidJump { .. })),
{
    if let Err(DecompilationError::InvalidJump { target_address, current_address }) = ast_of(is) {
        lemma_invalid_jump_has_no_target(is, target_address, current_address);
        let j = choose|j: int| 0 <= j < is.len() && instruction_jump_target(#[trigger] is[j]) == Some(target_address);
        let k = choose|k: int| 0 <= k < is.len() && instruction_address(is[k]) == instruction_jump_target(is[j])->Some_0;
        assert(instruction_address(is[k]) != target_address);
    }
}


/// A started instruction that is not a jump has its node.
pub open spec fn started_have_nodes(s: BuildView) -> bool {
    &&& s.started.len() == s.unresolved.len()
    &&& forall|p: int|
        0 <= p < s.unresolved.len() && #[trigger] s.started[p] && !(s.unresolved[p] is Goto) ==> s.by_address.contains_key(
            uv_address(s.unresolved[p]),
        )
}

/// A jump cycle names the address of a jump: the first instruction waiting
/// there is a jump (or reading ran out of steps, which the bound on steps
/// rules out).
pub open spec fn cycle_sound(out: (BuildView, Result<int, DecompilationError>)) -> bool {
    &&& started_have_nodes(out.0)
    &&& (out.1 matches Err(DecompilationError::JumpCycle { target_address, current_address }) ==> (target_address
        == 0 && current_address == 0) || (position(out.0.unresolved, target_address) matches Some(p)
        && out.0.unresolved[p] is Goto))
}

/// `position` gives the first place with the address.
proof fn lemma_position_first(us: Seq<UnresolvedView>, t: u16)
    ensures
        position(us, t) matches Some(p) ==> forall|i: int| 0 <= i < p ==> uv_address(#[trigger] us[i]) != t,
    decreases us.len(),
{
    if us.len() > 0 {
        lemma_position_first(us.drop_last(), t);
        lemma_position_found(us.drop_last(), t);
        if position(us.drop_last(), t) is None {
            assert forall|i: int| 0 <= i < us.len() - 1 implies uv_address(#[trigger] us[i]) != t by {
                if uv_address(us[i]) == t {
                    lemma_position_finds(us.drop_last(), t, i);
                }
            }
        } else {
            let p = position(us.drop_last(), t)->Some_0;
            assert forall|i: int| 0 <= i < p implies uv_address(#[trigger] us[i]) != t by {
                assert(us.drop_last()[i] == us[i]);
            }
        }
    }
}

proof fn lemma_chain_keeps_started(s: BuildView, chain: Seq<int>, target: int)
    requires
        started_have_nodes(s),
    ensures
        started_have_nodes(build_chain(s, chain, target).0),
    decreases chain.len(),
{
    if chain.len() > 0 {
        let x = chain.last();
        let k = s.nodes.len() as int;
        let s1 = sv_add_node(s, NodeKind::Goto, uv_address(s.unresolved[x]));
        lemma_chain_keeps_started(sv_add_edge(s1, k, target, LogicASTEdge::GotoToTarget), chain.drop_last(), k);
    }
}

proof fn lemma_walk_cycle(s: BuildView, cur: int, visited: Seq<bool>, chain: Seq<int>)
    requires
        0 <= cur < s.unresolved.len(),
        started_have_nodes(s),
    ensures
        walk(s, cur, visited, chain).1 matches WalkEnd::Cycle(t, _) ==> (position(s.unresolved, t) matches Some(p)
            && s.unresolved[p] is Goto),
        walk(s, cur, visited, chain).1 matches WalkEnd::Fresh(p) ==> 0 <= p < s.unresolved.len(),
    decreases pending_weight(visited, 0),
{
    let t = uv_target(s.unresolved[cur]);
    lemma_position_found(s.unresolved, t);
    if !s.by_address.contains_key(t) {
        match position(s.unresolved, t) {
            None => {},
            Some(p) => {
                if s.started[p] && 0 <= p < visited.len() && !visited[p] {
                    lemma_pending_mark(visited, 0, p);
                    lemma_walk_cycle(s, p, visited.update(p, true), chain.push(p));
                }
            },
        }
    }
}

proof fn lemma_resolve_cycle(s: BuildView, i: int, fuel: nat)
    requires
        0 <= i < s.unresolved.len(),
        started_have_nodes(s),
    ensures
        cycle_sound(resolve_spec(s, i, fuel)),
        s.unresolved.is_prefix_of(resolve_spec(s, i, fuel).0.unresolved),
    decreases fuel,
{
    lemma_resolve_invalid_prefix(s, i, fuel);
    if fuel > 0 {
        let u = s.unresolved[i];
        let a = uv_address(u);
        if !s.by_address.contains_key(a) {
            let s1 = sv_mark(s, i);
            let k = s1.nodes.len() as int;
            match u {
                UnresolvedView::Command { is_return, .. } => {
                    let s2 = sv_add_node(s1, NodeKind::Command, a);
                    assert(started_have_nodes(s2));
                    if !is_return && i + 1 < s2.unresolved.len() {
                        lemma_resolve_at_cycle(s2, i + 1, (fuel - 1) as nat);
                    }
                },
                UnresolvedView::If { skip, .. } => {
                    let s2 = sv_add_node(s1, NodeKind::If, a);
                    assert(started_have_nodes(s2));
                    let m = max_address(s2.unresolved);
                    if m != 0xffff {
                        let g = s2.unresolved.len() as int;
                        let s3 = sv_push_goto(s2, (m + 1) as u16, skip);
                        assert(started_have_nodes(s3)) by {
                            assert forall|p: int|
                                0 <= p < s3.unresolved.len() && #[trigger] s3.started[p] && !(s3.unresolved[p] is Goto) implies s3.by_address.contains_key(
                                uv_address(s3.unresolved[p]),
                            ) by {
                                assert(p < g);
                                assert(s3.unresolved[p] == s2.unresolved[p]);
                                assert(s3.started[p] == s2.started[p]);
                            }
                        }
                        lemma_resolve_at_cycle(s3, i + 1, (fuel - 1) as nat);
                        let (s4, r1) = resolve_at_spec(s3, i + 1, (fuel - 1) as nat);
                        if r1 is Ok {
                            let s5 = sv_add_edge(s4, k, r1->Ok_0, LogicASTEdge::IfThen);
                            lemma_resolve_invalid_prefix_at(s3, i + 1, (fuel - 1) as nat);
                            lemma_resolve_at_cycle(s5, g, (fuel - 1) as nat);
                        }
                    }
                },
                UnresolvedView::Goto { .. } => {
                    lemma_resolve_goto_cycle(s1, i, (fuel - 1) as nat);
                },
            }
        }
    }
}

proof fn lemma_resolve_at_cycle(s: BuildView, j: int, fuel: nat)
    requires
        0 <= j < s.unresolved.len(),
        started_have_nodes(s),
    ensures
        cycle_sound(resolve_at_spec(s, j, fuel)),
    decreases fuel,
{
    if fuel > 0 {
        let a = uv_address(s.unresolved[j]);
        if !s.by_address.contains_key(a) {
            if !s.started[j] {
                lemma_resolve_cycle(s, j, (fuel - 1) as nat);
            } else {
                lemma_resolve_goto_cycle(s, j, (fuel - 1) as nat);
            }
        }
    }
}

proof fn lemma_resolve_goto_cycle(s: BuildView, x: int, fuel: nat)
    requires
        0 <= x < s.unresolved.len(),
        started_have_nodes(s),
    ensures
        cycle_sound(resolve_goto_spec(s, x, fuel)),
    decreases fuel,
{
    if fuel > 0 {
        let (chain, end) = walk(s, x, only_visited(s.unresolved.len(), x), seq![x]);
        lemma_walk_cycle(s, x, only_visited(s.unresolved.len(), x), seq![x]);
        match end {
            WalkEnd::Mapped(n) => {
                lemma_chain_keeps_started(s, chain, n);
            },
            WalkEnd::Invalid(t, c) => {},
            WalkEnd::Cycle(t, c) => {},
            WalkEnd::Fresh(p) => {
                lemma_resolve_cycle(s, p, (fuel - 1) as nat);
                let (s1, r) = resolve_spec(s, p, (fuel - 1) as nat);
                if r is Ok {
                    lemma_chain_keeps_started(s1, chain, r->Ok_0);
                }
            },
        }
    }
}

proof fn lemma_resolve_invalid_prefix(s: BuildView, i: int, fuel: nat)
    requires
        0 <= i < s.unresolved.len(),
    ensures
        s.unresolved.is_prefix_of(resolve_spec(s, i, fuel).0.unresolved),
{
    lemma_resolve_invalid(s, i, fuel, s.unresolved.len() as int);
}

proof fn lemma_resolve_invalid_prefix_at(s: BuildView, j: int, fuel: nat)
    requires
        0 <= j < s.unresolved.len(),
    ensures
        s.unresolved.is_prefix_of(resolve_at_spec(s, j, fuel).0.unresolved),
{
    lemma_resolve_at_invalid(s, j, fuel, s.unresolved.len() as int);
}

/// Reading a program as a graph fails with a jump cycle only through an
/// address whose first instruction is a jump, or at which none of the
/// program's instructions stands (a jump added for a conditional's skip
/// address), or with both addresses 0 where reading ran out of steps.
pub proof fn lemma_jump_cycle_through_a_jump(is: Seq<InstructionView>, t: u16, c: u16)
    requires
        is.len() >= 1,
        ast_of(is) == Err::<AstView, DecompilationError>(
            DecompilationError::JumpCycle { target_address: t, current_address: c },
        ),
    ensures
        (t == 0 && c == 0) || forall|j: int|
            0 <= j < is.len() && instruction_address(#[trigger] is[j]) == t && (forall|i: int|
                0 <= i < j ==> instruction_address(is[i]) != t) ==> is[j] is Goto,
{
    let s0 = initial_view(is);
    assert(started_have_nodes(s0));
    lemma_resolve_cycle(s0, 0, (8 * is.len() + 1) as nat);
    let out = resolve_spec(s0, 0, (8 * is.len() + 1) as nat);
    if !(t == 0 && c == 0) {
        let p = position(out.0.unresolved, t)->Some_0;
        lemma_position_first(out.0.unresolved, t);
        lemma_position_found(out.0.unresolved, t);
        assert forall|j: int|
            0 <= j < is.len() && instruction_address(#[trigger] is[j]) == t && (forall|i: int|
                0 <= i < j ==> instruction_address(is[i]) != t) implies is[j] is Goto by {
            assert(out.0.unresolved[j] == s0.unresolved[j]);
            if p < j {
                assert(out.0.unresolved[p] == s0.unresolved[p]);
                assert(instruction_address(is[p]) != t);
            } else if p > j {
                assert(uv_address(out.0.unresolved[j]) != t);
            }
        }
    }
}

} // verus!
