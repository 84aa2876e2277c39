use vstd::prelude::*;

use crate::formatting::{decimal_digits, decimal_string};
use crate::logic::analysis::ast as graph;
use crate::logic::analysis::ast::{ast_of_with, first_out_edge, AstView, LogicASTEdge, NodeKind};
use crate::logic::assembly::LogicLabel;
use crate::logic::{instructions_view, LogicCommand, LogicConditionClause, LogicInstruction};

verus! {

/// Nodes of a decompiled program are named by strings.
pub type LogicASTNodeID = String;

#[derive(Debug, Clone)]
pub struct LogicASTNodeMetadata {
    pub instruction_address: Option<u16>,
}

#[derive(Debug, Clone)]
pub struct LogicCommandNode {
    pub command: LogicCommand,
    pub id: LogicASTNodeID,
    pub label: Option<LogicLabel>,
    pub next: Option<LogicASTNodeID>,
    pub metadata: LogicASTNodeMetadata,
}

#[derive(Debug, Clone)]
pub struct LogicIfNode {
    pub id: LogicASTNodeID,
    pub clauses: Vec<LogicConditionClause>,
    pub then: Option<LogicASTNodeID>,
    pub else_: Option<LogicASTNodeID>,
    pub label: Option<LogicLabel>,
    pub metadata: LogicASTNodeMetadata,
}

#[derive(Debug, Clone)]
pub struct LogicGotoNode {
    pub id: LogicASTNodeID,
    pub jump_target: LogicASTNodeID,
    pub label: Option<LogicLabel>,
    pub metadata: LogicASTNodeMetadata,
}

#[derive(Debug, Clone)]
pub enum LogicASTNode {
    Command(LogicCommandNode),
    If(LogicIfNode),
    Goto(LogicGotoNode),
}

impl LogicASTNode {
    pub open spec fn id_of(&self) -> Seq<char> {
        match self {
            LogicASTNode::Command(node) => node.id@,
            LogicASTNode::If(node) => node.id@,
            LogicASTNode::Goto(node) => node.id@,
        }
    }

    pub open spec fn label_of(&self) -> Option<LogicLabel> {
        match self {
            LogicASTNode::Command(node) => node.label,
            LogicASTNode::If(node) => node.label,
            LogicASTNode::Goto(node) => node.label,
        }
    }

    pub open spec fn metadata_of(&self) -> LogicASTNodeMetadata {
        match self {
            LogicASTNode::Command(node) => node.metadata,
            LogicASTNode::If(node) => node.metadata,
            LogicASTNode::Goto(node) => node.metadata,
        }
    }

    pub fn id(&self) -> (r: &LogicASTNodeID)
        ensures
            r@ == self.id_of(),
    {
        match self {
            LogicASTNode::Command(node) => &node.id,
            LogicASTNode::If(node) => &node.id,
            LogicASTNode::Goto(node) => &node.id,
        }
    }

    pub fn label(&self) -> (r: Option<&LogicLabel>)
        ensures
            r matches Some(l) ==> self.label_of() == Some(*l),
            r is None ==> self.label_of() is None,
    {
        match self {
            LogicASTNode::Command(node) => node.label.as_ref(),
            LogicASTNode::If(node) => node.label.as_ref(),
            LogicASTNode::Goto(node) => node.label.as_ref(),
        }
    }

    pub fn metadata(&self) -> (r: &LogicASTNodeMetadata)
        ensures
            *r == self.metadata_of(),
    {
        match self {
            LogicASTNode::Command(node) => &node.metadata,
            LogicASTNode::If(node) => &node.metadata,
            LogicASTNode::Goto(node) => &node.metadata,
        }
    }
}

/// Why bytecode could not be read as a program: a jump to an address where
/// no instruction stands, a chain of jumps that comes back to itself, or no
/// address left for the jump of a conditional's skip address.
#[derive(Debug, Clone, Copy, PartialEq, Eq, Structural)]
pub enum DecompilationError {
    InvalidJump { target_address: u16, current_address: u16 },
    JumpCycle { target_address: u16, current_address: u16 },
    AddressOverflow { current_address: u16 },
}

impl DecompilationError {
    /// The error as it is reported: the same words as for the graph.
    pub fn to_string(&self) -> (r: String)
        ensures
            match *self {
                DecompilationError::InvalidJump { target_address, current_address } => r@
                    == "Invalid jump to "@ + decimal_digits(target_address as nat) + " at "@ + decimal_digits(
                    current_address as nat,
                ),
                DecompilationError::JumpCycle { target_address, current_address } => r@ == "Jump cycle through "@
                    + decimal_digits(target_address as nat) + " at "@ + decimal_digits(current_address as nat),
                DecompilationError::AddressOverflow { current_address } => r@ == "No address after "@
                    + decimal_digits(current_address as nat),
            },
    {
        let e = match *self {
            DecompilationError::InvalidJump { target_address, current_address } => graph::DecompilationError::InvalidJump {
                target_address,
                current_address,
            },
            DecompilationError::JumpCycle { target_address, current_address } => graph::DecompilationError::JumpCycle {
                target_address,
                current_address,
            },
            DecompilationError::AddressOverflow { current_address } => graph::DecompilationError::AddressOverflow {
                current_address,
            },
        };
        e.to_string()
    }
}

pub open spec fn error_of(e: graph::DecompilationError) -> DecompilationError {
    match e {
        graph::DecompilationError::InvalidJump { target_address, current_address } => DecompilationError::InvalidJump {
            target_address,
            current_address,
        },
        graph::DecompilationError::JumpCycle { target_address, current_address } => DecompilationError::JumpCycle {
            target_address,
            current_address,
        },
        graph::DecompilationError::AddressOverflow { current_address } => DecompilationError::AddressOverflow {
            current_address,
        },
    }
}

fn convert_error(e: graph::DecompilationError) -> (r: DecompilationError)
    ensures
        r == error_of(e),
{
    match e {
        graph::DecompilationError::InvalidJump { target_address, current_address } => DecompilationError::InvalidJump {
            target_address,
            current_address,
        },
        graph::DecompilationError::JumpCycle { target_address, current_address } => DecompilationError::JumpCycle {
            target_address,
            current_address,
        },
        graph::DecompilationError::AddressOverflow { current_address } => DecompilationError::AddressOverflow {
            current_address,
        },
    }
}

/// The name of a node: the decimal digits of its instruction's address.
pub open spec fn node_name(address: Option<u16>) -> Seq<char> {
    match address {
        Some(a) => decimal_digits(a as nat),
        None => Seq::empty(),
    }
}

/// A node as far as the program's shape goes: its kind, its address, its
/// name, where it goes next (a command's next node, a conditional's `then`
/// node, a jump's target) and a conditional's `else` node, by name.
pub struct ScriptNodeView {
    pub kind: NodeKind,
    pub address: Option<u16>,
    pub id: Seq<char>,
    pub first: Option<Seq<char>>,
    pub second: Option<Seq<char>>,
}

pub open spec fn script_node_view(n: LogicASTNode) -> ScriptNodeView {
    match n {
        LogicASTNode::Command(LogicCommandNode { next: nx, id, metadata, .. }) => ScriptNodeView {
            kind: NodeKind::Command,
            address: metadata.instruction_address,
            id: id@,
            first: match nx {
                Some(x) => Some(x@),
                None => None,
            },
            second: None,
        },
        LogicASTNode::If(LogicIfNode { then: t, else_: e, id, metadata, .. }) => ScriptNodeView {
            kind: NodeKind::If,
            address: metadata.instruction_address,
            id: id@,
            first: match t {
                Some(x) => Some(x@),
                None => None,
            },
            second: match e {
                Some(x) => Some(x@),
                None => None,
            },
        },
        LogicASTNode::Goto(g) => ScriptNodeView {
            kind: NodeKind::Goto,
            address: g.metadata.instruction_address,
            id: g.id@,
            first: Some(g.jump_target@),
            second: None,
        },
    }
}

/// The name of the node an edge of `kind` leads to from node `k`.
pub open spec fn linked_name(v: AstView, k: int, kind: LogicASTEdge) -> Option<Seq<char>> {
    match first_out_edge(v.edges, k, kind) {
        Some(t) => Some(node_name(v.nodes[t].address)),
        None => None,
    }
}

/// Node `k` of a graph read from bytecode, as a program node: named by its
/// address, with its links by name.
pub open spec fn script_node_of(v: AstView, k: int) -> ScriptNodeView {
    let n = v.nodes[k];
    match n.kind {
        NodeKind::Command => ScriptNodeView {
            kind: NodeKind::Command,
            address: n.address,
            id: node_name(n.address),
            first: linked_name(v, k, LogicASTEdge::CommandToNext),
            second: None,
        },
        NodeKind::If => ScriptNodeView {
            kind: NodeKind::If,
            address: n.address,
            id: node_name(n.address),
            first: linked_name(v, k, LogicASTEdge::IfThen),
            second: linked_name(v, k, LogicASTEdge::IfElse),
        },
        NodeKind::Goto => ScriptNodeView {
            kind: NodeKind::Goto,
            address: n.address,
            id: node_name(n.address),
            first: Some(
                match linked_name(v, k, LogicASTEdge::GotoToTarget) {
                    Some(x) => x,
                    None => Seq::empty(),
                },
            ),
            second: None,
        },
    }
}

fn name_of(address: Option<u16>) -> (r: String)
    ensures
        r@ == node_name(address),
{
    match address {
        Some(a) => decimal_string(a as u32),
        None => String::new(),
    }
}

fn target_name(g: &graph::LogicAST, t: usize) -> (r: String)
    requires
        t < g.nodes@.len(),
    ensures
        r@ == node_name(g.view_of().nodes[t as int].address),
{
    let n = &g.nodes[t];
    proof {
        assert(g.view_of().nodes[t as int] == graph::node_view(*n));
    }
    let a = n.metadata().instruction_address;
    proof {
        assert(graph::node_view(*n).address == n.metadata_of().instruction_address);
    }
    name_of(a)
}

/// A decompiled program: its nodes, each named, and the name of the first.
#[derive(Debug, Clone)]
pub struct LogicAST {
    pub root_node_id: LogicASTNodeID,
    pub nodes: Vec<LogicASTNode>,
}

impl LogicAST {
    pub fn new(root_node_id: LogicASTNodeID, nodes: Vec<LogicASTNode>) -> (r: Self)
        ensures
            r.root_node_id == root_node_id,
            r.nodes == nodes,
    {
        LogicAST { root_node_id, nodes }
    }

    /// The nodes as values.
    pub open spec fn nodes_view(&self) -> Seq<ScriptNodeView> {
        self.nodes@.map_values(|n: LogicASTNode| script_node_view(n))
    }

    /// The first node named `id`.
    pub fn get_node(&self, id: &LogicASTNodeID) -> (r: Option<&LogicASTNode>)
        ensures
            match r {
                Some(n) => exists|k: int|
                    0 <= k < self.nodes@.len() && self.nodes@[k] == *n && n.id_of() == id@ && forall|j: int|
                        0 <= j < k ==> (#[trigger] self.nodes@[j]).id_of() != id@,
                None => forall|k: int| 0 <= k < self.nodes@.len() ==> (#[trigger] self.nodes@[k]).id_of() != id@,
            },
    {
        let mut k: usize = 0;
        while k < self.nodes.len()
            invariant
                k <= self.nodes@.len(),
                forall|j: int| 0 <= j < k ==> (#[trigger] self.nodes@[j]).id_of() != id@,
            decreases self.nodes@.len() - k,
        {
            if *self.nodes[k].id() == *id {
                return Some(&self.nodes[k]);
            }
            k = k + 1;
        }
        None
    }

    /// The node named by the root's name.
    pub fn root_node(&self) -> (r: &LogicASTNode)
        requires
            exists|k: int| 0 <= k < self.nodes@.len() && (#[trigger] self.nodes@[k]).id_of() == self.root_node_id@,
        ensures
            r.id_of() == self.root_node_id@,
            exists|k: int| 0 <= k < self.nodes@.len() && self.nodes@[k] == *r,
    {
        match self.get_node(&self.root_node_id) {
            Some(n) => n,
            None => {
                proof {
                    let k = choose|k: int| 0 <= k < self.nodes@.len() && (#[trigger] self.nodes@[k]).id_of() == self.root_node_id@;
                    assert(self.nodes@[k].id_of() != self.root_node_id@);
                }
                &self.nodes[0]
            },
        }
    }

    /// Reads the instructions as a program from the first one on: the nodes
    /// of the graph that reading bytecode gives (where a conditional read
    /// when no instruction waits after it has no `then` node), each named by
    /// its address and linked by name, in the order they were made; or the
    /// error of that reading.
    pub fn from_instructions(instructions: &[LogicInstruction]) -> (r: Result<Self, DecompilationError>)
        requires
            instructions@.len() >= 1,
        ensures
            match ast_of_with(instructions_view(instructions@), true) {
                Ok(v) => r matches Ok(ast) && ast.nodes_view() == Seq::new(
                    v.nodes.len(),
                    |k: int| script_node_of(v, k),
                ) && ast.root_node_id@ == node_name(v.nodes[v.root].address),
                Err(e) => r == Err::<Self, DecompilationError>(error_of(e)),
            },
    {
        let g = match graph::LogicAST::read_instructions(instructions, true) {
            Ok(g) => g,
            Err(e) => {
                return Err(convert_error(e));
            },
        };
        let ghost v = g.view_of();
        proof {
            assert forall|k: int, kind: LogicASTEdge| #[trigger] first_out_edge(v.edges, k, kind) matches Some(t) ==> 0 <= t <= usize::MAX by {
                graph::lemma_first_out_edge_index(g.edges@, k, kind);
            }
        }
        let mut nodes: Vec<LogicASTNode> = Vec::new();
        let mut k: usize = 0;
        while k < g.nodes.len()
            invariant
                k <= g.nodes@.len(),
                v == g.view_of(),
                g.wf(),
                forall|j: int, kind: LogicASTEdge| #[trigger] first_out_edge(v.edges, j, kind) matches Some(t) ==> 0 <= t <= usize::MAX,
                nodes@.map_values(|n: LogicASTNode| script_node_view(n)) == Seq::new(k as nat, |j: int| script_node_of(v, j)),
            decreases g.nodes@.len() - k,
        {
            let node = &g.nodes[k];
            proof {
                assert(v.nodes[k as int] == graph::node_view(*node));
                assert(graph::node_view(*node).address == node.metadata_of().instruction_address);
            }
            let id = name_of(node.metadata().instruction_address);
            let made = match node {
                graph::LogicASTNode::Command(c) => {
                    let nid = g.next_node_id(k);
                    let next_id = match nid {
                        Some(t) => Some(target_name(&g, t)),
                        None => None,
                    };

                    let m = LogicASTNode::Command(LogicCommandNode {
                        command: c.command.clone(),
                        id,
                        label: c.label.clone(),
                        next: next_id,
                        metadata: LogicASTNodeMetadata { instruction_address: c.metadata.instruction_address },
                    });
                    proof {
                        assert(script_node_view(m) == script_node_of(v, k as int));
                    }
                    m
                },
                graph::LogicASTNode::If(i) => {
                    let then_id = match g.then_node_id(k) {
                        Some(t) => Some(target_name(&g, t)),
                        None => None,
                    };
                    let else_ = match g.else_node_id(k) {
                        Some(t) => Some(target_name(&g, t)),
                        None => None,
                    };
                    let m = LogicASTNode::If(LogicIfNode {
                        id,
                        clauses: i.clauses.clone(),
                        then: then_id,
                        else_,
                        label: i.label.clone(),
                        metadata: LogicASTNodeMetadata { instruction_address: i.metadata.instruction_address },
                    });
                    proof {
                        assert(script_node_view(m) == script_node_of(v, k as int));
                    }
                    m
                },
                graph::LogicASTNode::Goto(x) => {
                    let jump_target = match g.goto_target_node_id(k) {
                        Some(t) => target_name(&g, t),
                        None => String::new(),
                    };
                    let m = LogicASTNode::Goto(LogicGotoNode {
                        id,
                        jump_target,
                        label: x.label.clone(),
                        metadata: LogicASTNodeMetadata { instruction_address: x.metadata.instruction_address },
                    });
                    proof {
                        assert(script_node_view(m) == script_node_of(v, k as int));
                    }
                    m
                },
            };
            proof {
                assert(v.nodes[k as int] == graph::node_view(g.nodes@[k as int]));
                assert(script_node_view(made) == script_node_of(v, k as int));
            }
            let ghost before = nodes@;
            nodes.push(made);
            proof {
                assert(nodes@.map_values(|n: LogicASTNode| script_node_view(n)) =~= before.map_values(
                    |n: LogicASTNode| script_node_view(n),
                ).push(script_node_view(made)));
                assert(Seq::new((k + 1) as nat, |j: int| script_node_of(v, j)) =~= Seq::new(
                    k as nat,
                    |j: int| script_node_of(v, j),
                ).push(script_node_of(v, k as int)));
                assert(nodes@.map_values(|n: LogicASTNode| script_node_view(n)) =~= Seq::new(
                    (k + 1) as nat,
                    |j: int| script_node_of(v, j),
                ));
            }
            k = k + 1;
        }
        let root_id = name_of(g.nodes[g.root_node_id].metadata().instruction_address);
        Ok(LogicAST { root_node_id: root_id, nodes })
    }
}

} // verus!
