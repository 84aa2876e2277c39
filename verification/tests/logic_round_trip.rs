use agikit::logic::logic_script::ast::{LogicAST as ScriptAST, LogicASTNode as ScriptNode, LogicIfNode};
use agikit::logic::analysis::basic_block_graph::{
    concatenate_linear_blocks, remove_empty_block, BasicBlock, BasicBlockEdgeType, BasicBlockGraph, SinglePathBasicBlock,
};
use agikit::logic::analysis::ast::{LogicASTNodeMetadata, LogicCommandNode};
use agikit::logic::assembly::LogicLabel;
use agikit::logic::analysis::ast::{DecompilationError, LogicAST, LogicASTEdge};
use std::collections::HashMap;

use agikit::agi_version::AGIVersion;
use agikit::logic::commands::{AGICommand, TestCommand};
use agikit::logic::{
    LogicCommand, LogicCondition, LogicConditionClause, LogicGoto, LogicInstruction, LogicOr,
    LogicProgram, LogicTest,
};

fn test(opcode: u8, args: Vec<u16>, negate: bool) -> LogicTest {
    LogicTest { test_command: TestCommand::get(opcode).unwrap(), args, negate }
}

fn command(address: u16, opcode: u8, args: Vec<u8>, version: &AGIVersion) -> LogicInstruction {
    LogicInstruction::Command(LogicCommand {
        address,
        agi_command: AGICommand::get(opcode, version).unwrap(),
        args,
    })
}

/// A condition, an action, a jump and a return, each declared at the
/// position where it is written.
fn sample_program(version: &AGIVersion) -> LogicProgram {
    let clauses = vec![
        LogicConditionClause::Test(test(7, vec![5], false)),
        LogicConditionClause::Or(LogicOr {
            or_tests: vec![test(1, vec![1, 3], true), test(14, vec![1, 2], false)],
        }),
    ];
    let mut messages: HashMap<u8, String> = HashMap::new();
    messages.insert(1, "Hello".to_string());
    messages.insert(3, "World".to_string());
    LogicProgram {
        instructions: vec![
            LogicInstruction::Condition(LogicCondition { address: 0, clauses, skip_address: 20 }),
            command(18, 1, vec![7], version),
            LogicInstruction::Goto(LogicGoto { address: 20, jump_address: 23 }),
            command(23, 0, vec![], version),
        ],
        messages,
    }
}

fn written_then_read(version: &AGIVersion, encrypt: bool) -> (LogicProgram, LogicProgram) {
    let program = sample_program(version);
    let bytes = program.encode(encrypt).expect("Failed to encode logic program");
    let read = LogicProgram::decode(&bytes, version).expect("Failed to decode logic program");
    (program, read)
}

fn assert_read_back(program: &LogicProgram, read: &LogicProgram) {
    assert_eq!(read.instructions, program.instructions);
    assert_eq!(read.messages.len(), 4);
    assert_eq!(read.messages.get(&0).unwrap(), "");
    assert_eq!(read.messages.get(&1).unwrap(), "Hello");
    assert_eq!(read.messages.get(&2).unwrap(), "");
    assert_eq!(read.messages.get(&3).unwrap(), "World");
}

#[test]
fn logic_program_written_then_read_by_version_2() {
    let version = AGIVersion::new(2, 917);
    let (program, read) = written_then_read(&version, true);
    assert_read_back(&program, &read);
}

#[test]
fn logic_program_written_then_read_by_version_3() {
    let version = AGIVersion::new(3, 2149);
    let (program, read) = written_then_read(&version, false);
    assert_read_back(&program, &read);
}

#[test]
fn logic_program_bytes_are_as_expected() {
    let version = AGIVersion::new(3, 2149);
    let program = sample_program(&version);
    let bytes = program.encode(false).expect("Failed to encode logic program");
    let code: Vec<u8> = vec![
        0xff, 7, 5, 0xfc, 0xfd, 1, 1, 3, 14, 2, 1, 0, 2, 0, 0xfc, 0xff, 2, 0, // condition
        1, 7, // increment
        0xfe, 0, 0, // goto, to the next instruction
        0, // return
    ];
    assert_eq!(bytes[0], 24);
    assert_eq!(bytes[1], 0);
    assert_eq!(&bytes[2..26], &code[..]);
    // Four numbers, the end marker, then offsets 10, 11, 17 and 18 from the count byte.
    assert_eq!(bytes[26], 4);
    assert_eq!(&bytes[29..37], &[10, 0, 11, 0, 17, 0, 18, 0]);
    assert_eq!(&bytes[37..], b"\0Hello\0\0World\0");
}

#[test]
fn bytecode_reads_as_a_graph_of_nodes() {
    let version = AGIVersion::new(2, 917);
    let program = sample_program(&version);
    let ast = LogicAST::from_instructions(&program.instructions).expect("Failed to build the graph");
    assert_eq!(ast.nodes.len(), 5);
    assert_eq!(ast.root_node_id, 0);
    assert!(ast.edges.contains(&(0, 1, LogicASTEdge::IfThen)));
    assert!(ast.edges.contains(&(0, 4, LogicASTEdge::IfElse)));
    assert!(ast.edges.contains(&(1, 3, LogicASTEdge::CommandToNext)));
    assert!(ast.edges.contains(&(3, 2, LogicASTEdge::GotoToTarget)));
    assert!(ast.edges.contains(&(4, 3, LogicASTEdge::GotoToTarget)));
    assert_eq!(ast.edges.len(), 5);
    assert_eq!(ast.nodes_by_address.get(&24), Some(&4));
    assert_eq!(ast.outgoing_neighbor_id_of_type(0, LogicASTEdge::IfElse), Some(4));
}

#[test]
fn jumps_in_a_cycle_or_to_nowhere_are_errors() {
    let cycle = vec![
        LogicInstruction::Goto(LogicGoto { address: 0, jump_address: 2 }),
        LogicInstruction::Goto(LogicGoto { address: 2, jump_address: 0 }),
    ];
    match LogicAST::from_instructions(&cycle) {
        Err(DecompilationError::JumpCycle { target_address, current_address }) => {
            assert_eq!((target_address, current_address), (2, 0));
        }
        _ => panic!("expected a jump cycle"),
    }
    let nowhere = vec![LogicInstruction::Goto(LogicGoto { address: 0, jump_address: 99 })];
    match LogicAST::from_instructions(&nowhere) {
        Err(e) => {
            assert_eq!(e, DecompilationError::InvalidJump { target_address: 99, current_address: 0 });
            assert_eq!(e.to_string(), "Invalid jump to 99 at 0");
        }
        _ => panic!("expected an invalid jump"),
    }
}

#[test]
fn a_loop_through_a_command_reads_as_a_graph() {
    let version = AGIVersion::new(2, 917);
    let program = vec![
        LogicInstruction::Goto(LogicGoto { address: 0, jump_address: 2 }),
        command(2, 1, vec![7], &version),
        LogicInstruction::Goto(LogicGoto { address: 4, jump_address: 0 }),
    ];
    let ast = LogicAST::from_instructions(&program).expect("Failed to build the graph");
    assert_eq!(ast.nodes.len(), 4);
    assert_eq!(ast.root_node_id, 3);
    for edge in [
        (1, 0, LogicASTEdge::GotoToTarget),
        (2, 1, LogicASTEdge::GotoToTarget),
        (0, 2, LogicASTEdge::CommandToNext),
        (3, 0, LogicASTEdge::GotoToTarget),
    ] {
        assert!(ast.edges.contains(&edge), "missing {:?}", edge);
    }
    assert_eq!(ast.edges.len(), 4);
}

#[test]
fn graph_reads_as_basic_blocks() {
    let version = AGIVersion::new(2, 917);
    let program = sample_program(&version);
    let ast = LogicAST::from_instructions(&program.instructions).expect("Failed to build the graph");
    let blocks = BasicBlockGraph::from_ast(&ast);
    assert_eq!(blocks.blocks.len(), 5);
    assert_eq!(blocks.root_block_id, 0);
    assert_eq!(
        blocks.edges,
        vec![
            (2, 3, BasicBlockEdgeType::Next),
            (1, 2, BasicBlockEdgeType::Next),
            (0, 1, BasicBlockEdgeType::IfThen),
            (4, 2, BasicBlockEdgeType::Next),
            (0, 4, BasicBlockEdgeType::IfElse),
        ]
    );
    match &blocks.blocks[0] {
        BasicBlock::Conditional(_) => {}
        _ => panic!("the root block should be conditional"),
    }
}

fn script_links(node: &ScriptNode) -> (String, Option<String>, Option<String>) {
    match node {
        ScriptNode::Command(c) => (c.id.clone(), c.next.clone(), None),
        ScriptNode::If(LogicIfNode { id, then: t, else_: e, .. }) => (id.clone(), t.clone(), e.clone()),
        ScriptNode::Goto(g) => (g.id.clone(), Some(g.jump_target.clone()), None),
    }
}

fn named(id: &str, first: Option<&str>, second: Option<&str>) -> (String, Option<String>, Option<String>) {
    (id.to_string(), first.map(|s| s.to_string()), second.map(|s| s.to_string()))
}

#[test]
fn ast_test_build_ast() {
    let version = AGIVersion::new(2, 917);
    let program = sample_program(&version);
    let ast = ScriptAST::from_instructions(&program.instructions)
        .expect("Failed to build AST from instructions");
    assert!(!ast.root_node().id().is_empty(), "AST should have a root node");
}

#[test]
fn bytecode_reads_as_named_program_nodes() {
    let version = AGIVersion::new(2, 917);
    let program = sample_program(&version);
    let ast = ScriptAST::from_instructions(&program.instructions)
        .expect("Failed to build the program");
    assert_eq!(ast.root_node_id, "0");
    let links: Vec<_> = ast.nodes.iter().map(script_links).collect();
    assert_eq!(
        links,
        vec![
            named("0", Some("18"), Some("24")),
            named("18", Some("20"), None),
            named("23", None, None),
            named("20", Some("23"), None),
            named("24", Some("20"), None),
        ]
    );
    assert!(ast.get_node(&"23".to_string()).is_some());
    assert!(ast.get_node(&"99".to_string()).is_none());
}

#[test]
fn a_conditional_read_last_has_no_then_node() {
    let version = AGIVersion::new(2, 917);
    let program = vec![
        command(0, 1, vec![7], &version),
        LogicInstruction::Condition(LogicCondition {
            address: 2,
            clauses: vec![LogicConditionClause::Test(test(7, vec![5], false))],
            skip_address: 0,
        }),
    ];
    let ast = ScriptAST::from_instructions(&program).expect("Failed to build the program");
    let links: Vec<_> = ast.nodes.iter().map(script_links).collect();
    assert_eq!(
        links,
        vec![named("0", Some("2"), None), named("2", None, Some("3")), named("3", Some("0"), None)]
    );
    let graph = LogicAST::from_instructions(&program).expect("Failed to build the graph");
    assert!(graph.edges.contains(&(1, 2, LogicASTEdge::IfThen)));
}

fn build_increment_command_node(address: u16) -> LogicCommandNode {
    LogicCommandNode {
        command: LogicCommand {
            agi_command: AGICommand::get(1, &AGIVersion::new(2, 917)).unwrap(),
            address,
            args: vec![address as u8],
        },
        label: Some(LogicLabel { label: format!("Address{}", address), address, references: vec![] }),
        metadata: LogicASTNodeMetadata { instruction_address: Some(address) },
    }
}

fn single(commands: Vec<LogicCommandNode>, label: Option<&str>) -> BasicBlock {
    BasicBlock::SinglePath(SinglePathBasicBlock { commands, label: label.map(|l| l.to_string()) })
}

fn kept(graph: &BasicBlockGraph) -> usize {
    graph.removed.iter().filter(|r| !**r).count()
}

#[test]
fn test_remove_empty_block() {
    let mut graph = BasicBlockGraph {
        blocks: vec![
            single(vec![build_increment_command_node(1)], Some("Address1")),
            single(vec![], None),
            single(vec![build_increment_command_node(3)], Some("Address3")),
        ],
        edges: vec![(0, 1, BasicBlockEdgeType::Next), (1, 2, BasicBlockEdgeType::Next)],
        root_block_id: 0,
        removed: vec![false; 3],
    };
    assert!(remove_empty_block(&mut graph, 1).is_changed(), "Block was not removed");
    assert_eq!(2, kept(&graph));
    let BasicBlock::SinglePath(block1) = &graph.blocks[0] else {
        panic!("Unexpected weight for {:?}: {:?}", 0, graph.blocks[0]);
    };
    assert_eq!(1, block1.commands.len());
    let Some(&(_, next_block_id, _)) = graph.edges.iter().rev().find(|e| e.0 == 0 && e.2 == BasicBlockEdgeType::Next) else {
        panic!("{:?} had no Next edge", 0);
    };
    let BasicBlock::SinglePath(next_block) = &graph.blocks[next_block_id] else {
        panic!("Unexpected weight for {:?}: {:?}", next_block_id, graph.blocks[next_block_id]);
    };
    assert_eq!(1, next_block.commands.len());
}

#[test]
fn test_concatenate_linear_blocks() {
    let mut graph = BasicBlockGraph {
        blocks: vec![
            single(vec![build_increment_command_node(1)], Some("Address1")),
            single(vec![build_increment_command_node(3)], None),
        ],
        edges: vec![(0, 1, BasicBlockEdgeType::Next)],
        root_block_id: 0,
        removed: vec![false; 2],
    };
    assert!(concatenate_linear_blocks(&mut graph, 1).is_changed(), "Block was not removed");
    assert_eq!(1, kept(&graph));
    assert_eq!(0, graph.edges.len());
    let BasicBlock::SinglePath(block1) = &graph.blocks[0] else {
        panic!("Unexpected weight for {:?}: {:?}", 0, graph.blocks[0]);
    };
    assert_eq!(2, block1.commands.len());
}

#[test]
fn an_empty_block_passes_its_label_on_and_labelled_blocks_stay() {
    let mut graph = BasicBlockGraph {
        blocks: vec![
            single(vec![build_increment_command_node(1)], None),
            single(vec![], Some("Skip")),
            single(vec![build_increment_command_node(3)], None),
        ],
        edges: vec![(0, 1, BasicBlockEdgeType::Next), (1, 2, BasicBlockEdgeType::Next)],
        root_block_id: 0,
        removed: vec![false; 3],
    };
    assert!(!concatenate_linear_blocks(&mut graph, 1).is_changed());
    assert!(remove_empty_block(&mut graph, 1).is_changed());
    assert_eq!(graph.edges, vec![(0, 2, BasicBlockEdgeType::Next)]);
    assert_eq!(graph.blocks[2].label(), Some(&"Skip".to_string()));
    assert!(!remove_empty_block(&mut graph, 1).is_changed());
}

#[test]
fn optimizing_removes_empty_blocks_joins_linear_ones_and_then_stops() {
    let mut graph = BasicBlockGraph {
        blocks: vec![
            single(vec![build_increment_command_node(1)], Some("Start")),
            single(vec![], None),
            single(vec![build_increment_command_node(3)], None),
            single(vec![build_increment_command_node(4)], Some("End")),
        ],
        edges: vec![
            (0, 1, BasicBlockEdgeType::Next),
            (1, 2, BasicBlockEdgeType::Next),
            (2, 3, BasicBlockEdgeType::Next),
        ],
        root_block_id: 0,
        removed: vec![false; 4],
    };
    assert!(graph.optimize().is_changed());
    assert_eq!(graph.removed, vec![false, true, true, false]);
    assert_eq!(graph.edges, vec![(0, 3, BasicBlockEdgeType::Next)]);
    let BasicBlock::SinglePath(first) = &graph.blocks[0] else {
        panic!("Unexpected weight for 0: {:?}", graph.blocks[0]);
    };
    assert_eq!(2, first.commands.len());
    assert_eq!(graph.blocks[0].label(), Some(&"Start".to_string()));
    assert!(!graph.optimize().is_changed());
    assert!(!graph.run_optimization_passes_once().is_changed());
}

#[test]
fn optimizing_the_blocks_of_a_program_leaves_fewer_blocks() {
    let version = AGIVersion::new(2, 917);
    let program = sample_program(&version);
    let ast = LogicAST::from_instructions(&program.instructions).expect("Failed to build the graph");
    let mut blocks = BasicBlockGraph::from_ast(&ast);
    let initial = kept(&blocks);
    assert!(initial > 0, "Basic block graph should not be empty");
    assert!(blocks.optimize().is_changed());
    assert!(kept(&blocks) < initial, "Basic block graph should be optimized to fewer nodes");
    assert!(!blocks.run_optimization_passes_once().is_changed());
}
