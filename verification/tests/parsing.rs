use agikit::logic::analysis::optimization::OptimizationResult;
use agikit::logic::logic_script::codegen::statement_graph::{LogicScriptStatementGraph, LogicScriptStatementGraphEdge};
use agikit::logic::logic_script::parsing::logic_script_parser::script_panics;
use agikit::logic::assembly::expressions::{LogicBooleanExpression, ParsedLogicArgument};
use agikit::logic::assembly::literals::LogicLiteralValue;
use agikit::logic::logic_script::directives::Directive;
use agikit::logic::logic_script::operators::LogicScriptArithmeticOperator;
use agikit::logic::logic_script::parsing::logic_script_parser;
use agikit::logic::logic_script::parsing::logic_script_parser::LogicScriptProgram;
use agikit::logic::logic_script::statements::LogicScriptStatementBody;

#[test]
fn test_parse_command_call() {
    let script = "command(arg1, arg2);";
    let result = logic_script_parser::program(script).expect("Failed to parse script");

    assert_eq!(result.len(), 1, "Expected one statement");
    if let LogicScriptStatementBody::CommandCall(call) = &result[0].value.body {
        assert_eq!(call.command_name, "command");
        assert_eq!(call.argument_list.len(), 2);
    } else {
        panic!("Expected a command call statement");
    }
}

#[test]
fn test_parse_if_statement() {
    let script = r#"
        if (condition) {
            command(arg1, arg2);
        } else {
            command(arg3);
        }"#;

    let result = logic_script_parser::program(script).expect("Failed to parse script");
    assert_eq!(result.len(), 1, "Expected one statement");
}

#[test]
fn test_parse_multi_clause_boolean() {
    let script = r#"
        if ((a && !b) || c) { command(); }
        "#;
    let result = logic_script_parser::program(script).expect("Failed to parse script");

    assert_eq!(result.len(), 1, "Expected one statement");
    if let LogicScriptStatementBody::IfStatement(if_statement) = &result[0].value.body {
        assert!(matches!(
            if_statement.conditions,
            LogicBooleanExpression::OrExpression(_)
        ));
        assert!(if_statement.then_statements.len() == 1);
    } else {
        panic!("Expected an if statement");
    }
}

#[test]
fn test_long_arithmetic_assignments() {
    let expect_correct_results = |result: LogicScriptProgram| {
        if let LogicScriptStatementBody::ArithmeticAssignment(assignment) = &result[0].value.body {
            assert!(matches!(
                assignment.operator,
                LogicScriptArithmeticOperator::Add
            ));
            assert!(assignment.assignee.name == "v1");
            if let ParsedLogicArgument::Literal(literal) = &assignment.value {
                assert!(matches!(literal.value, LogicLiteralValue::Number(ref n) if n.value == 2));
            } else {
                panic!("Expected a numeric literal as value");
            }
        } else {
            panic!("Expected an arithmetic assignment statement");
        }
    };

    let left_assign_result =
        logic_script_parser::program("v1 = v1 + 2;").expect("Failed to parse script");
    expect_correct_results(left_assign_result);

    let right_assign_result =
        logic_script_parser::program("v1 = 2 + v1;").expect("Failed to parse script");
    expect_correct_results(right_assign_result);

    logic_script_parser::program("v1 = v2 + 2;").expect_err("Parsing should fail");
    logic_script_parser::program("v1 = 2 + v2;").expect_err("Parsing should fail");
}

const SAMPLE_SCRIPT: &str = r#"// The first room.
#define ego o0
#define door_open f40
#message 1 "You see a small room." /* a note */ " It is quiet."

if (isset(f5)) {
  load.view(0);
  v30 = 4;
  v31 += 2;
  v32 = v32 * 3;
  *v33 = 7;
  v34 = *v35;
  v36++;
  if (v30 > 3 && !door_open) {
    print("The door is closed.");
  } else {
    goto(done);
  }
}

done:
return();
"#;

#[test]
fn parsing_smoke_test() {
    let result = logic_script_parser::program(SAMPLE_SCRIPT).expect("Failed to parse script");
    assert!(!result.is_empty(), "Parsed script should not be empty");
}

#[test]
fn parsed_script_has_each_kind_of_statement() {
    let result = logic_script_parser::program(SAMPLE_SCRIPT).expect("Failed to parse script");
    assert_eq!(result.len(), 6);
    assert!(matches!(result[0].value.body, LogicScriptStatementBody::Comment(_)));
    match &result[3].value.body {
        LogicScriptStatementBody::Directive(d) => match &d.directive {
            Directive::Message { number, message } => {
                assert_eq!(number.value, 1);
                assert_eq!(message.value(), "You see a small room. It is quiet.");
                assert_eq!(message.parts.len(), 3);
            }
            _ => panic!("Expected a message directive"),
        },
        _ => panic!("Expected a directive"),
    }
    match &result[4].value.body {
        LogicScriptStatementBody::IfStatement(i) => {
            assert_eq!(i.then_statements.len(), 8);
            assert!(i.else_keyword.is_none());
        }
        _ => panic!("Expected an if statement"),
    }
    assert_eq!(result[5].value.label.as_deref(), Some("done"));
    assert_eq!(result[0].location.start.offset, 0);
    assert_eq!(result[0].location.end.offset, 19);
}

#[test]
fn hex_literal_is_read_as_zero_and_fails() {
    // The decimal form is tried first and takes the `0` of `0x1f`.
    logic_script_parser::program("v1 = 0x1f;").expect_err("Parsing should fail");
}

#[test]
fn escapes_in_strings_are_read() {
    let result =
        logic_script_parser::program("print(\"a\\tb\\x41\\\"\");").expect("Failed to parse script");
    if let LogicScriptStatementBody::CommandCall(call) = &result[0].value.body {
        match &call.argument_list[0] {
            ParsedLogicArgument::Literal(l) => match &l.value {
                LogicLiteralValue::String(s) => assert_eq!(s.value, "a\tbA\""),
                _ => panic!("Expected a string"),
            },
            _ => panic!("Expected a literal"),
        }
    } else {
        panic!("Expected a command call");
    }
}

#[test]
fn stopping_point_is_reported() {
    let err = logic_script_parser::program("a();\n)").expect_err("Parsing should fail");
    assert_eq!(err.offset, 5);
}

#[test]
fn less_or_equal_is_not_a_comparison() {
    // `<` is tried before `<=`, so the `=` is left where an argument should be.
    logic_script_parser::program("if (v1 <= 3) { a(); }").expect_err("Parsing should fail");
}

use agikit::agi_version::AGIVersion;
use agikit::logic::logic_script::compile::errors::CompilationError;
use agikit::logic::logic_script::compile::preprocess::parse_logic_script_raw;

#[test]
fn known_commands_pass_the_checks() {
    let version = AGIVersion::new(2, 917);
    let program = parse_logic_script_raw("load.view(1);\ngoto(done);\ndone:\nreturn();", &version)
        .expect("Script should be accepted");
    assert_eq!(program.len(), 3);
}

#[test]
fn unknown_command_is_reported() {
    let version = AGIVersion::new(2, 917);
    match parse_logic_script_raw("if (isset(f1)) {\n  frobnicate();\n}", &version) {
        Err(CompilationError::FailedDiagnostics(diagnostics)) => {
            assert_eq!(diagnostics.len(), 1);
            assert_eq!(diagnostics[0].message, "Unknown command name: frobnicate");
            assert_eq!(diagnostics[0].location.as_ref().unwrap().start.offset, 19);
        }
        other => panic!("Expected diagnostics, got {:?}", other),
    }
}

#[test]
fn wrong_argument_count_is_reported() {
    let version = AGIVersion::new(2, 917);
    match parse_logic_script_raw("load.view(1, 2);", &version) {
        Err(CompilationError::FailedDiagnostics(diagnostics)) => {
            assert_eq!(diagnostics.len(), 1);
            assert_eq!(diagnostics[0].message, "Wrong number of arguments: expected 1, got 2");
        }
        other => panic!("Expected diagnostics, got {:?}", other),
    }
}

#[test]
fn unreadable_script_is_a_parse_error() {
    let version = AGIVersion::new(2, 917);
    match parse_logic_script_raw("load.view(1)", &version) {
        Err(CompilationError::ParseError(e)) => assert_eq!(e.offset, 0),
        other => panic!("Expected a parse error, got {:?}", other),
    }
}

use agikit::logic::logic_script::format::format_logic_script;

const CANONICAL_SCRIPT: &str = "// The first room.\n\n#define door_open f40\n#message 1 \"You see a small room.\"\nif (f5) {\n  load.view(0);\n  v30 = 4;\n  v31 += 2;\n\n  if (v30 > 3) {\n    print(\"The door is closed.\");\n  } else {\n    goto(done);\n  }\n}\n\ndone:\nreturn();";

#[test]
fn formatting_keeps_a_formatted_script() {
    let formatted = format_logic_script(CANONICAL_SCRIPT).expect("Failed to format script");
    assert_eq!(formatted, CANONICAL_SCRIPT);
}

#[test]
fn formatting_lays_out_a_script() {
    let formatted = format_logic_script("if (isset(f5)) { v30 = 4; v31++; }\nreturn();")
        .expect("Failed to format script");
    assert_eq!(formatted, "if (f5) {\n  v30 = 4;\n  v31++;\n}\nreturn();");
}

#[test]
fn formatting_writes_indirect_assignments_and_labels() {
    let formatted = format_logic_script("*v1 = 3;\nv2 = *v3;\nv4 *= v5;\nend: return();")
        .expect("Failed to format script");
    assert_eq!(formatted, "*v1 = 3;\nv2 = *v3;\nv4 *= v5;\n\nend:\nreturn();");
}

#[test]
fn script_panics_flags_numbers_beyond_i32() {
    assert!(script_panics("v1 = 99999999999;"));
    assert!(!script_panics("v1 = 3;"));
    // the assignee's name read again past the end of the script
    assert!(script_panics("v1 = ;"));
    assert!(!script_panics("v1 = ;   "));
}

#[test]
fn statements_read_as_a_graph() {
    let source = "if (isset(f1)) {\n  v1++;\n} else {\n  v2++;\n}\nstart:\nv3++;\ngoto(start);\n";
    let program = logic_script_parser::program(source).expect("Failed to parse");
    let statements: Vec<_> = program.into_iter().map(|s| s.value).collect();
    let (graph, root) = LogicScriptStatementGraph::try_from_statements(&statements);
    assert_eq!(root, 0);
    assert_eq!(graph.nodes.len(), 5);
    for edge in [
        (0, 1, LogicScriptStatementGraphEdge::IfThen),
        (0, 2, LogicScriptStatementGraphEdge::IfElse),
        (1, 3, LogicScriptStatementGraphEdge::BlockExit),
        (2, 3, LogicScriptStatementGraphEdge::BlockExit),
        (0, 3, LogicScriptStatementGraphEdge::Next),
        (3, 4, LogicScriptStatementGraphEdge::Next),
        (4, 3, LogicScriptStatementGraphEdge::GotoTarget),
    ] {
        assert!(graph.edges.contains(&edge), "missing {:?}", edge);
    }
    assert_eq!(graph.edges.len(), 7);
    assert_eq!(
        graph.edges,
        vec![
            (0, 1, LogicScriptStatementGraphEdge::IfThen),
            (0, 2, LogicScriptStatementGraphEdge::IfElse),
            (1, 3, LogicScriptStatementGraphEdge::BlockExit),
            (2, 3, LogicScriptStatementGraphEdge::BlockExit),
            (0, 3, LogicScriptStatementGraphEdge::Next),
            (3, 4, LogicScriptStatementGraphEdge::Next),
            (4, 3, LogicScriptStatementGraphEdge::GotoTarget),
        ]
    );
}

#[test]
fn an_else_that_the_then_branch_runs_into_becomes_next() {
    let source = "if (isset(f1)) {\n  v1++;\n} else {\n  v2++;\n}\nv3++;\n";
    let program = logic_script_parser::program(source).expect("Failed to parse");
    let statements: Vec<_> = program.into_iter().map(|s| s.value).collect();
    let (mut graph, _) = LogicScriptStatementGraph::try_from_statements(&statements);
    let before = graph.edges.clone();
    assert_eq!(graph.transform_post_dominating_else_to_next(0), OptimizationResult::Unchanged);
    assert_eq!(graph.edges, before);
    assert_eq!(graph.transform_post_dominating_else_to_next(1), OptimizationResult::Unchanged);
    graph.edges.push((1, 2, LogicScriptStatementGraphEdge::Next));
    assert_eq!(graph.transform_post_dominating_else_to_next(0), OptimizationResult::Changed);
    assert_eq!(graph.edges[1], (0, 2, LogicScriptStatementGraphEdge::Next));
    assert_eq!(graph.edges.len(), before.len() + 1);
    assert_eq!(graph.neighbor_of_type(0, LogicScriptStatementGraphEdge::IfThen), Some(1));
    assert_eq!(graph.neighbor_of_type(0, LogicScriptStatementGraphEdge::IfElse), None);
}

use agikit::logic::assembly::expressions::LogicIdentifier;
use agikit::logic::logic_script::codegen::redundant_jumps::RemoveRedundantJumpsPass;
use agikit::logic::logic_script::statements::{LogicScriptCommandCall, LogicScriptStatement};

fn command_statement(name: &str, argument: &str, label: Option<&str>) -> LogicScriptStatement<ParsedLogicArgument> {
    LogicScriptStatement::new(
        LogicScriptStatementBody::CommandCall(LogicScriptCommandCall {
            command_name: name.to_string(),
            argument_list: vec![ParsedLogicArgument::Identifier(LogicIdentifier { name: argument.to_string() })],
        }),
        label.map(|l| l.to_string()),
    )
}

/// The statements that are the root or that an edge touches.
fn live_nodes(graph: &LogicScriptStatementGraph, root: usize) -> usize {
    (0..graph.nodes.len())
        .filter(|&k| k == root || graph.edges.iter().any(|e| e.0 == k || e.1 == k))
        .count()
}

#[test]
fn test_remove_redundant_jumps() {
    let first = command_statement("increment", "v1", None);
    let jump = command_statement("goto", "JumpTarget", None);
    let target = command_statement("increment", "v2", Some("JumpTarget"));
    let mut graph = LogicScriptStatementGraph {
        nodes: vec![&first, &jump, &target],
        edges: vec![(0, 1, LogicScriptStatementGraphEdge::Next), (1, 2, LogicScriptStatementGraphEdge::GotoTarget)],
    };
    let pass = RemoveRedundantJumpsPass::new(&graph, 0);
    assert!(pass.run(&mut graph, 0).is_changed(), "Optimization did not remove a node");
    assert_eq!(2, live_nodes(&graph, 0));
    assert_eq!(1, graph.edges.len());
    assert_eq!(Some(2), graph.neighbor_of_type(0, LogicScriptStatementGraphEdge::Next));
}

#[test]
fn a_jump_back_to_where_it_came_from_stays() {
    let top = command_statement("increment", "v1", Some("Top"));
    let jump = command_statement("goto", "Top", None);
    let mut graph = LogicScriptStatementGraph {
        nodes: vec![&top, &jump],
        edges: vec![(0, 1, LogicScriptStatementGraphEdge::Next), (1, 0, LogicScriptStatementGraphEdge::GotoTarget)],
    };
    let before = graph.edges.clone();
    let pass = RemoveRedundantJumpsPass::new(&graph, 0);
    assert!(!pass.run(&mut graph, 0).is_changed());
    assert_eq!(graph.edges, before);
}

#[test]
fn the_else_pass_walks_the_graph_from_its_root() {
    let source = "if (isset(f1)) {\n  v1++;\n} else {\n  v2++;\n}\nv3++;\n";
    let program = logic_script_parser::program(source).expect("Failed to parse");
    let statements: Vec<_> = program.into_iter().map(|s| s.value).collect();
    let (mut graph, root) = LogicScriptStatementGraph::try_from_statements(&statements);
    let before = graph.edges.clone();
    assert_eq!(graph.run_post_dominating_else_pass(root), OptimizationResult::Unchanged);
    assert_eq!(graph.edges, before);
    graph.edges.push((1, 2, LogicScriptStatementGraphEdge::Next));
    assert_eq!(graph.run_post_dominating_else_pass(root), OptimizationResult::Changed);
    assert_eq!(graph.edges[1], (0, 2, LogicScriptStatementGraphEdge::Next));
    assert_eq!(graph.run_post_dominating_else_pass(root), OptimizationResult::Unchanged);
}
