use agikit::logic::logic_script::identifiers::IdentifierMapping;
use std::collections::HashMap;

use agikit::agi_version::AGIVersion;
use agikit::logic::assembly::codegen::AsmCodeGenerationContext;
use agikit::logic::assembly::expressions::{
    LogicBooleanExpression, LogicIdentifier, LogicTestCall, ParsedLogicArgument,
};
use agikit::logic::assembly::literals::{LogicLiteral, LogicLiteralValue, LogicNumberLiteral, LogicStringLiteral};
use agikit::logic::assembly::operators::LogicBooleanBinaryOperator;
use agikit::logic::commands::{AGICommand, AGICommandArgType, TestCommand};
use agikit::logic::logic_script::compile::ast_generator::ASTGenerationError;
use agikit::logic::logic_script::compile::post_compilation_passes::{
    make_conditionals_self_contained, remove_unreachable_instructions, PostCompilationPassResult,
    RemoveRedundantGotoInstructionsPass,
};
use agikit::logic::logic_script::compile::primitive_expressions::{
    BinaryExpression, PrimitiveAndClause, PrimitiveBooleanExpression, PrimitiveOrClause,
    ResolvedBinaryOperand,
};
use agikit::logic::logic_script::compile::primitive_statements::{
    LogicScriptPrimitiveStatement, LogicScriptPrimitiveStatementBody,
};
use agikit::logic::logic_script::identifiers::IdentifierMap;
use agikit::logic::logic_script::operators::LogicScriptUnaryAssignmentOperator;
use agikit::logic::logic_script::statements::{
    LogicScriptComment, LogicScriptStatement, LogicScriptStatementBody,
    LogicScriptUnaryOperationStatement, LogicScriptValueAssignmentStatement,
};
use agikit::logic::{
    LogicCommand, LogicCondition, LogicConditionClause, LogicGoto, LogicInstruction, LogicOr,
    LogicProgram, LogicTest,
};
use agikit::word_list::WordList;

fn command(address: u16) -> LogicInstruction {
    let version = AGIVersion::new(2, 917);
    LogicInstruction::Command(LogicCommand {
        address,
        agi_command: AGICommand::get(0, &version).unwrap(),
        args: vec![],
    })
}

fn test(opcode: u8, args: Vec<u16>, negate: bool) -> LogicTest {
    LogicTest { test_command: TestCommand::get(opcode).unwrap(), args, negate }
}

fn condition(address: u16, skip_address: u16) -> LogicInstruction {
    LogicInstruction::Condition(LogicCondition {
        address,
        clauses: vec![LogicConditionClause::Test(test(7, vec![3], false))],
        skip_address,
    })
}

#[test]
fn crossing_conditional_gets_a_goto() {
    let mut instructions = vec![condition(0, 10), condition(5, 20), command(10), command(20)];
    let result = make_conditionals_self_contained(&mut instructions);
    assert_eq!(result, PostCompilationPassResult::Changed);
    assert_eq!(
        instructions,
        vec![
            condition(0, 10),
            condition(5, 21),
            command(10),
            LogicInstruction::Goto(LogicGoto { address: 21, jump_address: 20 }),
            command(20),
        ]
    );
}

#[test]
fn nested_conditionals_stay_as_they_are() {
    let original = vec![condition(0, 20), condition(5, 10), command(10), command(20)];
    let mut instructions = original.clone();
    let result = make_conditionals_self_contained(&mut instructions);
    assert_eq!(result, PostCompilationPassResult::Unchanged);
    assert_eq!(instructions, original);
}

#[test]
fn unreachable_instructions_are_dropped() {
    let mut instructions = vec![
        LogicInstruction::Goto(LogicGoto { address: 0, jump_address: 20 }),
        command(5),
        command(20),
    ];
    let result = remove_unreachable_instructions(&mut instructions);
    assert_eq!(result, PostCompilationPassResult::Unchanged);
    assert_eq!(
        instructions,
        vec![LogicInstruction::Goto(LogicGoto { address: 0, jump_address: 20 }), command(20)]
    );
}

#[test]
fn goto_to_the_next_instruction_is_removed() {
    let mut pass = RemoveRedundantGotoInstructionsPass::new();
    let mut instructions = vec![
        condition(0, 3),
        LogicInstruction::Goto(LogicGoto { address: 2, jump_address: 3 }),
        command(3),
    ];
    let result = pass.run_once(&mut instructions);
    assert_eq!(result, PostCompilationPassResult::Changed);
    assert_eq!(instructions, vec![condition(0, 3), command(3)]);
    assert_eq!(pass.find_remapped_address(2), 3);
}

fn variable(name: &str, number: u16) -> ResolvedBinaryOperand {
    ResolvedBinaryOperand::VariableIdentifier {
        name: name.to_string(),
        number,
        variable_type: AGICommandArgType::Variable,
    }
}

fn number(value: i32) -> ResolvedBinaryOperand {
    ResolvedBinaryOperand::Literal(LogicLiteral {
        value: LogicLiteralValue::Number(LogicNumberLiteral { value }),
    })
}

fn names(call: &LogicTestCall<ParsedLogicArgument>) -> (String, Vec<String>) {
    let args = call
        .argument_list
        .iter()
        .map(|a| match a {
            ParsedLogicArgument::Identifier(i) => i.name.clone(),
            ParsedLogicArgument::Literal(LogicLiteral { value: LogicLiteralValue::Number(n) }) => {
                format!("#{}", n.value)
            }
            ParsedLogicArgument::Literal(LogicLiteral { value: LogicLiteralValue::String(s) }) => {
                format!("'{}'", s.value)
            }
        })
        .collect();
    (call.test_name.clone(), args)
}

#[test]
fn comparison_with_number_becomes_n_test() {
    let clause = PrimitiveAndClause::try_from_boolean_operation(
        LogicBooleanBinaryOperator::LessThan,
        &variable("v1", 1),
        &number(5),
    )
    .unwrap();
    match clause {
        PrimitiveAndClause::TestCall(call) => {
            assert_eq!(names(&call), ("lessn".to_string(), vec!["v1".to_string(), "#5".to_string()]));
        }
        other => panic!("unexpected {:?}", other),
    }
}

#[test]
fn literal_on_the_left_flips_the_comparison() {
    let clause = PrimitiveAndClause::try_from_boolean_operation(
        LogicBooleanBinaryOperator::LessThan,
        &number(5),
        &variable("v1", 1),
    )
    .unwrap();
    match clause {
        PrimitiveAndClause::TestCall(call) => {
            assert_eq!(names(&call), ("greatern".to_string(), vec!["v1".to_string(), "#5".to_string()]));
        }
        other => panic!("unexpected {:?}", other),
    }
}

#[test]
fn at_most_becomes_less_or_equal() {
    let clause = PrimitiveAndClause::try_from_boolean_operation(
        LogicBooleanBinaryOperator::LessThanOrEqual,
        &variable("v1", 1),
        &variable("v2", 2),
    )
    .unwrap();
    match clause {
        PrimitiveAndClause::Or(clauses) => {
            assert_eq!(clauses.len(), 2);
            match (&clauses[0], &clauses[1]) {
                (PrimitiveOrClause::TestCall(a), PrimitiveOrClause::TestCall(b)) => {
                    assert_eq!(names(a).0, "lessv");
                    assert_eq!(names(b).0, "equalv");
                }
                other => panic!("unexpected {:?}", other),
            }
        }
        other => panic!("unexpected {:?}", other),
    }
}

#[test]
fn not_equal_is_a_negated_equal() {
    let clause = PrimitiveAndClause::try_from_boolean_operation(
        LogicBooleanBinaryOperator::NotEqual,
        &variable("v1", 1),
        &number(0),
    )
    .unwrap();
    match clause {
        PrimitiveAndClause::NotTestCall(call) => assert_eq!(names(&call).0, "equaln"),
        other => panic!("unexpected {:?}", other),
    }
}

#[test]
fn comparison_errors() {
    assert!(matches!(
        PrimitiveAndClause::try_from_boolean_operation(LogicBooleanBinaryOperator::Equal, &number(3), &number(4)),
        Err(ASTGenerationError::BooleanOperationCannotHaveTwoLiteralOperands)
    ));
    let text = ResolvedBinaryOperand::Literal(LogicLiteral {
        value: LogicLiteralValue::String(LogicStringLiteral { value: "hi".to_string() }),
    });
    assert!(matches!(
        PrimitiveAndClause::try_from_boolean_operation(LogicBooleanBinaryOperator::Equal, &variable("v1", 1), &text),
        Err(ASTGenerationError::StringLiteralInBooleanOperation)
    ));
}

fn call(name: &str) -> LogicTestCall<ParsedLogicArgument> {
    LogicTestCall {
        test_name: name.to_string(),
        argument_list: vec![ParsedLogicArgument::Identifier(LogicIdentifier { name: "f1".to_string() })],
    }
}

fn leaf(name: &str) -> Box<BinaryExpression> {
    Box::new(BinaryExpression::TestCall(call(name)))
}

#[test]
fn or_over_and_is_distributed() {
    let expression = BinaryExpression::Or(Box::new(BinaryExpression::And(leaf("a"), leaf("b"))), leaf("c"));
    match expression.to_primitive_boolean_expression() {
        PrimitiveBooleanExpression::And(clauses) => {
            assert_eq!(clauses.len(), 2);
            for (clause, first) in clauses.iter().zip(["a", "b"]) {
                match clause {
                    PrimitiveAndClause::Or(ors) => {
                        let ns: Vec<String> = ors
                            .iter()
                            .map(|o| match o {
                                PrimitiveOrClause::TestCall(c) => c.test_name.clone(),
                                PrimitiveOrClause::NotTestCall(c) => format!("!{}", c.test_name),
                            })
                            .collect();
                        assert_eq!(ns, vec![first.to_string(), "c".to_string()]);
                    }
                    other => panic!("unexpected {:?}", other),
                }
            }
        }
        other => panic!("unexpected {:?}", other),
    }
}

#[test]
fn double_negation_is_dropped() {
    let expression = BinaryExpression::Not(Box::new(BinaryExpression::Not(leaf("a"))));
    assert!(expression.is_irreducible());
    match expression.to_primitive_boolean_expression() {
        PrimitiveBooleanExpression::TestCall(c) => assert_eq!(c.test_name, "a"),
        other => panic!("unexpected {:?}", other),
    }
}

#[test]
fn nested_ors_are_concatenated() {
    let expression = BinaryExpression::Or(leaf("a"), Box::new(BinaryExpression::Or(leaf("b"), leaf("c"))));
    match expression.to_primitive_boolean_expression() {
        PrimitiveBooleanExpression::Or(ors) => {
            let ns: Vec<String> = ors
                .iter()
                .map(|o| match o {
                    PrimitiveOrClause::TestCall(c) => c.test_name.clone(),
                    PrimitiveOrClause::NotTestCall(c) => format!("!{}", c.test_name),
                })
                .collect();
            assert_eq!(ns, vec!["b", "c", "a"]);
        }
        other => panic!("unexpected {:?}", other),
    }
}

#[test]
fn condition_with_names_is_resolved() {
    let identifiers = IdentifierMap::builtins();
    let expression = LogicBooleanExpression::Identifier(LogicIdentifier { name: "f5".to_string() });
    match PrimitiveBooleanExpression::try_from_logic_boolean_expression(&expression, &identifiers) {
        Ok(PrimitiveBooleanExpression::TestCall(c)) => {
            assert_eq!(names(&c), ("isset".to_string(), vec!["f5".to_string()]));
        }
        other => panic!("unexpected {:?}", other),
    }
    let unknown = LogicBooleanExpression::BinaryOperation(agikit::logic::assembly::expressions::LogicBooleanBinaryOperation {
        left: ParsedLogicArgument::Identifier(LogicIdentifier { name: "nowhere".to_string() }),
        operator: LogicBooleanBinaryOperator::Equal,
        right: ParsedLogicArgument::Literal(LogicLiteral {
            value: LogicLiteralValue::Number(LogicNumberLiteral { value: 1 }),
        }),
    });
    match BinaryExpression::try_from_logic_boolean_expression(&unknown, &identifiers) {
        Err(ASTGenerationError::UnknownIdentifier(name)) => assert_eq!(name, "nowhere"),
        other => panic!("unexpected {:?}", other),
    }
}

fn statement(body: LogicScriptStatementBody<ParsedLogicArgument>) -> LogicScriptStatement<ParsedLogicArgument> {
    LogicScriptStatement::new(body, Some("here".to_string()))
}

fn command_of(p: &LogicScriptPrimitiveStatement) -> (String, usize) {
    match &p.body {
        LogicScriptPrimitiveStatementBody::CommandCall(c) => (c.command_name.clone(), c.argument_list.len()),
        other => panic!("unexpected {:?}", other),
    }
}

#[test]
fn statements_become_commands() {
    let identifiers = IdentifierMap::builtins();
    let v1 = LogicIdentifier { name: "v1".to_string() };
    let increment = statement(LogicScriptStatementBody::UnaryOperation(LogicScriptUnaryOperationStatement {
        operation: LogicScriptUnaryAssignmentOperator::Increment,
        identifier: v1.clone(),
    }));
    let p = LogicScriptPrimitiveStatement::try_from_statement(&increment, &identifiers).unwrap();
    assert_eq!(command_of(&p), ("increment".to_string(), 1));
    assert_eq!(p.label, Some("here".to_string()));

    let assign_number = statement(LogicScriptStatementBody::ValueAssignment(LogicScriptValueAssignmentStatement {
        assignee: v1.clone(),
        value: ParsedLogicArgument::Literal(LogicLiteral {
            value: LogicLiteralValue::Number(LogicNumberLiteral { value: 3 }),
        }),
    }));
    let p = LogicScriptPrimitiveStatement::try_from_statement(&assign_number, &identifiers).unwrap();
    assert_eq!(command_of(&p), ("assignn".to_string(), 2));

    let assign_variable = statement(LogicScriptStatementBody::ValueAssignment(LogicScriptValueAssignmentStatement {
        assignee: v1,
        value: ParsedLogicArgument::Identifier(LogicIdentifier { name: "v2".to_string() }),
    }));
    let p = LogicScriptPrimitiveStatement::try_from_statement(&assign_variable, &identifiers).unwrap();
    assert_eq!(command_of(&p), ("assignv".to_string(), 2));

    let comment = statement(LogicScriptStatementBody::Comment(LogicScriptComment { comment: "x".to_string() }));
    assert!(LogicScriptPrimitiveStatement::try_from_statement(&comment, &identifiers).is_none());
}

#[test]
fn primitive_statement_survives_a_round_trip() {
    let identifiers = IdentifierMap::builtins();
    let increment = statement(LogicScriptStatementBody::UnaryOperation(LogicScriptUnaryOperationStatement {
        operation: LogicScriptUnaryAssignmentOperator::Decrement,
        identifier: LogicIdentifier { name: "v9".to_string() },
    }));
    let p = LogicScriptPrimitiveStatement::try_from_statement(&increment, &identifiers).unwrap();
    let back = LogicScriptPrimitiveStatement::try_from_statement(&p.to_statement(), &identifiers).unwrap();
    assert_eq!(format!("{:?}", back), format!("{:?}", p));
}

fn context_parts() -> (LogicProgram, WordList) {
    (LogicProgram { instructions: vec![], messages: HashMap::new() }, WordList { words: HashMap::new() })
}

#[test]
fn equaln_reads_as_a_comparison() {
    let (logic, word_list) = context_parts();
    let context = AsmCodeGenerationContext { logic: &logic, word_list: &word_list };
    for (negate, operator) in [(false, LogicBooleanBinaryOperator::Equal), (true, LogicBooleanBinaryOperator::NotEqual)] {
        let clauses = vec![LogicConditionClause::Test(test(1, vec![4, 7], negate))];
        match LogicBooleanExpression::from_clauses(&clauses, &context).unwrap() {
            LogicBooleanExpression::BinaryOperation(op) => {
                assert_eq!(op.operator, operator);
                assert_eq!(op.left, ParsedLogicArgument::Identifier(LogicIdentifier { name: "v4".to_string() }));
                assert_eq!(
                    op.right,
                    ParsedLogicArgument::Literal(LogicLiteral {
                        value: LogicLiteralValue::Number(LogicNumberLiteral { value: 7 })
                    })
                );
            }
            other => panic!("unexpected {:?}", other),
        }
    }
}

#[test]
fn less_or_equal_is_consolidated() {
    let (logic, word_list) = context_parts();
    let context = AsmCodeGenerationContext { logic: &logic, word_list: &word_list };
    let clauses = vec![LogicConditionClause::Or(LogicOr {
        or_tests: vec![test(3, vec![4, 7], false), test(1, vec![4, 7], false)],
    })];
    match LogicBooleanExpression::from_clauses(&clauses, &context).unwrap() {
        LogicBooleanExpression::BinaryOperation(op) => {
            assert_eq!(op.operator, LogicBooleanBinaryOperator::LessThanOrEqual);
        }
        other => panic!("unexpected {:?}", other),
    }
    let several = vec![
        LogicConditionClause::Test(test(7, vec![2], false)),
        LogicConditionClause::Test(test(7, vec![3], true)),
    ];
    match LogicBooleanExpression::from_clauses(&several, &context).unwrap() {
        LogicBooleanExpression::AndExpression(and) => {
            assert_eq!(and.clauses.len(), 2);
            assert!(matches!(and.clauses[1], LogicBooleanExpression::NotExpression(_)));
        }
        other => panic!("unexpected {:?}", other),
    }
}

fn decompiled_then_compiled(opcode: u8, args: Vec<u8>) -> (LogicScriptStatementBody<ParsedLogicArgument>, String, usize) {
    let version = AGIVersion::new(2, 917);
    let command = LogicCommand { address: 0, agi_command: AGICommand::get(opcode, &version).unwrap(), args };
    let (logic, word_list) = context_parts();
    let context = AsmCodeGenerationContext { logic: &logic, word_list: &word_list };
    let statement = command.to_statement(&context).unwrap();
    let identifiers = IdentifierMap::builtins();
    let primitive = LogicScriptPrimitiveStatement::try_from_statement(&statement, &identifiers).unwrap();
    let (name, count) = command_of(&primitive);
    (statement.body, name, count)
}

#[test]
fn commands_read_as_statements_compile_back() {
    let (body, name, count) = decompiled_then_compiled(1, vec![5]);
    assert!(matches!(body, LogicScriptStatementBody::UnaryOperation(_)));
    assert_eq!((name.as_str(), count), ("increment", 1));

    let (body, name, count) = decompiled_then_compiled(3, vec![5, 9]);
    assert!(matches!(body, LogicScriptStatementBody::ValueAssignment(_)));
    assert_eq!((name.as_str(), count), ("assignn", 2));

    let (body, name, count) = decompiled_then_compiled(6, vec![5, 9]);
    assert!(matches!(body, LogicScriptStatementBody::ArithmeticAssignment(_)));
    assert_eq!((name.as_str(), count), ("addv", 2));

    let (body, name, count) = decompiled_then_compiled(10, vec![5, 9]);
    assert!(matches!(body, LogicScriptStatementBody::RightIndirectAssignment(_)));
    assert_eq!((name.as_str(), count), ("rindirect", 2));

    let (body, name, count) = decompiled_then_compiled(12, vec![5]);
    assert!(matches!(body, LogicScriptStatementBody::CommandCall(_)));
    assert_eq!((name.as_str(), count), ("set", 1));
}

#[test]
fn builtin_identifiers_map_each_name_to_its_variable() {
    let m = IdentifierMap::builtins();
    match m.get("v0") {
        Some(IdentifierMapping::Variable { name, number, variable_type }) => {
            assert_eq!(name, "v0");
            assert_eq!(*number, 0);
            assert_eq!(*variable_type, AGICommandArgType::Variable);
        }
        other => panic!("unexpected {:?}", other),
    }
    match m.get("w255") {
        Some(IdentifierMapping::Variable { name, number, variable_type }) => {
            assert_eq!(name, "w255");
            assert_eq!(*number, 255);
            assert_eq!(*variable_type, AGICommandArgType::Word);
        }
        other => panic!("unexpected {:?}", other),
    }
    assert!(m.get("v256").is_none());
    assert!(m.get("ego").is_none());
}

#[test]
fn script_argument_names_are_builtin_identifiers() {
    let (logic, word_list) = context_parts();
    let context = AsmCodeGenerationContext { logic: &logic, word_list: &word_list };
    let identifiers = IdentifierMap::builtins();
    for (arg_type, prefix) in [
        (AGICommandArgType::Variable, "v"),
        (AGICommandArgType::Flag, "f"),
        (AGICommandArgType::Object, "o"),
        (AGICommandArgType::Item, "i"),
        (AGICommandArgType::String, "s"),
        (AGICommandArgType::CtrlCode, "c"),
    ] {
        match agikit::logic::logic_script::expressions::LogicScriptArgument::new(42, arg_type, &context) {
            Ok(agikit::logic::logic_script::expressions::LogicScriptArgument::Identifier(i)) => {
                assert_eq!(i.name, format!("{}42", prefix));
                assert!(i.location.is_none());
                match identifiers.get(&i.name) {
                    Some(IdentifierMapping::Variable { number, variable_type, .. }) => {
                        assert_eq!(*number, 42);
                        assert_eq!(*variable_type, arg_type);
                    }
                    other => panic!("unexpected {:?}", other),
                }
            }
            other => panic!("unexpected {:?}", other),
        }
    }
}
