use agikit::logic::assembly::codegen::logic_asm_printable;
use std::collections::HashMap;

use agikit::agi_version::AGIVersion;
use agikit::logic::assembly::codegen::{generate_labels, generate_logic_asm, generate_logic_messages, AsmCodeGenerationError};
use agikit::logic::assembly::LogicLabel;
use agikit::logic::commands::{AGICommand, TestCommand};
use agikit::logic::{
    LogicCommand, LogicCondition, LogicConditionClause, LogicGoto, LogicInstruction, LogicProgram, LogicTest,
};
use agikit::word_list::WordList;

fn return_command(address: u16) -> LogicInstruction {
    let version = AGIVersion::new(2, 917);
    LogicInstruction::Command(LogicCommand {
        address,
        agi_command: AGICommand::get(0, &version).unwrap(),
        args: vec![],
    })
}

fn isset_condition(address: u16, flag: u16, skip_address: u16) -> LogicInstruction {
    LogicInstruction::Condition(LogicCondition {
        address,
        clauses: vec![LogicConditionClause::Test(LogicTest {
            test_command: TestCommand::get(7).unwrap(),
            args: vec![flag],
            negate: false,
        })],
        skip_address,
    })
}

fn program() -> LogicProgram {
    let mut messages = HashMap::new();
    messages.insert(0u8, "Hi".to_string());
    LogicProgram {
        instructions: vec![isset_condition(0, 3, 7), return_command(5), return_command(7)],
        messages,
    }
}

#[test]
fn logic_program_as_assembly() {
    let logic = program();
    let word_list = WordList { words: HashMap::new() };
    let name = AGICommand::get(0, &AGIVersion::new(2, 917)).unwrap().name;
    let text = generate_logic_asm(&logic, &word_list, &[]).expect("assembly failed");
    let expected = format!(
        "0 unless (f3) goto Address7;\n5 {name}();\n\nAddress7:\n7 {name}();\n\n// messages\n#message 1 \"Hi\"\n"
    );
    assert_eq!(text, expected);
}

#[test]
fn labels_are_generated_for_jump_targets() {
    let logic = program();
    let labels = generate_labels(&logic.instructions, &[]);
    assert_eq!(labels.len(), 1);
    assert_eq!(labels[0].address, 7);
    assert_eq!(labels[0].label, "Address7");
    assert_eq!(labels[0].references, vec![isset_condition(0, 3, 7)]);
}

#[test]
fn jump_to_an_existing_label_has_no_text() {
    let logic = program();
    let word_list = WordList { words: HashMap::new() };
    let existing = vec![LogicLabel { address: 7, label: "Mine".to_string(), references: vec![] }];
    match generate_logic_asm(&logic, &word_list, &existing) {
        Err(AsmCodeGenerationError::ErrorGeneratingInstruction(instruction, error)) => {
            assert_eq!(instruction, isset_condition(0, 3, 7));
            assert!(matches!(*error, AsmCodeGenerationError::UnlabeledJumpAddress(7)));
        }
        other => panic!("unexpected {:?}", other),
    }
}

#[test]
fn too_many_arguments_is_an_error() {
    let version = AGIVersion::new(2, 917);
    let logic = LogicProgram {
        instructions: vec![LogicInstruction::Command(LogicCommand {
            address: 0,
            agi_command: AGICommand::get(0, &version).unwrap(),
            args: vec![1],
        })],
        messages: HashMap::new(),
    };
    let word_list = WordList { words: HashMap::new() };
    match generate_logic_asm(&logic, &word_list, &[]) {
        Err(AsmCodeGenerationError::ErrorGeneratingInstruction(_, error)) => {
            assert!(matches!(*error, AsmCodeGenerationError::TooManyArguments(_, 1)));
        }
        other => panic!("unexpected {:?}", other),
    }
}

#[test]
fn messages_are_quoted_as_json() {
    let mut messages = HashMap::new();
    messages.insert(4u8, "say \"hi\"\n\tnow\u{1}".to_string());
    messages.insert(1u8, "first".to_string());
    let text = generate_logic_messages(&messages).expect("messages failed");
    assert_eq!(
        text,
        "// messages\n#message 2 \"first\"\n#message 5 \"say \\\"hi\\\"\\n\\tnow\\u0001\""
    );
}

#[test]
fn goto_line_uses_its_label() {
    let logic = LogicProgram {
        instructions: vec![
            LogicInstruction::Goto(LogicGoto { address: 0, jump_address: 3 }),
            return_command(3),
        ],
        messages: HashMap::new(),
    };
    let word_list = WordList { words: HashMap::new() };
    let name = AGICommand::get(0, &AGIVersion::new(2, 917)).unwrap().name;
    let text = generate_logic_asm(&logic, &word_list, &[]).expect("assembly failed");
    assert_eq!(text, format!("0 goto Address3;\n\nAddress3:\n3 {name}();\n\n// messages\n"));
}

#[test]
fn logic_asm_printable_refuses_message_255() {
    let mut logic = agikit::logic::LogicProgram { instructions: vec![], messages: std::collections::HashMap::new() };
    assert!(logic_asm_printable(&logic));
    logic.messages.insert(255, "last".to_string());
    assert!(!logic_asm_printable(&logic));
}
