use agikit::compression::lzw::DecompressionError;
use agikit::logic::decode::DisassemblyError;
use agikit::logic::logic_script::identifiers::DefineError;
use agikit::picture::decode::PictureDecodingError;
use std::collections::HashMap;

use agikit::agi_version::{AGIMajorVersion, AGIVersion};
use agikit::logic::commands::{AGICommand, TestCommand};
use agikit::logic::{LogicCommand, LogicInstruction, LogicProgram};

fn ovl_image(banner: &[u8]) -> Vec<u8> {
    let mut data: Vec<u8> = vec![0x90; 64];
    data.extend_from_slice(banner);
    data.extend_from_slice(&[0u8; 64]);
    data
}

#[test]
pub fn test_detect_agiv2() {
    let ovl_data = ovl_image(b"Version 2.917");

    let agi_version = AGIVersion::detect_from_agidata_ovl(&ovl_data);
    assert_eq!(
        Some(AGIVersion {
            major: AGIMajorVersion::AGI2,
            minor: 917
        }),
        agi_version
    );
}

#[test]
pub fn test_detect_agiv3() {
    let ovl_data = ovl_image(b"Version 3.002.102");

    let agi_version = AGIVersion::detect_from_agidata_ovl(&ovl_data);
    assert_eq!(
        Some(AGIVersion {
            major: AGIMajorVersion::AGI3,
            minor: 2102
        }),
        agi_version
    );
}

#[test]
fn detect_skips_malformed_banners() {
    let ovl_data = ovl_image(b"Version 4.000 Version 2.x12 Version 2.440");
    assert_eq!(
        Some(AGIVersion {
            major: AGIMajorVersion::AGI2,
            minor: 440
        }),
        AGIVersion::detect_from_agidata_ovl(&ovl_data)
    );
    assert_eq!(None, AGIVersion::detect_from_agidata_ovl(&ovl_image(b"no banner here")));
}

#[test]
fn test_agi_commands() {
    let version = AGIVersion::new(2, 917);
    assert!(AGICommand::get(0, &version).is_some());
    assert_eq!(AGICommand::get(1, &version).unwrap().name, "increment");
}

#[test]
fn test_test_commands() {
    assert!(TestCommand::get(1).is_some());
    assert_eq!(TestCommand::get(1).unwrap().name, "equaln");
}

#[test]
fn test_decode() {
    let version = AGIVersion::new(2, 917);
    let mut messages: HashMap<u8, String> = HashMap::new();
    messages.insert(0, "AGI".to_string());
    for i in 1..45u8 {
        messages.insert(i, format!("Message number {}", i));
    }
    let program = LogicProgram {
        instructions: vec![LogicInstruction::Command(LogicCommand {
            address: 0,
            agi_command: AGICommand::get(0, &version).unwrap(),
            args: vec![],
        })],
        messages,
    };
    let logic_data = program.encode(true).expect("Failed to encode logic program");

    let logic_program =
        LogicProgram::decode(&logic_data, &version).expect("Failed to decode logic program");

    assert_eq!(logic_program.messages.len(), 45);
    assert_eq!(logic_program.messages.get(&0).unwrap(), "AGI");
}

#[test]
fn versions_are_written_as_the_interpreter_writes_them() {
    assert_eq!(AGIVersion::default_v3().to_string(), "3.002.149");
    assert_eq!(AGIVersion::default_v2().to_string(), "2.936");
    assert_eq!(AGIVersion::new(2, 89).to_string(), "2.089");
    assert_eq!(AGIVersion::new(3, 2086).to_string(), "3.002.086");
}

#[test]
fn banner_search_reports_data_on_which_it_would_panic() {
    assert!(AGIVersion::agidata_ovl_scan_panics(b"short"));
    assert!(AGIVersion::agidata_ovl_scan_panics(b"xxVersion 3."));
    assert!(!AGIVersion::agidata_ovl_scan_panics(b"xxVersion 2.936 and more"));
    assert_eq!(
        AGIVersion::detect_from_agidata_ovl_checked(b"nothing here at all"),
        Some(None)
    );
}

#[test]
fn errors_are_reported_as_the_original_writes_them() {
    assert_eq!(DisassemblyError::InvalidOpcode(0xab).to_string(), "Invalid opcode: 0xAB");
    assert_eq!(DisassemblyError::InvalidTestOpcode(0x07).to_string(), "Invalid test opcode: 0x07");
    assert_eq!(PictureDecodingError::UnknownOpcode(0x0f).to_string(), "Unknown opcode: 0F");
    assert_eq!(
        DecompressionError::UnexpectedCode { expected: 258, actual: 300 }.to_string(),
        "Unexpected code: expected 258, got 300"
    );
    assert_eq!(DefineError::UnknownIdentifier { name: "ego".to_string() }.to_string(), "Unknown identifier: ego");
    assert_eq!(
        DefineError::IdentifierAlreadyDefined { name: "ego".to_string() }.to_string(),
        "Identifier ego already defined"
    );
}
