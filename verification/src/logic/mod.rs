use vstd::prelude::*;
use std::collections::HashMap;

use crate::logic::assembly::expressions::AsmLogicArgument;
use crate::logic::commands::{AGICommand, AGICommandArgType, TestCommand};

pub mod analysis;
pub mod assembly;
pub mod logic_script;
pub mod commands;
pub mod decode;
pub mod encode;
pub mod round_trip;

verus! {

/// An action command at a bytecode address, with its argument bytes.
#[derive(Debug, Clone, PartialEq, Eq)]
pub struct LogicCommand {
    pub address: u16,
    pub agi_command: AGICommand,
    pub args: Vec<u8>,
}

/// One test of a condition, possibly negated.
#[derive(Debug, Clone, PartialEq, Eq)]
pub struct LogicTest {
    pub test_command: TestCommand,
    pub args: Vec<u16>,
    pub negate: bool,
}

/// A disjunction of tests.
#[derive(Debug, Clone, PartialEq, Eq)]
pub struct LogicOr {
    pub or_tests: Vec<LogicTest>,
}

/// One conjunct of a condition.
#[derive(Debug, Clone, PartialEq, Eq)]
pub enum LogicConditionClause {
    Test(LogicTest),
    Or(LogicOr),
}

/// A conditional: when the clauses do not all hold, execution continues at `skip_address`.
#[derive(Debug, Clone, PartialEq, Eq)]
pub struct LogicCondition {
    pub address: u16,
    pub clauses: Vec<LogicConditionClause>,
    pub skip_address: u16,
}

/// An unconditional jump.
#[derive(Debug, Clone, PartialEq, Eq)]
pub struct LogicGoto {
    pub address: u16,
    pub jump_address: u16,
}

#[derive(Debug, Clone, PartialEq, Eq)]
pub enum LogicInstruction {
    Command(LogicCommand),
    Condition(LogicCondition),
    Goto(LogicGoto),
}

/// The messages of a logic resource by number.
pub type LogicMessages = HashMap<u8, String>;

/// A logic resource: its instructions and its messages.
#[derive(Debug, Clone)]
pub struct LogicProgram {
    pub instructions: Vec<LogicInstruction>,
    pub messages: LogicMessages,
}

pub struct AGICommandView {
    pub opcode: u8,
    pub name: Seq<char>,
    pub arg_types: Seq<AGICommandArgType>,
}

pub struct TestCommandView {
    pub opcode: u8,
    pub name: Seq<char>,
    pub arg_types: Seq<AGICommandArgType>,
    pub var_args: bool,
}

pub struct LogicTestView {
    pub command: TestCommandView,
    pub args: Seq<u16>,
    pub negate: bool,
}

pub enum ClauseView {
    Test(LogicTestView),
    Or(Seq<LogicTestView>),
}

pub enum InstructionView {
    Command { address: u16, command: AGICommandView, args: Seq<u8> },
    Condition { address: u16, clauses: Seq<ClauseView>, skip_address: u16 },
    Goto { address: u16, jump_address: u16 },
}

impl View for AGICommand {
    type V = AGICommandView;

    open spec fn view(&self) -> AGICommandView {
        AGICommandView { opcode: self.opcode, name: self.name@, arg_types: self.arg_types@ }
    }
}

impl View for TestCommand {
    type V = TestCommandView;

    open spec fn view(&self) -> TestCommandView {
        TestCommandView {
            opcode: self.opcode,
            name: self.name@,
            arg_types: self.arg_types@,
            var_args: self.var_args,
        }
    }
}

impl View for LogicTest {
    type V = LogicTestView;

    open spec fn view(&self) -> LogicTestView {
        LogicTestView { command: self.test_command@, args: self.args@, negate: self.negate }
    }
}

pub open spec fn tests_view(v: Seq<LogicTest>) -> Seq<LogicTestView> {
    v.map_values(|t: LogicTest| t@)
}

impl View for LogicConditionClause {
    type V = ClauseView;

    open spec fn view(&self) -> ClauseView {
        match self {
            LogicConditionClause::Test(t) => ClauseView::Test(t@),
            LogicConditionClause::Or(o) => ClauseView::Or(tests_view(o.or_tests@)),
        }
    }
}

pub open spec fn clauses_view(v: Seq<LogicConditionClause>) -> Seq<ClauseView> {
    v.map_values(|c: LogicConditionClause| c@)
}

impl View for LogicInstruction {
    type V = InstructionView;

    open spec fn view(&self) -> InstructionView {
        match self {
            LogicInstruction::Command(c) => InstructionView::Command {
                address: c.address,
                command: c.agi_command@,
                args: c.args@,
            },
            LogicInstruction::Condition(c) => InstructionView::Condition {
                address: c.address,
                clauses: clauses_view(c.clauses@),
                skip_address: c.skip_address,
            },
            LogicInstruction::Goto(g) => InstructionView::Goto {
                address: g.address,
                jump_address: g.jump_address,
            },
        }
    }
}

pub open spec fn instructions_view(v: Seq<LogicInstruction>) -> Seq<InstructionView> {
    v.map_values(|i: LogicInstruction| i@)
}

pub open spec fn instruction_address(i: InstructionView) -> u16 {
    match i {
        InstructionView::Command { address, .. } => address,
        InstructionView::Condition { address, .. } => address,
        InstructionView::Goto { address, .. } => address,
    }
}

/// The message texts by number.
pub open spec fn messages_view(m: LogicMessages) -> Map<u8, Seq<char>> {
    m@.map_values(|s: String| s@)
}

impl LogicCommand {
    /// The arguments paired with the command's argument types, as far as both reach.
    pub fn args(&self) -> (r: Vec<AsmLogicArgument>)
        ensures
            r@.len() == vstd::math::min(
                self.args@.len() as int,
                self.agi_command.arg_types@.len() as int,
            ),
            forall|i: int|
                0 <= i < r@.len() ==> r@[i].value == self.args@[i] as u16 && r@[i].arg_type
                    == self.agi_command.arg_types@[i],
    {
        let mut r: Vec<AsmLogicArgument> = Vec::new();
        let n = if self.args.len() < self.agi_command.arg_types.len() {
            self.args.len()
        } else {
            self.agi_command.arg_types.len()
        };
        let mut i: usize = 0;
        while i < n
            invariant
                n == vstd::math::min(
                    self.args@.len() as int,
                    self.agi_command.arg_types@.len() as int,
                ),
                0 <= i <= n,
                r@.len() == i,
                forall|j: int|
                    0 <= j < i ==> r@[j].value == self.args@[j] as u16 && r@[j].arg_type
                        == self.agi_command.arg_types@[j],
            decreases n - i,
        {
            r.push(AsmLogicArgument { value: self.args[i] as u16, arg_type: self.agi_command.arg_types[i] });
            i = i + 1;
        }
        r
    }
}

impl LogicInstruction {
    pub fn address(&self) -> (r: u16)
        ensures
            r == instruction_address(self@),
    {
        match self {
            LogicInstruction::Command(cmd) => cmd.address,
            LogicInstruction::Condition(cond) => cond.address,
            LogicInstruction::Goto(goto) => goto.address,
        }
    }
}

} // verus!
