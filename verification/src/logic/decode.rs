use vstd::prelude::*;
use vstd::string::StringExecFns;
use std::collections::HashMap;

use crate::agi_version::{AGIMajorVersion, AGIVersion};
use crate::data_encoding::{DecodingError, le_u16_of, null_terminated_at, text_result};
use crate::logic::commands::{
    AGICommand, TestCommand, agi_command_gated, agi_command_known, agi_command_variant_unsupported,
    agi_command_name, agi_command_arg_types, test_command_known, test_command_name,
    test_command_arg_types, test_command_var_args,
};
use crate::logic::{
    AGICommandView, ClauseView, InstructionView, LogicCommand, LogicCondition, LogicConditionClause,
    LogicGoto, LogicInstruction, LogicMessages, LogicOr, LogicProgram, LogicTest, LogicTestView,
    TestCommandView, clauses_view, instructions_view, messages_view, tests_view,
};
use crate::xor_encryption::{xor_at, xor_transform};

verus! {

broadcast use vstd::std_specs::hash::group_hash_axioms;

#[derive(Debug, Clone, Copy, PartialEq, Eq, Structural)]
pub enum DisassemblyError {
    InvalidOpcode(u8),
    InvalidTestOpcode(u8),
}

impl DisassemblyError {
    /// The error as it is reported, with the opcode in hexadecimal.
    pub fn to_string(&self) -> (r: String)
        ensures
            match *self {
                DisassemblyError::InvalidOpcode(o) => r@ == "Invalid opcode: 0x"@ + crate::formatting::hex_byte_text(o),
                DisassemblyError::InvalidTestOpcode(o) => r@ == "Invalid test opcode: 0x"@
                    + crate::formatting::hex_byte_text(o),
            },
    {
        proof {
            reveal_strlit("Invalid opcode: 0x");
            reveal_strlit("Invalid test opcode: 0x");
        }
        match *self {
            DisassemblyError::InvalidOpcode(o) => {
                let mut s = String::from_str("Invalid opcode: 0x");
                s.append(crate::formatting::hex_byte_string(o).as_str());
                s
            },
            DisassemblyError::InvalidTestOpcode(o) => {
                let mut s = String::from_str("Invalid test opcode: 0x");
                s.append(crate::formatting::hex_byte_string(o).as_str());
                s
            },
        }
    }
}

/// The outcome of reading a piece of bytecode at a position: the value and
/// the position after it, an error, or an input on which reading panics.
pub enum Parsed<T> {
    Done(T, int),
    Failed(DecodingError),
    Fault,
}

/// `x` wrapped to 16 bits.
pub open spec fn wrap16(x: int) -> u16 {
    (x % 65536) as u16
}

/// The signed number that two bytes hold, low byte first.
pub open spec fn le_i16_of(lo: u8, hi: u8) -> int {
    let v = le_u16_of(lo, hi) as int;
    if v >= 0x8000 {
        v - 0x10000
    } else {
        v
    }
}

/// The table entry of a test command, as a view.
pub open spec fn test_command_entry(op: u8) -> TestCommandView {
    TestCommandView {
        opcode: op,
        name: test_command_name(op),
        arg_types: test_command_arg_types(op),
        var_args: test_command_var_args(op),
    }
}

/// The table entry of an action command, as a view.
pub open spec fn agi_command_entry(op: u8) -> AGICommandView {
    AGICommandView { opcode: op, name: agi_command_name(op), arg_types: agi_command_arg_types(op) }
}

/// Reads the arguments of test `op`, which follow at `pos`: one byte each for a
/// fixed argument list; for the word list of `said`, a count byte and then
/// two bytes, low first, per word.
pub open spec fn parse_test(d: Seq<u8>, pos: int, op: u8, negate: bool) -> Parsed<LogicTestView> {
    if !test_command_known(op) {
        Parsed::Failed(DecodingError::Disassembly(DisassemblyError::InvalidTestOpcode(op)))
    } else if test_command_var_args(op) {
        if pos >= d.len() {
            Parsed::Failed(DecodingError::UnexpectedEof)
        } else {
            let count = d[pos] as int;
            if pos + 1 + 2 * count > d.len() {
                Parsed::Failed(DecodingError::UnexpectedEof)
            } else {
                Parsed::Done(
                    LogicTestView {
                        command: test_command_entry(op),
                        args: Seq::new(
                            count as nat,
                            |k: int| le_u16_of(d[pos + 1 + 2 * k], d[pos + 2 + 2 * k]),
                        ),
                        negate,
                    },
                    pos + 1 + 2 * count,
                )
            }
        }
    } else {
        let count = test_command_arg_types(op).len() as int;
        if pos + count > d.len() {
            Parsed::Failed(DecodingError::UnexpectedEof)
        } else {
            Parsed::Done(
                LogicTestView {
                    command: test_command_entry(op),
                    args: Seq::new(count as nat, |k: int| d[pos + k] as u16),
                    negate,
                },
                pos + count,
            )
        }
    }
}

/// Reads the clauses of a condition from `pos` up to its closing `0xff`: `0xfd`
/// negates the next test, a `0xfc` opens a disjunction and the next closes it
/// (one left open at the end is dropped), any other byte is a test.
pub open spec fn parse_clauses(
    d: Seq<u8>,
    pos: int,
    clauses: Seq<ClauseView>,
    negate: bool,
    disjunction: Option<Seq<LogicTestView>>,
) -> Parsed<Seq<ClauseView>>
    decreases d.len() - pos,
{
    if pos < 0 || pos >= d.len() {
        Parsed::Failed(DecodingError::UnexpectedEof)
    } else {
        let op = d[pos];
        if op == 0xff {
            Parsed::Done(clauses, pos + 1)
        } else if op == 0xfd {
            parse_clauses(d, pos + 1, clauses, true, disjunction)
        } else if op == 0xfc {
            match disjunction {
                Some(tests) => parse_clauses(d, pos + 1, clauses.push(ClauseView::Or(tests)), negate, None),
                None => parse_clauses(d, pos + 1, clauses, negate, Some(Seq::empty())),
            }
        } else {
            match parse_test(d, pos + 1, op, negate) {
                Parsed::Done(t, p2) => if p2 > pos {
                    match disjunction {
                        Some(tests) => parse_clauses(d, p2, clauses, false, Some(tests.push(t))),
                        None => parse_clauses(d, p2, clauses.push(ClauseView::Test(t)), false, None),
                    }
                } else {
                    Parsed::Failed(DecodingError::UnexpectedEof)
                },
                Parsed::Failed(e) => Parsed::Failed(e),
                Parsed::Fault => Parsed::Fault,
            }
        }
    }
}

/// The address of a bytecode position: positions count from the two-byte
/// length header.
pub open spec fn address_of(pos: int) -> u16 {
    wrap16(pos - 2)
}

/// Reads the instruction at `pos`: `0xff` opens a condition, whose clauses
/// are followed by a signed skip offset; `0xfe` is a jump with a signed
/// offset; other bytes are action commands with one byte per argument.
/// Offsets count from the end of the instruction.
#[verifier::opaque]
pub open spec fn parse_instruction(d: Seq<u8>, pos: int, v: AGIVersion) -> Parsed<InstructionView> {
    if pos < 0 || pos >= d.len() {
        Parsed::Failed(DecodingError::UnexpectedEof)
    } else {
        let op = d[pos];
        let address = address_of(pos);
        if op == 0xff {
            match parse_clauses(d, pos + 1, Seq::empty(), false, None) {
                Parsed::Done(clauses, p) => if p + 2 > d.len() {
                    Parsed::Failed(DecodingError::UnexpectedEof)
                } else {
                    Parsed::Done(
                        InstructionView::Condition {
                            address,
                            clauses,
                            skip_address: wrap16(p + le_i16_of(d[p], d[p + 1])),
                        },
                        p + 2,
                    )
                },
                Parsed::Failed(e) => Parsed::Failed(e),
                Parsed::Fault => Parsed::Fault,
            }
        } else if op == 0xfe {
            if pos + 3 > d.len() {
                Parsed::Failed(DecodingError::UnexpectedEof)
            } else {
                Parsed::Done(
                    InstructionView::Goto {
                        address,
                        jump_address: wrap16(pos + 1 + le_i16_of(d[pos + 1], d[pos + 2])),
                    },
                    pos + 3,
                )
            }
        } else if agi_command_variant_unsupported(op, v) {
            Parsed::Fault
        } else if agi_command_gated(op, v) || !agi_command_known(op) {
            Parsed::Failed(DecodingError::Disassembly(DisassemblyError::InvalidOpcode(op)))
        } else {
            let n = agi_command_arg_types(op).len() as int;
            if pos + 1 + n > d.len() {
                Parsed::Failed(DecodingError::UnexpectedEof)
            } else {
                Parsed::Done(
                    InstructionView::Command {
                        address,
                        command: agi_command_entry(op),
                        args: d.subrange(pos + 1, pos + 1 + n),
                    },
                    pos + 1 + n,
                )
            }
        }
    }
}

/// Reads instructions from `pos` while the position lies below `end`.
pub open spec fn parse_instructions(
    d: Seq<u8>,
    pos: int,
    end: int,
    v: AGIVersion,
    acc: Seq<InstructionView>,
) -> Parsed<Seq<InstructionView>>
    decreases end - pos,
{
    if pos >= end {
        Parsed::Done(acc, pos)
    } else {
        match parse_instruction(d, pos, v) {
            Parsed::Done(i, p2) => if p2 >= end {
                Parsed::Done(acc.push(i), p2)
            } else if p2 > pos {
                parse_instructions(d, p2, end, v, acc.push(i))
            } else {
                Parsed::Failed(DecodingError::UnexpectedEof)
            },
            Parsed::Failed(e) => Parsed::Failed(e),
            Parsed::Fault => Parsed::Fault,
        }
    }
}


/// `r` is what the reading `p` describes.
pub open spec fn parsed_as<T: View>(r: Result<(T, usize), DecodingError>, p: Parsed<T::V>) -> bool {
    match p {
        Parsed::Done(v, pos) => r matches Ok((x, q)) && x@ == v && q == pos,
        Parsed::Failed(e) => r == Err::<(T, usize), DecodingError>(e),
        Parsed::Fault => false,
    }
}

fn read_le_u16(data: &[u8], pos: usize) -> (r: u16)
    requires
        pos + 2 <= data@.len(),
    ensures
        r == le_u16_of(data@[pos as int], data@[pos + 1]),
{
    let lo = data[pos];
    let hi = data[pos + 1];
    lo as u16 + (hi as u16) * 256
}

/// The address `base + offset` for a signed 16-bit `offset`, wrapped to 16 bits.
fn offset_address(base: usize, lo: u8, hi: u8) -> (r: u16)
    ensures
        r == wrap16(base + le_i16_of(lo, hi)),
{
    let v: u16 = lo as u16 + (hi as u16) * 256;
    let b: u16 = (base % 65536) as u16;
    let r = b.wrapping_add(v);
    proof {
        let x = base + le_i16_of(lo, hi);
        assert(r == (b + v) % 65536);
        assert((b + v) % 65536 == x % 65536) by {
            vstd::arithmetic::div_mod::lemma_add_mod_noop(base as int, v as int, 65536);
            if v >= 0x8000 {
                vstd::arithmetic::div_mod::lemma_mod_sub_multiples_vanish(base + v, 65536);
            }
        }
        vstd::arithmetic::div_mod::lemma_mod_bound(x, 65536);
    }
    r
}

fn decode_test(data: &[u8], pos: usize, op: u8, negate: bool) -> (r: Result<(LogicTest, usize), DecodingError>)
    ensures
        parsed_as(r, parse_test(data@, pos as int, op, negate)),
{
    let test_command = match TestCommand::get(op) {
        Some(c) => c,
        None => {
            return Err(DecodingError::Disassembly(DisassemblyError::InvalidTestOpcode(op)));
        },
    };
    let mut args: Vec<u16> = Vec::new();
    assert(data@.len() == data.len());
    if test_command.var_args {
        if pos >= data.len() {
            return Err(DecodingError::UnexpectedEof);
        }
        let count = data[pos] as usize;
        if data.len() - pos - 1 < 2 * count {
            return Err(DecodingError::UnexpectedEof);
        }
        let mut k: usize = 0;
        while k < count
            invariant
                data@.len() <= usize::MAX,
                pos + 1 + 2 * count <= data@.len(),
                count == data@[pos as int],
                0 <= k <= count,
                args@.len() == k,
                forall|j: int| 0 <= j < k ==> args@[j] == le_u16_of(data@[pos + 1 + 2 * j], data@[pos + 2 + 2 * j]),
            decreases count - k,
        {
            args.push(read_le_u16(data, pos + 1 + 2 * k));
            k = k + 1;
        }
        let t = LogicTest { test_command, args, negate };
        proof {
            let spec_args = Seq::new(count as nat, |k: int| le_u16_of(data@[pos + 1 + 2 * k], data@[pos + 2 + 2 * k]));
            assert(t.args@ =~= spec_args);
        }
        Ok((t, pos + 1 + 2 * count))
    } else {
        let count = test_command.arg_types.len();
        if pos > data.len() || data.len() - pos < count {
            return Err(DecodingError::UnexpectedEof);
        }
        let mut k: usize = 0;
        while k < count
            invariant
                data@.len() <= usize::MAX,
                pos + count <= data@.len(),
                0 <= k <= count,
                args@.len() == k,
                forall|j: int| 0 <= j < k ==> args@[j] == data@[pos + j] as u16,
            decreases count - k,
        {
            args.push(data[pos + k] as u16);
            k = k + 1;
        }
        let t = LogicTest { test_command, args, negate };
        proof {
            let spec_args = Seq::new(count as nat, |k: int| data@[pos + k] as u16);
            assert(t.args@ =~= spec_args);
        }
        Ok((t, pos + count))
    }
}

/// Reads the clauses of a condition whose first clause byte is at `pos`.
fn decode_clauses(data: &[u8], pos: usize) -> (r: Result<(Vec<LogicConditionClause>, usize), DecodingError>)
    ensures
        match parse_clauses(data@, pos as int, Seq::empty(), false, None) {
            Parsed::Done(cs, p) => r matches Ok((x, q)) && clauses_view(x@) == cs && q == p,
            Parsed::Failed(e) => r == Err::<(Vec<LogicConditionClause>, usize), DecodingError>(e),
            Parsed::Fault => false,
        },
{
    let ghost d = data@;
    let mut p = pos;
    let mut clauses: Vec<LogicConditionClause> = Vec::new();
    let mut negate_next = false;
    let mut disjunction: Option<Vec<LogicTest>> = None;
    assert(clauses_view(clauses@) =~= Seq::<ClauseView>::empty());
    loop
        invariant
            d == data@,
            parse_clauses(d, pos as int, Seq::empty(), false, None) == parse_clauses(
                d,
                p as int,
                clauses_view(clauses@),
                negate_next,
                match disjunction {
                    Some(v) => Some(tests_view(v@)),
                    None => None,
                },
            ),
        decreases d.len() - p,
    {
        if p >= data.len() {
            return Err(DecodingError::UnexpectedEof);
        }
        let op = data[p];
        if op == 0xff {
            return Ok((clauses, p + 1));
        } else if op == 0xfd {
            negate_next = true;
            p = p + 1;
        } else if op == 0xfc {
            match disjunction {
                Some(tests) => {
                    let ghost prev = clauses_view(clauses@);
                    let ghost tv = tests_view(tests@);
                    clauses.push(LogicConditionClause::Or(LogicOr { or_tests: tests }));
                    assert(clauses_view(clauses@) =~= prev.push(ClauseView::Or(tv)));
                    disjunction = None;
                },
                None => {
                    let v: Vec<LogicTest> = Vec::new();
                    assert(tests_view(v@) =~= Seq::<LogicTestView>::empty());
                    disjunction = Some(v);
                },
            }
            p = p + 1;
        } else {
            let (t, p2) = decode_test(data, p + 1, op, negate_next)?;
            negate_next = false;
            match disjunction {
                Some(mut tests) => {
                    let ghost prev = tests_view(tests@);
                    let ghost tv = t@;
                    tests.push(t);
                    assert(tests_view(tests@) =~= prev.push(tv));
                    disjunction = Some(tests);
                },
                None => {
                    let ghost prev = clauses_view(clauses@);
                    let ghost tv = t@;
                    clauses.push(LogicConditionClause::Test(t));
                    assert(clauses_view(clauses@) =~= prev.push(ClauseView::Test(tv)));
                },
            }
            p = p2;
        }
    }
}


/// The outcome of reading a whole logic resource.
pub enum ProgramRead {
    Decoded(Seq<InstructionView>, Map<u8, Seq<char>>),
    Failed(DecodingError),
    Fault,
}

/// Reads the first `k` messages of the message section at `t`: each has a
/// two-byte offset in the table after the section's three header bytes; a
/// zero offset means no message; text is read from `plain` at `t + offset + 1`.
pub open spec fn read_messages(d: Seq<u8>, plain: Seq<u8>, t: int, k: int) -> Result<
    Map<u8, Seq<char>>,
    DecodingError,
>
    decreases k,
{
    if k <= 0 {
        Ok(Map::empty())
    } else {
        match read_messages(d, plain, t, k - 1) {
            Ok(m) => {
                let off = le_u16_of(d[t + 3 + 2 * (k - 1)], d[t + 4 + 2 * (k - 1)]);
                if off == 0 {
                    Ok(m)
                } else {
                    match null_terminated_at(plain, t + off + 1) {
                        Ok(text) => Ok(m.insert((k - 1) as u8, text)),
                        Err(e) => Err(e),
                    }
                }
            },
            Err(e) => Err(e),
        }
    }
}

/// Reads the message section at `t`: a count byte, a two-byte end marker,
/// the offset table, then the texts, which version 2 scrambles from the end
/// of the table on.
pub open spec fn parse_messages(d: Seq<u8>, t: int, v: AGIVersion) -> Result<
    Map<u8, Seq<char>>,
    DecodingError,
> {
    if t < 0 || t + 3 > d.len() {
        Err(DecodingError::UnexpectedEof)
    } else {
        let count = d[t] as int;
        if t + 3 + 2 * count > d.len() {
            Err(DecodingError::UnexpectedEof)
        } else {
            let plain = if v.major == AGIMajorVersion::AGI2 {
                xor_at(d, 0, t + 3 + 2 * count)
            } else {
                d
            };
            read_messages(d, plain, t, count)
        }
    }
}

/// Reads a logic resource: a two-byte length of the bytecode, the bytecode,
/// then the message section.
pub open spec fn parse_program(d: Seq<u8>, v: AGIVersion) -> ProgramRead {
    if d.len() < 2 {
        ProgramRead::Failed(DecodingError::UnexpectedEof)
    } else if le_u16_of(d[0], d[1]) + 2 > 0xffff {
        ProgramRead::Fault
    } else {
        let t = le_u16_of(d[0], d[1]) + 2;
        match parse_instructions(d, 2, t, v, Seq::empty()) {
            Parsed::Done(instructions, _) => match parse_messages(d, t, v) {
                Ok(m) => ProgramRead::Decoded(instructions, m),
                Err(e) => ProgramRead::Failed(e),
            },
            Parsed::Failed(e) => ProgramRead::Failed(e),
            Parsed::Fault => ProgramRead::Fault,
        }
    }
}

fn address_at(pos: usize) -> (r: u16)
    ensures
        r == address_of(pos as int),
{
    if pos >= 2 {
        ((pos - 2) % 65536) as u16
    } else {
        (65534 + pos) as u16
    }
}

/// Reads the instruction at `pos`.
pub fn decode_instruction(data: &[u8], pos: usize, agi_version: &AGIVersion) -> (r: Result<
    (LogicInstruction, usize),
    DecodingError,
>)
    requires
        parse_instruction(data@, pos as int, *agi_version) != Parsed::<InstructionView>::Fault,
    ensures
        parsed_as(r, parse_instruction(data@, pos as int, *agi_version)),
{
    reveal(parse_instruction);
    assert(data@.len() == data.len());
    if pos >= data.len() {
        return Err(DecodingError::UnexpectedEof);
    }
    let op = data[pos];
    let address = address_at(pos);
    if op == 0xff {
        let (clauses, p) = decode_clauses(data, pos + 1)?;
        if p > data.len() || data.len() - p < 2 {
            return Err(DecodingError::UnexpectedEof);
        }
        let skip_address = offset_address(p, data[p], data[p + 1]);
        let c = LogicCondition { address, clauses, skip_address };
        Ok((LogicInstruction::Condition(c), p + 2))
    } else if op == 0xfe {
        if data.len() - pos < 3 {
            return Err(DecodingError::UnexpectedEof);
        }
        let jump_address = offset_address(pos + 1, data[pos + 1], data[pos + 2]);
        Ok((LogicInstruction::Goto(LogicGoto { address, jump_address }), pos + 3))
    } else {
        let agi_command = match AGICommand::get(op, agi_version) {
            Some(c) => c,
            None => {
                return Err(DecodingError::Disassembly(DisassemblyError::InvalidOpcode(op)));
            },
        };
        let n = agi_command.arg_types.len();
        if data.len() - pos - 1 < n {
            return Err(DecodingError::UnexpectedEof);
        }
        let mut args: Vec<u8> = Vec::new();
        let mut k: usize = 0;
        while k < n
            invariant
                data@.len() <= usize::MAX,
                pos + 1 + n <= data@.len(),
                0 <= k <= n,
                args@ == data@.subrange(pos + 1, pos + 1 + k),
            decreases n - k,
        {
            args.push(data[pos + 1 + k]);
            k = k + 1;
            assert(args@ =~= data@.subrange(pos + 1, pos + 1 + k));
        }
        let c = LogicCommand { address, agi_command, args };
        Ok((LogicInstruction::Command(c), pos + 1 + n))
    }
}

/// Reads instructions from position 2 while the position lies below `end`.
pub fn decode_instructions(data: &[u8], end: usize, agi_version: &AGIVersion) -> (r: Result<
    Vec<LogicInstruction>,
    DecodingError,
>)
    requires
        parse_instructions(data@, 2, end as int, *agi_version, Seq::empty())
            != Parsed::<Seq<InstructionView>>::Fault,
    ensures
        match parse_instructions(data@, 2, end as int, *agi_version, Seq::empty()) {
            Parsed::Done(is, _) => r matches Ok(x) && instructions_view(x@) == is,
            Parsed::Failed(e) => r == Err::<Vec<LogicInstruction>, DecodingError>(e),
            Parsed::Fault => false,
        },
{
    let ghost d = data@;
    let mut instructions: Vec<LogicInstruction> = Vec::new();
    let mut pos: usize = 2;
    assert(instructions_view(instructions@) =~= Seq::<InstructionView>::empty());
    while pos < end
        invariant
            d == data@,
            parse_instructions(d, 2, end as int, *agi_version, Seq::empty()) == parse_instructions(
                d,
                pos as int,
                end as int,
                *agi_version,
                instructions_view(instructions@),
            ),
            parse_instructions(d, 2, end as int, *agi_version, Seq::empty())
                != Parsed::<Seq<InstructionView>>::Fault,
        decreases end - pos,
    {
        proof {
            lemma_instruction_advances(d, pos as int, *agi_version);
        }
        let (instruction, p2) = decode_instruction(data, pos, agi_version)?;
        let ghost prev = instructions_view(instructions@);
        let ghost iv = instruction@;
        instructions.push(instruction);
        assert(instructions_view(instructions@) =~= prev.push(iv));
        if p2 >= end {
            return Ok(instructions);
        }
        pos = p2;
    }
    Ok(instructions)
}

proof fn lemma_clauses_advance(
    d: Seq<u8>,
    pos: int,
    clauses: Seq<ClauseView>,
    negate: bool,
    disjunction: Option<Seq<LogicTestView>>,
)
    ensures
        parse_clauses(d, pos, clauses, negate, disjunction) matches Parsed::Done(_, p) ==> p > pos,
    decreases d.len() - pos,
{
    if 0 <= pos < d.len() {
        let op = d[pos];
        if op == 0xfd {
            lemma_clauses_advance(d, pos + 1, clauses, true, disjunction);
        } else if op == 0xfc {
            match disjunction {
                Some(tests) => lemma_clauses_advance(d, pos + 1, clauses.push(ClauseView::Or(tests)), negate, None),
                None => lemma_clauses_advance(d, pos + 1, clauses, negate, Some(Seq::empty())),
            }
        } else if op != 0xff {
            match parse_test(d, pos + 1, op, negate) {
                Parsed::Done(t, p2) => if p2 > pos {
                    match disjunction {
                        Some(tests) => lemma_clauses_advance(d, p2, clauses, false, Some(tests.push(t))),
                        None => lemma_clauses_advance(d, p2, clauses.push(ClauseView::Test(t)), false, None),
                    }
                },
                _ => {},
            }
        }
    }
}

proof fn lemma_instruction_advances(d: Seq<u8>, pos: int, v: AGIVersion)
    ensures
        parse_instruction(d, pos, v) matches Parsed::Done(_, p) ==> p > pos,
{
    reveal(parse_instruction);
    lemma_clauses_advance(d, pos + 1, Seq::empty(), false, None);
}

/// Reads the message section at `t`.
pub fn decode_messages(data: &[u8], text_offset: u16, agi_version: &AGIVersion) -> (r: Result<
    LogicMessages,
    DecodingError,
>)
    ensures
        match parse_messages(data@, text_offset as int, *agi_version) {
            Ok(m) => r matches Ok(x) && messages_view(x) == m,
            Err(e) => r == Err::<LogicMessages, DecodingError>(e),
        },
{
    let t = text_offset as usize;
    assert(data@.len() == data.len());
    if t > data.len() || data.len() - t < 3 {
        return Err(DecodingError::UnexpectedEof);
    }
    let count = data[t] as usize;
    if data.len() - t - 3 < 2 * count {
        return Err(DecodingError::UnexpectedEof);
    }
    let xo = t + 3 + 2 * count;
    let plain = match agi_version.major {
        AGIMajorVersion::AGI2 => xor_transform(data, 0, xo),
        AGIMajorVersion::AGI3 => {
            let mut copy: Vec<u8> = Vec::new();
            let mut k: usize = 0;
            while k < data.len()
                invariant
                    0 <= k <= data@.len(),
                    copy@ == data@.subrange(0, k as int),
                decreases data@.len() - k,
            {
                copy.push(data[k]);
                k = k + 1;
                assert(copy@ =~= data@.subrange(0, k as int));
            }
            assert(copy@ =~= data@);
            copy
        },
    };
    let ghost pl = plain@;
    let mut cursor = crate::data_encoding::ByteCursor::new(plain);
    let mut messages: LogicMessages = HashMap::new();
    assert(messages_view(messages) =~= Map::<u8, Seq<char>>::empty());
    let mut i: usize = 0;
    while i < count
        invariant
            data@.len() <= usize::MAX,
            t == text_offset,
            t + 3 + 2 * count <= data@.len(),
            count == data@[t as int],
            count <= 255,
            cursor.contents() == pl,
            pl == (if agi_version.major == AGIMajorVersion::AGI2 {
                xor_at(data@, 0, t + 3 + 2 * count)
            } else {
                data@
            }),
            0 <= i <= count,
            read_messages(data@, pl, t as int, i as int) == Ok::<Map<u8, Seq<char>>, DecodingError>(
                messages_view(messages),
            ),
        decreases count - i,
    {
        let off = read_le_u16(data, t + 3 + 2 * i);
        if off != 0 {
            cursor.seek(t + off as usize + 1);
            let text = match cursor.read_null_terminated_string() {
                Ok(s) => s,
                Err(e) => {
                    proof {
                        lemma_messages_failed_propagates(data@, pl, t as int, i + 1, count as int, e);
                    }
                    return Err(e);
                },
            };
            let ghost prev = messages_view(messages);
            let ghost tv = text@;
            messages.insert(i as u8, text);
            assert(messages_view(messages) =~= prev.insert(i as u8, tv));
        }
        i = i + 1;
    }
    Ok(messages)
}

proof fn lemma_messages_failed_propagates(
    d: Seq<u8>,
    plain: Seq<u8>,
    t: int,
    k: int,
    n: int,
    e: DecodingError,
)
    requires
        0 <= k <= n,
        read_messages(d, plain, t, k) == Err::<Map<u8, Seq<char>>, DecodingError>(e),
    ensures
        read_messages(d, plain, t, n) == Err::<Map<u8, Seq<char>>, DecodingError>(e),
    decreases n - k,
{
    if k < n {
        assert(read_messages(d, plain, t, k + 1) == Err::<Map<u8, Seq<char>>, DecodingError>(e));
        lemma_messages_failed_propagates(d, plain, t, k + 1, n, e);
    }
}

impl LogicProgram {
    /// Reads a logic resource as the interpreter `agi_version` stores it.
    pub fn decode(data: &[u8], agi_version: &AGIVersion) -> (r: Result<LogicProgram, DecodingError>)
        requires
            parse_program(data@, *agi_version) != ProgramRead::Fault,
        ensures
            match parse_program(data@, *agi_version) {
                ProgramRead::Decoded(is, m) => r matches Ok(p) && instructions_view(p.instructions@)
                    == is && messages_view(p.messages) == m,
                ProgramRead::Failed(e) => r == Err::<LogicProgram, DecodingError>(e),
                ProgramRead::Fault => false,
            },
    {
        assert(data@.len() == data.len());
        if data.len() < 2 {
            return Err(DecodingError::UnexpectedEof);
        }
        let raw = read_le_u16(data, 0);
        let text_offset = raw + 2;
        let instructions = decode_instructions(data, text_offset as usize, agi_version)?;
        let messages = decode_messages(data, text_offset, agi_version)?;
        Ok(LogicProgram { instructions, messages })
    }
}

} // verus!
