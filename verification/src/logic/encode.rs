use vstd::prelude::*;
use std::collections::HashMap;

use crate::data_encoding::{ByteWriter, u16_le_bytes, null_terminated};
use crate::logic::commands::{AGICommand, TestCommand};
use crate::logic::decode::wrap16;
use crate::logic::{
    ClauseView, InstructionView, LogicCommand, LogicCondition, LogicConditionClause, LogicGoto,
    LogicInstruction, LogicOr, LogicProgram, LogicTest, LogicTestView, clauses_view, instruction_address,
    instructions_view, messages_view, tests_view,
};
use crate::xor_encryption::{xor_at, xor_transform};

verus! {

broadcast use vstd::std_specs::hash::group_hash_axioms;

/// Why a program could not be assembled.
#[derive(Debug)]
pub enum AssemblyError {
    ByteCodeNotFound,
    ErrorAssemblingInstruction(LogicInstruction, Box<EncodingError>),
    InstructionAddressNotFound,
    InvalidJump(u16),
    InvalidConditionalSkip(u16),
    TargetAddressNotFound,
}

/// Why a resource could not be written.
#[derive(Debug)]
pub enum EncodingError {
    Assembly(AssemblyError),
    Io(std::io::Error),
}

/// A jump whose offset is filled in once all instruction positions are known.
pub struct AddressPlaceholder {
    pub instruction: usize,
    pub jump_target: usize,
}

/// The concatenation of the two-byte little-endian forms of `v`.
pub open spec fn u16s_le(v: Seq<u16>) -> Seq<u8>
    decreases v.len(),
{
    if v.len() == 0 {
        Seq::empty()
    } else {
        u16s_le(v.drop_last()) + u16_le_bytes(v.last())
    }
}

/// The bytecode of a test: an optional negation byte, the opcode, then one
/// byte per argument, or for a counted list a count byte and two bytes per word.
pub open spec fn test_bytes(t: LogicTestView) -> Seq<u8> {
    (if t.negate {
        seq![0xfdu8]
    } else {
        Seq::empty()
    }) + seq![t.command.opcode] + if t.command.var_args {
        seq![t.args.len() as u8] + u16s_le(t.args)
    } else {
        t.args.map_values(|a: u16| a as u8)
    }
}

pub open spec fn tests_bytes(ts: Seq<LogicTestView>) -> Seq<u8>
    decreases ts.len(),
{
    if ts.len() == 0 {
        Seq::empty()
    } else {
        tests_bytes(ts.drop_last()) + test_bytes(ts.last())
    }
}

/// A clause's bytecode; a disjunction is framed by `0xfc` on both sides.
pub open spec fn clause_bytes(c: ClauseView) -> Seq<u8> {
    match c {
        ClauseView::Test(t) => test_bytes(t),
        ClauseView::Or(ts) => seq![0xfcu8] + tests_bytes(ts) + seq![0xfcu8],
    }
}

pub open spec fn clauses_bytes(cs: Seq<ClauseView>) -> Seq<u8>
    decreases cs.len(),
{
    if cs.len() == 0 {
        Seq::empty()
    } else {
        clauses_bytes(cs.drop_last()) + clause_bytes(cs.last())
    }
}

/// The bytecode of an instruction with its jump offset, if any, still zero.
pub open spec fn instruction_body(i: InstructionView) -> Seq<u8> {
    match i {
        InstructionView::Command { command, args, .. } => seq![command.opcode] + args,
        InstructionView::Condition { clauses, .. } => seq![0xffu8] + clauses_bytes(clauses) + seq![
            0xffu8,
            0u8,
            0u8,
        ],
        InstructionView::Goto { .. } => seq![0xfeu8, 0u8, 0u8],
    }
}

fn copy_vec<T: Copy>(v: &Vec<T>) -> (r: Vec<T>)
    ensures
        r@ == v@,
{
    let mut r: Vec<T> = Vec::new();
    let mut i: usize = 0;
    while i < v.len()
        invariant
            0 <= i <= v@.len(),
            r@ == v@.subrange(0, i as int),
        decreases v@.len() - i,
    {
        r.push(v[i]);
        i = i + 1;
        assert(r@ =~= v@.subrange(0, i as int));
    }
    assert(r@ =~= v@);
    r
}

impl TestCommand {
    pub fn duplicate(&self) -> (r: TestCommand)
        ensures
            r@ == self@,
    {
        TestCommand {
            opcode: self.opcode,
            name: self.name.clone(),
            arg_types: copy_vec(&self.arg_types),
            var_args: self.var_args,
        }
    }
}

impl AGICommand {
    pub fn duplicate(&self) -> (r: AGICommand)
        ensures
            r@ == self@,
    {
        AGICommand { opcode: self.opcode, name: self.name.clone(), arg_types: copy_vec(&self.arg_types) }
    }
}

impl LogicTest {
    pub fn duplicate(&self) -> (r: LogicTest)
        ensures
            r@ == self@,
    {
        LogicTest { test_command: self.test_command.duplicate(), args: copy_vec(&self.args), negate: self.negate }
    }

    /// Writes the test's bytecode.
    pub fn encode(&self) -> (r: Vec<u8>)
        requires
            self.test_command.var_args ==> self.args@.len() <= 255,
        ensures
            r@ == test_bytes(self@),
    {
        let mut w = ByteWriter::new();
        if self.negate {
            w.write_u8(0xfd);
        }
        w.write_u8(self.test_command.opcode);
        if self.test_command.var_args {
            w.write_u8(self.args.len() as u8);
            let ghost start = w.contents();
            let mut k: usize = 0;
            while k < self.args.len()
                invariant
                    0 <= k <= self.args@.len(),
                    w.contents() == start + u16s_le(self.args@.subrange(0, k as int)),
                decreases self.args@.len() - k,
            {
                w.write_u16_le(self.args[k]);
                k = k + 1;
                assert(self.args@.subrange(0, k as int).drop_last() =~= self.args@.subrange(0, k - 1));
                assert(w.contents() =~= start + u16s_le(self.args@.subrange(0, k as int)));
            }
            assert(self.args@.subrange(0, self.args@.len() as int) =~= self.args@);
        } else {
            let ghost start = w.contents();
            let mut k: usize = 0;
            while k < self.args.len()
                invariant
                    0 <= k <= self.args@.len(),
                    w.contents() == start + self.args@.subrange(0, k as int).map_values(|a: u16| a as u8),
                decreases self.args@.len() - k,
            {
                w.write_u8(self.args[k] as u8);
                k = k + 1;
                assert(w.contents() =~= start + self.args@.subrange(0, k as int).map_values(|a: u16| a as u8));
            }
            assert(self.args@.subrange(0, self.args@.len() as int) =~= self.args@);
        }
        let r = w.into_bytes();
        assert(r@ =~= test_bytes(self@));
        r
    }
}

/// Counted word lists fit in a count byte.
pub open spec fn tests_encodable(ts: Seq<LogicTestView>) -> bool {
    forall|i: int| 0 <= i < ts.len() ==> (#[trigger] ts[i]).command.var_args ==> ts[i].args.len() <= 255
}

#[verifier::opaque]
pub open spec fn clause_encodable(c: ClauseView) -> bool {
    match c {
        ClauseView::Test(t) => tests_encodable(seq![t]),
        ClauseView::Or(ts) => tests_encodable(ts),
    }
}

pub open spec fn clauses_encodable(clauses: Seq<ClauseView>) -> bool {
    forall|k: int| 0 <= k < clauses.len() ==> clause_encodable(#[trigger] clauses[k])
}

pub open spec fn instruction_encodable(i: InstructionView) -> bool {
    match i {
        InstructionView::Condition { clauses, .. } => clauses_encodable(clauses),
        _ => true,
    }
}

fn encode_tests(tests: &Vec<LogicTest>, w: &mut ByteWriter)
    requires
        tests_encodable(tests_view(tests@)),
    ensures
        final(w).contents() == old(w).contents() + tests_bytes(tests_view(tests@)),
{
    let ghost start = w.contents();
    let mut k: usize = 0;
    while k < tests.len()
        invariant
            0 <= k <= tests@.len(),
            tests_encodable(tests_view(tests@)),
            w.contents() == start + tests_bytes(tests_view(tests@.subrange(0, k as int))),
        decreases tests@.len() - k,
    {
        assert(tests_view(tests@)[k as int] == tests@[k as int]@);
        let b = tests[k].encode();
        w.write_all(b.as_slice());
        k = k + 1;
        assert(tests_view(tests@.subrange(0, k as int)).drop_last() =~= tests_view(tests@.subrange(0, k - 1)));
        assert(w.contents() =~= start + tests_bytes(tests_view(tests@.subrange(0, k as int))));
    }
    assert(tests@.subrange(0, tests@.len() as int) =~= tests@);
}

impl LogicConditionClause {
    pub fn encode(&self) -> (r: Vec<u8>)
        requires
            clause_encodable(self@),
        ensures
            r@ == clause_bytes(self@),
    {
        reveal(clause_encodable);
        match self {
            LogicConditionClause::Test(t) => {
                assert(seq![t@][0] == t@);
                t.encode()
            },
            LogicConditionClause::Or(o) => {
                let mut w = ByteWriter::new();
                w.write_u8(0xfc);
                encode_tests(&o.or_tests, &mut w);
                w.write_u8(0xfc);
                let r = w.into_bytes();
                assert(r@ =~= clause_bytes(self@));
                r
            },
        }
    }
}

impl LogicInstruction {
    pub fn duplicate(&self) -> (r: LogicInstruction)
        ensures
            r@ == self@,
    {
        match self {
            LogicInstruction::Command(c) => LogicInstruction::Command(
                LogicCommand { address: c.address, agi_command: c.agi_command.duplicate(), args: copy_vec(&c.args) },
            ),
            LogicInstruction::Condition(c) => {
                let mut clauses: Vec<LogicConditionClause> = Vec::new();
                let mut k: usize = 0;
                while k < c.clauses.len()
                    invariant
                        0 <= k <= c.clauses@.len(),
                        clauses_view(clauses@) == clauses_view(c.clauses@.subrange(0, k as int)),
                    decreases c.clauses@.len() - k,
                {
                    let d = match &c.clauses[k] {
                        LogicConditionClause::Test(t) => LogicConditionClause::Test(t.duplicate()),
                        LogicConditionClause::Or(o) => {
                            let mut ts: Vec<LogicTest> = Vec::new();
                            let mut j: usize = 0;
                            while j < o.or_tests.len()
                                invariant
                                    0 <= j <= o.or_tests@.len(),
                                    tests_view(ts@) == tests_view(o.or_tests@.subrange(0, j as int)),
                                decreases o.or_tests@.len() - j,
                            {
                                let ghost prev = tests_view(ts@);
                                let x = o.or_tests[j].duplicate();
                                ts.push(x);
                                j = j + 1;
                                assert(tests_view(ts@) =~= prev.push(x@));
                                assert(tests_view(o.or_tests@.subrange(0, j as int)) =~= tests_view(o.or_tests@.subrange(0, j - 1)).push(o.or_tests@[j - 1]@));
                            }
                            assert(o.or_tests@.subrange(0, o.or_tests@.len() as int) =~= o.or_tests@);
                            LogicConditionClause::Or(LogicOr { or_tests: ts })
                        },
                    };
                    assert(d@ == c.clauses@[k as int]@);
                    let ghost prev = clauses_view(clauses@);
                    let ghost dv = d@;
                    clauses.push(d);
                    k = k + 1;
                    assert(clauses_view(clauses@) =~= prev.push(dv));
                    assert(clauses_view(c.clauses@.subrange(0, k as int)) =~= clauses_view(c.clauses@.subrange(0, k - 1)).push(c.clauses@[k - 1]@));
                }
                assert(c.clauses@.subrange(0, c.clauses@.len() as int) =~= c.clauses@);
                LogicInstruction::Condition(LogicCondition { address: c.address, clauses, skip_address: c.skip_address })
            },
            LogicInstruction::Goto(g) => LogicInstruction::Goto(LogicGoto { address: g.address, jump_address: g.jump_address }),
        }
    }

    /// The instruction's bytecode with its jump offset, if any, still zero.
    pub fn encode_body(&self) -> (r: Vec<u8>)
        requires
            instruction_encodable(self@),
        ensures
            r@ == instruction_body(self@),
    {
        let mut w = ByteWriter::new();
        match self {
            LogicInstruction::Command(c) => {
                w.write_u8(c.agi_command.opcode);
                w.write_all(c.args.as_slice());
            },
            LogicInstruction::Condition(c) => {
                w.write_u8(0xff);
                proof {
                    assert forall|k: int| 0 <= k < c.clauses@.len() implies clause_encodable(
                        #[trigger] c.clauses@[k]@,
                    ) by {
                        assert(self@ == (InstructionView::Condition {
                            address: c.address,
                            clauses: clauses_view(c.clauses@),
                            skip_address: c.skip_address,
                        }));
                        assert(clauses_view(c.clauses@)[k] == c.clauses@[k]@);
                        let cv = clauses_view(c.clauses@);
                        assert(clauses_encodable(cv));
                        assert(clause_encodable(cv[k]));
                    }
                }
                let ghost start = w.contents();
                let mut k: usize = 0;
                while k < c.clauses.len()
                    invariant
                        0 <= k <= c.clauses@.len(),
                        forall|k: int| 0 <= k < c.clauses@.len() ==> clause_encodable(
                            #[trigger] c.clauses@[k]@,
                        ),
                        w.contents() == start + clauses_bytes(clauses_view(c.clauses@.subrange(0, k as int))),
                    decreases c.clauses@.len() - k,
                {
                    assert(clauses_view(c.clauses@)[k as int] == c.clauses@[k as int]@);
                    let b = c.clauses[k].encode();
                    w.write_all(b.as_slice());
                    k = k + 1;
                    assert(clauses_view(c.clauses@.subrange(0, k as int)).drop_last() =~= clauses_view(c.clauses@.subrange(0, k - 1)));
                    assert(w.contents() =~= start + clauses_bytes(clauses_view(c.clauses@.subrange(0, k as int))));
                }
                assert(c.clauses@.subrange(0, c.clauses@.len() as int) =~= c.clauses@);
                w.write_u8(0xff);
                w.write_u8(0);
                w.write_u8(0);
            },
            LogicInstruction::Goto(_) => {
                w.write_u8(0xfe);
                w.write_u8(0);
                w.write_u8(0);
            },
        }
        let r = w.into_bytes();
        assert(r@ =~= instruction_body(self@));
        r
    }
}


/// The index of the last of the first `k` instructions declared at `addr`.
pub open spec fn last_declared(is: Seq<InstructionView>, addr: u16, k: int) -> Option<int>
    decreases k,
{
    if k <= 0 {
        None
    } else if instruction_address(is[k - 1]) == addr {
        Some(k - 1)
    } else {
        last_declared(is, addr, k - 1)
    }
}

/// The address that an instruction jumps to, if it jumps.
pub open spec fn jump_of(i: InstructionView) -> Option<u16> {
    match i {
        InstructionView::Condition { skip_address, .. } => Some(skip_address),
        InstructionView::Goto { jump_address, .. } => Some(jump_address),
        InstructionView::Command { .. } => None,
    }
}

/// The byte position of instruction `k`: the sum of the sizes before it,
/// each size taken modulo 2^16.
pub open spec fn assembled_position(is: Seq<InstructionView>, k: int) -> int
    decreases k,
{
    if k <= 0 {
        0
    } else {
        assembled_position(is, k - 1) + instruction_body(is[k - 1]).len() % 65536
    }
}

/// The state of assembling the first `k` instructions: fine so far, stopped at
/// an instruction whose jump target no instruction declares, or past 16-bit
/// positions (an overflow).
pub enum AssemblyCheck {
    Ready,
    MissingTarget(int),
    Overflow,
}

pub open spec fn check_assembly(is: Seq<InstructionView>, k: int) -> AssemblyCheck
    decreases k,
{
    if k <= 0 {
        AssemblyCheck::Ready
    } else {
        match check_assembly(is, k - 1) {
            AssemblyCheck::Ready => if jump_of(is[k - 1]) matches Some(a) && last_declared(
                is,
                a,
                is.len() as int,
            ) is None {
                AssemblyCheck::MissingTarget(k - 1)
            } else if assembled_position(is, k) > 65535 {
                AssemblyCheck::Overflow
            } else {
                AssemblyCheck::Ready
            },
            other => other,
        }
    }
}

/// Instruction `j` with its jump offset filled in: the target's position
/// minus the position after this instruction, as two bytes, low first.
pub open spec fn fixed_body(is: Seq<InstructionView>, j: int) -> Seq<u8> {
    let b = instruction_body(is[j]);
    match jump_of(is[j]) {
        None => b,
        Some(a) => {
            let t = last_declared(is, a, is.len() as int).unwrap();
            b.subrange(0, b.len() - 2) + u16_le_bytes(
                wrap16(assembled_position(is, t) - (assembled_position(is, j) + b.len())),
            )
        },
    }
}

/// The bytecode of the first `k` instructions.
pub open spec fn assembled(is: Seq<InstructionView>, k: int) -> Seq<u8>
    decreases k,
{
    if k <= 0 {
        Seq::empty()
    } else {
        assembled(is, k - 1) + fixed_body(is, k - 1)
    }
}

/// The error for an instruction whose jump target is not declared.
pub open spec fn missing_target_error(i: InstructionView) -> AssemblyError {
    match i {
        InstructionView::Condition { skip_address, .. } => AssemblyError::InvalidConditionalSkip(skip_address),
        InstructionView::Goto { jump_address, .. } => AssemblyError::InvalidJump(jump_address),
        InstructionView::Command { .. } => AssemblyError::TargetAddressNotFound,
    }
}

pub open spec fn all_encodable(is: Seq<InstructionView>) -> bool {
    forall|k: int| 0 <= k < is.len() ==> instruction_encodable(#[trigger] is[k])
}

pub(crate) proof fn lemma_last_declared_bound(is: Seq<InstructionView>, a: u16, k: int)
    ensures
        last_declared(is, a, k) matches Some(t) ==> 0 <= t < k && instruction_address(is[t]) == a,
        last_declared(is, a, k) is None ==> forall|j: int| 0 <= j < k ==> instruction_address(#[trigger] is[j]) != a,
    decreases k,
{
    if k > 0 {
        lemma_last_declared_bound(is, a, k - 1);
    }
}

pub(crate) proof fn lemma_check_prefix(is: Seq<InstructionView>, k: int, n: int)
    requires
        0 <= k <= n,
        check_assembly(is, n) == AssemblyCheck::Ready,
    ensures
        check_assembly(is, k) == AssemblyCheck::Ready,
    decreases n - k,
{
    if k < n {
        lemma_check_prefix(is, k + 1, n);
    }
}

proof fn lemma_check_stuck(is: Seq<InstructionView>, k: int, n: int)
    requires
        0 <= k <= n,
        check_assembly(is, k) != AssemblyCheck::Ready,
    ensures
        check_assembly(is, n) == check_assembly(is, k),
    decreases n - k,
{
    if k < n {
        lemma_check_stuck(is, k + 1, n);
    }
}

/// Assembles instructions into bytecode: instructions follow each other, and
/// each jump gets the offset from the end of its instruction to the last
/// instruction declared at its target address.
pub fn encode_instructions(instructions: &Vec<LogicInstruction>) -> (r: Result<Vec<u8>, EncodingError>)
    requires
        all_encodable(instructions_view(instructions@)),
        check_assembly(instructions_view(instructions@), instructions@.len() as int) != AssemblyCheck::Overflow,
    ensures
        ({
            let is = instructions_view(instructions@);
            match check_assembly(is, is.len() as int) {
                AssemblyCheck::Ready => r matches Ok(bytes) && bytes@ == assembled(is, is.len() as int),
                AssemblyCheck::MissingTarget(j) => r matches Err(EncodingError::Assembly(
                    AssemblyError::ErrorAssemblingInstruction(x, e),
                )) && x@ == is[j] && *e == EncodingError::Assembly(missing_target_error(is[j])),
                AssemblyCheck::Overflow => false,
            }
        }),
{
    let ghost is = instructions_view(instructions@);
    let n = instructions.len();
    let mut declared: HashMap<u16, usize> = HashMap::new();
    let mut i: usize = 0;
    while i < n
        invariant
            n == instructions@.len(),
            is == instructions_view(instructions@),
            0 <= i <= n,
            forall|a: u16| #[trigger] declared@.contains_key(a) <==> last_declared(is, a, i as int) is Some,
            forall|a: u16| declared@.contains_key(a) ==> #[trigger] declared@[a] as int == last_declared(is, a, i as int).unwrap(),
        decreases n - i,
    {
        let a = instructions[i].address();
        assert(is[i as int] == instructions@[i as int]@);
        declared.insert(a, i);
        i = i + 1;
    }
    let mut bodies: Vec<Vec<u8>> = Vec::new();
    let mut targets: Vec<Option<usize>> = Vec::new();
    let mut positions: Vec<u16> = Vec::new();
    let mut address: u16 = 0;
    let mut id: usize = 0;
    while id < n
        invariant
            n == instructions@.len(),
            is == instructions_view(instructions@),
            is.len() == n,
            all_encodable(is),
            check_assembly(is, n as int) != AssemblyCheck::Overflow,
            forall|a: u16| #[trigger] declared@.contains_key(a) <==> last_declared(is, a, n as int) is Some,
            forall|a: u16| declared@.contains_key(a) ==> #[trigger] declared@[a] as int == last_declared(is, a, n as int).unwrap(),
            0 <= id <= n,
            check_assembly(is, id as int) == AssemblyCheck::Ready,
            address == assembled_position(is, id as int),
            bodies@.len() == id,
            targets@.len() == id,
            positions@.len() == id,
            forall|j: int| 0 <= j < id ==> (#[trigger] bodies@[j])@ == instruction_body(is[j]),
            forall|j: int| 0 <= j < id ==> #[trigger] positions@[j] == assembled_position(is, j),
            forall|j: int| 0 <= j < id ==> match #[trigger] targets@[j] {
                None => jump_of(is[j]) is None,
                Some(t) => jump_of(is[j]) matches Some(a) && last_declared(is, a, n as int) == Some(t as int),
            },
        decreases n - id,
    {
        let instruction = &instructions[id];
        assert(is[id as int] == instruction@);
        assert(instruction_encodable(is[id as int]));
        let body = instruction.encode_body();
        let target: Option<usize> = match instruction {
            LogicInstruction::Command(_) => None,
            LogicInstruction::Condition(c) => match declared.get(&c.skip_address) {
                Some(t) => Some(*t),
                None => {
                    proof {
                        assert(check_assembly(is, id + 1) == AssemblyCheck::MissingTarget(id as int));
                        lemma_check_stuck(is, id + 1, n as int);
                    }
                    let e = EncodingError::Assembly(AssemblyError::InvalidConditionalSkip(c.skip_address));
                    return Err(EncodingError::Assembly(AssemblyError::ErrorAssemblingInstruction(instruction.duplicate(), Box::new(e))));
                },
            },
            LogicInstruction::Goto(g) => match declared.get(&g.jump_address) {
                Some(t) => Some(*t),
                None => {
                    proof {
                        assert(check_assembly(is, id + 1) == AssemblyCheck::MissingTarget(id as int));
                        lemma_check_stuck(is, id + 1, n as int);
                    }
                    let e = EncodingError::Assembly(AssemblyError::InvalidJump(g.jump_address));
                    return Err(EncodingError::Assembly(AssemblyError::ErrorAssemblingInstruction(instruction.duplicate(), Box::new(e))));
                },
            },
        };
        proof {
            if check_assembly(is, id + 1) != AssemblyCheck::Ready {
                lemma_check_stuck(is, id + 1, n as int);
            }
        }
        let len16 = (body.len() % 65536) as u16;
        positions.push(address);
        bodies.push(body);
        targets.push(target);
        address = address + len16;
        id = id + 1;
    }
    let mut out: Vec<u8> = Vec::new();
    let mut j: usize = 0;
    while j < n
        invariant
            n == instructions@.len(),
            is == instructions_view(instructions@),
            is.len() == n,
            check_assembly(is, n as int) == AssemblyCheck::Ready,
            bodies@.len() == n,
            targets@.len() == n,
            positions@.len() == n,
            forall|k: int| 0 <= k < n ==> (#[trigger] bodies@[k])@ == instruction_body(is[k]),
            forall|k: int| 0 <= k < n ==> #[trigger] positions@[k] == assembled_position(is, k),
            forall|k: int| 0 <= k < n ==> match #[trigger] targets@[k] {
                None => jump_of(is[k]) is None,
                Some(t) => jump_of(is[k]) matches Some(a) && last_declared(is, a, n as int) == Some(t as int),
            },
            0 <= j <= n,
            out@ == assembled(is, j as int),
        decreases n - j,
    {
        let b = &bodies[j];
        let ghost prev = out@;
        match targets[j] {
            None => {
                let mut k: usize = 0;
                while k < b.len()
                    invariant
                        0 <= k <= b@.len(),
                        out@ == prev + b@.subrange(0, k as int),
                    decreases b@.len() - k,
                {
                    out.push(b[k]);
                    k = k + 1;
                    assert(out@ =~= prev + b@.subrange(0, k as int));
                }
                assert(b@.subrange(0, b@.len() as int) =~= b@);
            },
            Some(t) => {
                proof {
                    lemma_last_declared_bound(is, jump_of(is[j as int]).unwrap(), n as int);
                }
                let len = b.len();
                assert(len >= 3);
                let k_end = len - 2;
                let mut k: usize = 0;
                while k < k_end
                    invariant
                        k_end <= b@.len(),
                        0 <= k <= k_end,
                        out@ == prev + b@.subrange(0, k as int),
                    decreases k_end - k,
                {
                    out.push(b[k]);
                    k = k + 1;
                    assert(out@ =~= prev + b@.subrange(0, k as int));
                }
                let target_pos = positions[t] as u32;
                let here16 = positions[j] as u32 + (len % 65536) as u32;
                let off: u16 = ((target_pos + 131072 - here16) % 65536) as u16;
                proof {
                    let x = assembled_position(is, t as int) - (assembled_position(is, j as int) + len);
                    let q = len as int / 65536;
                    assert(len as int == 65536 * q + len as int % 65536);
                    assert(target_pos + 131072 - here16 == 65536 * (q + 2) + x);
                    vstd::arithmetic::div_mod::lemma_mod_multiples_vanish(q + 2, x, 65536);
                    vstd::arithmetic::div_mod::lemma_mod_bound(x, 65536);
                }
                out.push((off % 256) as u8);
                out.push((off / 256) as u8);
                assert(out@ =~= prev + fixed_body(is, j as int));
            },
        }
        j = j + 1;
    }
    Ok(out)
}


/// The highest message number up to `k` that `m` holds, or 0.
pub open spec fn highest_message(m: Map<u8, Seq<char>>, k: int) -> int
    decreases k,
{
    if k <= 0 {
        0
    } else if m.contains_key(k as u8) {
        k
    } else {
        highest_message(m, k - 1)
    }
}

/// The highest message number, or 0 for none.
pub open spec fn max_message_id(m: Map<u8, Seq<char>>) -> int {
    highest_message(m, 255)
}

/// The text of message `id` with its terminating zero; a missing message is a lone zero.
pub open spec fn message_buffer(m: Map<u8, Seq<char>>, id: int) -> Seq<u8> {
    if m.contains_key(id as u8) {
        null_terminated(m[id as u8])
    } else {
        seq![0u8]
    }
}

/// The texts of messages `0..k`, one after another.
pub open spec fn message_texts(m: Map<u8, Seq<char>>, k: int) -> Seq<u8>
    decreases k,
{
    if k <= 0 {
        Seq::empty()
    } else {
        message_texts(m, k - 1) + message_buffer(m, k - 1)
    }
}

/// The offset table for messages `0..k`: each text's position counted from
/// the byte after the section's count byte.
pub open spec fn message_offsets(m: Map<u8, Seq<char>>, k: int, header_len: int) -> Seq<u8>
    decreases k,
{
    if k <= 0 {
        Seq::empty()
    } else {
        message_offsets(m, k - 1, header_len) + u16_le_bytes(
            wrap16(header_len - 1 + message_texts(m, k - 1).len()),
        )
    }
}

/// The message section: the count, the end marker, the offset table and the
/// texts, scrambled from their start when `encrypt` holds.
pub open spec fn messages_bytes(m: Map<u8, Seq<char>>, encrypt: bool) -> Seq<u8> {
    let count = max_message_id(m) + 1;
    let plain_text = message_texts(m, count);
    let text = if encrypt {
        xor_at(plain_text, 0, 0)
    } else {
        plain_text
    };
    let header_len = 3 + 2 * count;
    seq![count as u8] + u16_le_bytes((header_len + text.len() % 65536 - 1) as u16) + message_offsets(
        m,
        count,
        header_len,
    ) + text
}

/// Writing messages overflows: the count does not fit a byte, or the end
/// marker's sum does not fit 16 bits.
pub open spec fn messages_overflow(m: Map<u8, Seq<char>>) -> bool {
    let count = max_message_id(m) + 1;
    ||| count > 255
    ||| 3 + 2 * count + message_texts(m, count).len() % 65536 > 65535
}

pub(crate) proof fn lemma_highest_message_bound(m: Map<u8, Seq<char>>, k: int)
    ensures
        0 <= highest_message(m, k) <= (if k < 0 { 0 } else { k }),
    decreases k,
{
    if k > 0 {
        lemma_highest_message_bound(m, k - 1);
    }
}

/// Writes the message section.
pub fn encode_messages(messages: &crate::logic::LogicMessages, encrypt: bool) -> (r: Vec<u8>)
    requires
        !messages_overflow(messages_view(*messages)),
    ensures
        r@ == messages_bytes(messages_view(*messages), encrypt),
{
    let ghost mv = messages_view(*messages);
    let mut max_id: usize = 0;
    let mut k: usize = 0;
    while k < 256
        invariant
            mv == messages_view(*messages),
            0 <= k <= 256,
            max_id as int == highest_message(mv, k as int - 1),
        decreases 256 - k,
    {
        if k > 0 && messages.contains_key(&(k as u8)) {
            max_id = k;
        }
        k = k + 1;
    }
    proof {
        lemma_highest_message_bound(mv, 255);
    }
    let count = max_id + 1;
    let mut text: Vec<u8> = Vec::new();
    let mut offsets = ByteWriter::new();
    let header_len = 3 + 2 * count;
    let mut id: usize = 0;
    while id < count
        invariant
            mv == messages_view(*messages),
            count == max_message_id(mv) + 1,
            count <= 256,
            header_len == 3 + 2 * count,
            !messages_overflow(mv),
            0 <= id <= count,
            text@ == message_texts(mv, id as int),
            offsets.contents() == message_offsets(mv, id as int, header_len as int),
        decreases count - id,
    {
        let cur = (((header_len - 1) % 65536 + text.len() % 65536) % 65536) as u16;
        proof {
            vstd::arithmetic::div_mod::lemma_add_mod_noop((header_len - 1) as int, text@.len() as int, 65536);
        }
        offsets.write_u16_le(cur);
        let ghost prev = text@;
        match messages.get(&(id as u8)) {
            Some(msg) => {
                let bytes = msg.as_str().as_bytes();
                let mut q: usize = 0;
                while q < bytes.len()
                    invariant
                        0 <= q <= bytes@.len(),
                        text@ == prev + bytes@.subrange(0, q as int),
                    decreases bytes@.len() - q,
                {
                    text.push(bytes[q]);
                    q = q + 1;
                    assert(text@ =~= prev + bytes@.subrange(0, q as int));
                }
                text.push(0);
                assert(bytes@.subrange(0, bytes@.len() as int) =~= bytes@);
                assert(mv.contains_key(id as u8) && mv[id as u8] == msg@);
                assert(text@ =~= prev + message_buffer(mv, id as int));
            },
            None => {
                text.push(0);
                assert(text@ =~= prev + message_buffer(mv, id as int));
            },
        }
        id = id + 1;
    }
    let text_len = text.len();
    assert(text@.len() == text_len);
    let text_section = if encrypt {
        xor_transform(text.as_slice(), 0, 0)
    } else {
        text
    };
    let mut w = ByteWriter::new();
    w.write_u8(count as u8);
    w.write_u16_le((header_len + text_section.len() % 65536 - 1) as u16);
    let table = offsets.into_bytes();
    w.write_all(table.as_slice());
    w.write_all(text_section.as_slice());
    let r = w.into_bytes();
    assert(r@ =~= messages_bytes(mv, encrypt));
    r
}

/// Whether a whole program can be written without an overflow.
pub open spec fn program_overflow(p: LogicProgram) -> bool {
    let is = instructions_view(p.instructions@);
    ||| check_assembly(is, is.len() as int) == AssemblyCheck::Overflow
    ||| (check_assembly(is, is.len() as int) == AssemblyCheck::Ready && messages_overflow(
        messages_view(p.messages),
    ))
}

/// The bytes of a whole logic resource: the bytecode's length, the bytecode,
/// then the message section.
pub open spec fn program_bytes(is: Seq<InstructionView>, m: Map<u8, Seq<char>>, encrypt: bool) -> Seq<u8> {
    let code = assembled(is, is.len() as int);
    u16_le_bytes((code.len() % 65536) as u16) + code + messages_bytes(m, encrypt)
}

impl LogicProgram {
    /// Writes the logic resource; with `encrypt_messages` the message texts
    /// are scrambled as version 2 stores them.
    pub fn encode(&self, encrypt_messages: bool) -> (r: Result<Vec<u8>, EncodingError>)
        requires
            all_encodable(instructions_view(self.instructions@)),
            !program_overflow(*self),
        ensures
            ({
                let is = instructions_view(self.instructions@);
                match check_assembly(is, is.len() as int) {
                    AssemblyCheck::Ready => r matches Ok(bytes) && bytes@ == program_bytes(
                        is,
                        messages_view(self.messages),
                        encrypt_messages,
                    ),
                    AssemblyCheck::MissingTarget(j) => r matches Err(EncodingError::Assembly(
                        AssemblyError::ErrorAssemblingInstruction(x, e),
                    )) && x@ == is[j] && *e == EncodingError::Assembly(missing_target_error(is[j])),
                    AssemblyCheck::Overflow => false,
                }
            }),
    {
        let code = encode_instructions(&self.instructions)?;
        let mut w = ByteWriter::new();
        w.write_u16_le((code.len() % 65536) as u16);
        w.write_all(code.as_slice());
        let messages = encode_messages(&self.messages, encrypt_messages);
        w.write_all(messages.as_slice());
        Ok(w.into_bytes())
    }
}

} // verus!
