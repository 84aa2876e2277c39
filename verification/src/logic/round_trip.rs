//! What writing a logic resource and reading it again gives back.

use vstd::prelude::*;

use vstd::utf8::*;

use crate::agi_version::{AGIMajorVersion, AGIVersion};
use crate::data_encoding::{first_zero_from, le_u16_of, null_terminated, null_terminated_at, u16_le_bytes};
use crate::logic::commands::{
    agi_command_gated, agi_command_known, agi_command_variant_unsupported, test_command_known,
};
use crate::logic::decode::{
    address_of, agi_command_entry, le_i16_of, parse_clauses, parse_instruction, parse_instructions,
    parse_messages, parse_program, read_messages, parse_test, test_command_entry, wrap16, Parsed,
    ProgramRead,
};
use crate::logic::encode::{
    assembled, assembled_position, check_assembly, clause_bytes, clauses_bytes, fixed_body,
    instruction_body, jump_of, last_declared, lemma_check_prefix, lemma_highest_message_bound, lemma_last_declared_bound,
    all_encodable, highest_message, instruction_encodable, max_message_id, message_buffer,
    message_offsets, message_texts, messages_bytes, messages_overflow, program_bytes, test_bytes,
    tests_bytes, tests_encodable, clause_encodable, u16s_le, AssemblyCheck,
};
use crate::xor_encryption::{key_byte_at, xor_at};
use crate::logic::{instruction_address, ClauseView, InstructionView, LogicTestView};

verus! {

/// `b` stands in `d` from position `pos` on.
pub open spec fn bytes_at(d: Seq<u8>, pos: int, b: Seq<u8>) -> bool {
    &&& 0 <= pos
    &&& pos + b.len() <= d.len()
    &&& forall|k: int| 0 <= k < b.len() ==> d[pos + k] == #[trigger] b[k]
}

/// A test as the command table describes it, with arguments that its
/// encoding can hold: one byte each, or at most 255 words for `said`.
pub open spec fn test_canonical(t: LogicTestView) -> bool {
    &&& test_command_known(t.command.opcode)
    &&& t.command == test_command_entry(t.command.opcode)
    &&& if t.command.var_args {
        t.args.len() <= 255
    } else {
        &&& t.args.len() == t.command.arg_types.len()
        &&& forall|k: int| 0 <= k < t.args.len() ==> #[trigger] t.args[k] < 256
    }
}

pub open spec fn tests_canonical(ts: Seq<LogicTestView>) -> bool {
    forall|k: int| 0 <= k < ts.len() ==> test_canonical(#[trigger] ts[k])
}

pub open spec fn clause_canonical(c: ClauseView) -> bool {
    match c {
        ClauseView::Test(t) => test_canonical(t),
        ClauseView::Or(ts) => tests_canonical(ts),
    }
}

pub open spec fn clauses_canonical(cs: Seq<ClauseView>) -> bool {
    forall|k: int| 0 <= k < cs.len() ==> clause_canonical(#[trigger] cs[k])
}

/// The argument bytes of a test, after its opcode.
pub open spec fn test_arg_bytes(t: LogicTestView) -> Seq<u8> {
    if t.command.var_args {
        seq![t.args.len() as u8] + u16s_le(t.args)
    } else {
        t.args.map_values(|a: u16| a as u8)
    }
}

proof fn lemma_bytes_at_split(d: Seq<u8>, pos: int, b1: Seq<u8>, b2: Seq<u8>)
    requires
        bytes_at(d, pos, b1 + b2),
    ensures
        bytes_at(d, pos, b1),
        bytes_at(d, pos + b1.len(), b2),
{
    assert forall|k: int| 0 <= k < b1.len() implies d[pos + k] == #[trigger] b1[k] by {
        assert((b1 + b2)[k] == b1[k]);
    }
    assert forall|k: int| 0 <= k < b2.len() implies d[pos + b1.len() + k] == #[trigger] b2[k] by {
        assert((b1 + b2)[b1.len() + k] == b2[k]);
    }
}

proof fn lemma_u16_le_round_trip(w: u16)
    ensures
        le_u16_of(u16_le_bytes(w)[0], u16_le_bytes(w)[1]) == w,
{
    vstd::arithmetic::div_mod::lemma_fundamental_div_mod(w as int, 256);
}

proof fn lemma_u16s_le(v: Seq<u16>)
    ensures
        u16s_le(v).len() == 2 * v.len(),
        forall|k: int|
            0 <= k < v.len() ==> u16s_le(v)[2 * k] == u16_le_bytes(#[trigger] v[k])[0] && u16s_le(v)[2 * k
                + 1] == u16_le_bytes(v[k])[1],
    decreases v.len(),
{
    if v.len() > 0 {
        lemma_u16s_le(v.drop_last());
        assert forall|k: int| 0 <= k < v.len() implies u16s_le(v)[2 * k] == u16_le_bytes(
            #[trigger] v[k],
        )[0] && u16s_le(v)[2 * k + 1] == u16_le_bytes(v[k])[1] by {
            if k < v.len() - 1 {
                assert(v.drop_last()[k] == v[k]);
            }
        }
    }
}

proof fn lemma_test_bytes_parts(t: LogicTestView)
    ensures
        test_bytes(t) == (if t.negate {
            seq![0xfdu8]
        } else {
            Seq::empty()
        }) + seq![t.command.opcode] + test_arg_bytes(t),
{
}

proof fn lemma_parse_test(d: Seq<u8>, q: int, t: LogicTestView)
    requires
        test_canonical(t),
        bytes_at(d, q, test_arg_bytes(t)),
    ensures
        parse_test(d, q, t.command.opcode, t.negate) == Parsed::Done(t, q + test_arg_bytes(t).len()),
{
    let b = test_arg_bytes(t);
    let op = t.command.opcode;
    if t.command.var_args {
        lemma_u16s_le(t.args);
        assert(b[0] == d[q + 0]);
        let args = Seq::new(
            t.args.len() as nat,
            |k: int| le_u16_of(d[q + 1 + 2 * k], d[q + 2 + 2 * k]),
        );
        assert forall|k: int| 0 <= k < t.args.len() implies args[k] == t.args[k] by {
            assert(b[1 + 2 * k] == d[q + (1 + 2 * k)]);
            assert(b[1 + 2 * k + 1] == d[q + (1 + 2 * k + 1)]);
            lemma_u16_le_round_trip(t.args[k]);
        }
        assert(args =~= t.args);
    } else {
        let args = Seq::new(t.args.len() as nat, |k: int| d[q + k] as u16);
        assert forall|k: int| 0 <= k < t.args.len() implies args[k] == t.args[k] by {
            assert(b[k] == d[q + k]);
        }
        assert(args =~= t.args);
    }
}

proof fn lemma_tests_bytes_front(ts: Seq<LogicTestView>)
    requires
        ts.len() > 0,
    ensures
        tests_bytes(ts) == test_bytes(ts[0]) + tests_bytes(ts.drop_first()),
    decreases ts.len(),
{
    if ts.len() == 1 {
        assert(ts.drop_last() =~= Seq::<LogicTestView>::empty());
        assert(ts.drop_first() =~= Seq::<LogicTestView>::empty());
        assert(tests_bytes(ts.drop_last()) == Seq::<u8>::empty());
        assert(ts.last() == ts[0]);
        assert(tests_bytes(ts) =~= test_bytes(ts[0]));
    } else {
        lemma_tests_bytes_front(ts.drop_last());
        assert(ts.drop_last().drop_first() =~= ts.drop_first().drop_last());
        assert(tests_bytes(ts) =~= test_bytes(ts[0]) + tests_bytes(ts.drop_first()));
    }
}

proof fn lemma_clauses_bytes_front(cs: Seq<ClauseView>)
    requires
        cs.len() > 0,
    ensures
        clauses_bytes(cs) == clause_bytes(cs[0]) + clauses_bytes(cs.drop_first()),
    decreases cs.len(),
{
    if cs.len() == 1 {
        assert(cs.drop_last() =~= Seq::<ClauseView>::empty());
        assert(cs.drop_first() =~= Seq::<ClauseView>::empty());
        assert(clauses_bytes(cs.drop_last()) == Seq::<u8>::empty());
        assert(cs.last() == cs[0]);
        assert(clauses_bytes(cs) =~= clause_bytes(cs[0]));
    } else {
        lemma_clauses_bytes_front(cs.drop_last());
        assert(cs.drop_last().drop_first() =~= cs.drop_first().drop_last());
        assert(clauses_bytes(cs) =~= clause_bytes(cs[0]) + clauses_bytes(cs.drop_first()));
    }
}

/// Reading one test written at `pos`, with the negation state that its own
/// prefix sets.
proof fn lemma_parse_one_test(
    d: Seq<u8>,
    pos: int,
    t: LogicTestView,
    clauses: Seq<ClauseView>,
    disjunction: Option<Seq<LogicTestView>>,
)
    requires
        test_canonical(t),
        bytes_at(d, pos, test_bytes(t)),
    ensures
        parse_clauses(d, pos, clauses, false, disjunction) == (match disjunction {
            Some(tests) => parse_clauses(d, pos + test_bytes(t).len(), clauses, false, Some(tests.push(t))),
            None => parse_clauses(
                d,
                pos + test_bytes(t).len(),
                clauses.push(ClauseView::Test(t)),
                false,
                None,
            ),
        }),
{
    let prefix: Seq<u8> = if t.negate {
        seq![0xfdu8]
    } else {
        Seq::empty()
    };
    lemma_test_bytes_parts(t);
    lemma_bytes_at_split(d, pos, prefix + seq![t.command.opcode], test_arg_bytes(t));
    lemma_bytes_at_split(d, pos, prefix, seq![t.command.opcode]);
    let q = pos + prefix.len() + 1;
    lemma_parse_test(d, q, t);
    assert(d[pos + prefix.len() + 0] == seq![t.command.opcode][0]);
    if t.negate {
        assert(d[pos + 0] == prefix[0]);
        assert(parse_clauses(d, pos, clauses, false, disjunction) == parse_clauses(
            d,
            pos + 1,
            clauses,
            true,
            disjunction,
        ));
    }
}

/// Reading the tests of a disjunction and its closing `0xfc`.
proof fn lemma_parse_disjunction(
    d: Seq<u8>,
    pos: int,
    clauses: Seq<ClauseView>,
    seen: Seq<LogicTestView>,
    ts: Seq<LogicTestView>,
)
    requires
        tests_canonical(ts),
        bytes_at(d, pos, tests_bytes(ts).push(0xfcu8)),
    ensures
        parse_clauses(d, pos, clauses, false, Some(seen)) == parse_clauses(
            d,
            pos + tests_bytes(ts).len() + 1,
            clauses.push(ClauseView::Or(seen + ts)),
            false,
            None,
        ),
    decreases ts.len(),
{
    if ts.len() == 0 {
        assert(tests_bytes(ts).push(0xfcu8)[0] == d[pos + 0]);
        assert(seen + ts =~= seen);
    } else {
        let t = ts[0];
        lemma_tests_bytes_front(ts);
        let rest = tests_bytes(ts.drop_first()).push(0xfcu8);
        assert(tests_bytes(ts).push(0xfcu8) =~= test_bytes(t) + rest);
        lemma_bytes_at_split(d, pos, test_bytes(t), rest);
        lemma_parse_one_test(d, pos, t, clauses, Some(seen));
        assert(tests_canonical(ts.drop_first())) by {
            assert forall|k: int| 0 <= k < ts.drop_first().len() implies test_canonical(
                #[trigger] ts.drop_first()[k],
            ) by {
                assert(ts.drop_first()[k] == ts[k + 1]);
            }
        }
        lemma_parse_disjunction(d, pos + test_bytes(t).len(), clauses, seen.push(t), ts.drop_first());
        assert(seen.push(t) + ts.drop_first() =~= seen + ts);
    }
}

/// Reading the clauses of a condition and its closing `0xff`.
pub proof fn lemma_parse_clauses(d: Seq<u8>, pos: int, clauses: Seq<ClauseView>, cs: Seq<ClauseView>)
    requires
        clauses_canonical(cs),
        bytes_at(d, pos, clauses_bytes(cs).push(0xffu8)),
    ensures
        parse_clauses(d, pos, clauses, false, None) == Parsed::Done(
            clauses + cs,
            pos + clauses_bytes(cs).len() + 1,
        ),
    decreases cs.len(),
{
    if cs.len() == 0 {
        assert(clauses_bytes(cs).push(0xffu8)[0] == d[pos + 0]);
        assert(clauses + cs =~= clauses);
    } else {
        let c = cs[0];
        lemma_clauses_bytes_front(cs);
        let rest = clauses_bytes(cs.drop_first()).push(0xffu8);
        assert(clauses_bytes(cs).push(0xffu8) =~= clause_bytes(c) + rest);
        lemma_bytes_at_split(d, pos, clause_bytes(c), rest);
        assert(clauses_canonical(cs.drop_first())) by {
            assert forall|k: int| 0 <= k < cs.drop_first().len() implies clause_canonical(
                #[trigger] cs.drop_first()[k],
            ) by {
                assert(cs.drop_first()[k] == cs[k + 1]);
            }
        }
        assert(clause_canonical(cs[0]));
        let next = pos + clause_bytes(c).len();
        match c {
            ClauseView::Test(t) => {
                lemma_parse_one_test(d, pos, t, clauses, None);
            },
            ClauseView::Or(ts) => {
                assert(clause_bytes(c) =~= seq![0xfcu8] + tests_bytes(ts).push(0xfcu8));
                lemma_bytes_at_split(d, pos, seq![0xfcu8], tests_bytes(ts).push(0xfcu8));
                assert(d[pos + 0] == seq![0xfcu8][0]);
                lemma_parse_disjunction(d, pos + 1, clauses, Seq::empty(), ts);
                assert(Seq::<LogicTestView>::empty() + ts =~= ts);
            },
        }
        lemma_parse_clauses(d, next, clauses.push(c), cs.drop_first());
        assert(clauses.push(c) + cs.drop_first() =~= clauses + cs);
    }
}

/// An instruction as the command tables describe it for interpreter `v`.
pub open spec fn instruction_canonical(i: InstructionView, v: AGIVersion) -> bool {
    match i {
        InstructionView::Command { command, args, .. } => {
            &&& agi_command_known(command.opcode)
            &&& !agi_command_gated(command.opcode, v)
            &&& !agi_command_variant_unsupported(command.opcode, v)
            &&& command == agi_command_entry(command.opcode)
            &&& args.len() == command.arg_types.len()
        },
        InstructionView::Condition { clauses, .. } => clauses_canonical(clauses),
        InstructionView::Goto { .. } => true,
    }
}

/// Instructions as the assembler lays them out: each declared at the
/// position where it is written, every jump aimed at a declared address, and
/// the bytecode short enough for its two-byte length header.
pub open spec fn instructions_canonical(is: Seq<InstructionView>, v: AGIVersion) -> bool {
    &&& forall|k: int| 0 <= k < is.len() ==> instruction_canonical(#[trigger] is[k], v)
    &&& forall|k: int|
        0 <= k < is.len() ==> instruction_address(#[trigger] is[k]) == assembled_position(is, k)
    &&& check_assembly(is, is.len() as int) == AssemblyCheck::Ready
    &&& assembled(is, is.len() as int).len() <= 65533
}

proof fn lemma_fixed_body_len(is: Seq<InstructionView>, j: int)
    requires
        0 <= j < is.len(),
    ensures
        fixed_body(is, j).len() == instruction_body(is[j]).len(),
        instruction_body(is[j]).len() >= 1,
{
}

proof fn lemma_assembled_len(is: Seq<InstructionView>, k: int)
    requires
        0 <= k <= is.len(),
    ensures
        assembled(is, k).len() <= 65535 ==> assembled_position(is, k) == assembled(is, k).len(),
    decreases k,
{
    if k > 0 {
        lemma_assembled_len(is, k - 1);
        lemma_fixed_body_len(is, k - 1);
    }
}

proof fn lemma_assembled_prefix(is: Seq<InstructionView>, k: int, n: int)
    requires
        0 <= k <= n <= is.len(),
    ensures
        assembled(is, k).len() <= assembled(is, n).len(),
        assembled(is, n).subrange(0, assembled(is, k).len() as int) == assembled(is, k),
    decreases n - k,
{
    if k < n {
        lemma_assembled_prefix(is, k, n - 1);
        let a = assembled(is, n - 1);
        assert(assembled(is, n) == a + fixed_body(is, n - 1));
        assert(assembled(is, n).subrange(0, assembled(is, k).len() as int) =~= a.subrange(
            0,
            assembled(is, k).len() as int,
        ));
    } else {
        assert(assembled(is, n).subrange(0, assembled(is, n).len() as int) =~= assembled(is, n));
    }
}

/// Where instruction `k` is written, its bytes stand.
proof fn lemma_body_in_code(d: Seq<u8>, s: int, is: Seq<InstructionView>, k: int)
    requires
        0 <= k < is.len(),
        bytes_at(d, s, assembled(is, is.len() as int)),
    ensures
        bytes_at(d, s + assembled(is, k).len(), fixed_body(is, k)),
        assembled(is, k + 1).len() == assembled(is, k).len() + fixed_body(is, k).len(),
{
    let n = is.len() as int;
    let whole = assembled(is, n);
    lemma_assembled_prefix(is, k + 1, n);
    let a = assembled(is, k);
    let b = fixed_body(is, k);
    assert(assembled(is, k + 1) == a + b);
    assert forall|i: int| 0 <= i < b.len() implies d[s + a.len() + i] == #[trigger] b[i] by {
        assert(whole[a.len() + i] == assembled(is, k + 1)[a.len() + i]);
        assert(d[s + (a.len() + i)] == whole[a.len() + i]);
    }
}

/// Every jump of assembled instructions has a target.
proof fn lemma_ready_targets(is: Seq<InstructionView>, j: int)
    requires
        check_assembly(is, is.len() as int) == AssemblyCheck::Ready,
        0 <= j < is.len(),
    ensures
        jump_of(is[j]) matches Some(a) ==> last_declared(is, a, is.len() as int) is Some,
{
    lemma_check_prefix(is, j + 1, is.len() as int);
}

/// A jump offset, counted from `p`, as the assembler writes it and the
/// reader takes it back.
proof fn lemma_wrap_offset(p: int, target: int)
    requires
        0 <= target <= 65535,
    ensures
        ({
            let w = wrap16(target - p);
            wrap16(p + le_i16_of(u16_le_bytes(w)[0], u16_le_bytes(w)[1])) == target
        }),
{
    let w = wrap16(target - p);
    lemma_u16_le_round_trip(w);
    let q = (target - p) / 65536;
    vstd::arithmetic::div_mod::lemma_fundamental_div_mod(target - p, 65536);
    let e: int = if w >= 0x8000 { 1 } else { 0 };
    assert(p + le_i16_of(u16_le_bytes(w)[0], u16_le_bytes(w)[1]) == 65536 * (-q - e) + target);
    vstd::arithmetic::div_mod::lemma_mod_multiples_vanish(-q - e, target, 65536);
    vstd::arithmetic::div_mod::lemma_small_mod(target as nat, 65536);
}

/// Reading back the instruction written at position `k` of the bytecode.
#[verifier::spinoff_prover]
#[verifier::rlimit(40)]
proof fn lemma_parse_instruction_at(d: Seq<u8>, is: Seq<InstructionView>, j: int, v: AGIVersion)
    requires
        instructions_canonical(is, v),
        0 <= j < is.len(),
        bytes_at(d, 2 + assembled(is, j).len() as int, fixed_body(is, j)),
    ensures
        parse_instruction(d, 2 + assembled(is, j).len() as int, v) == Parsed::Done(
            is[j],
            2 + assembled(is, j).len() as int + fixed_body(is, j).len() as int,
        ),
{
    reveal(parse_instruction);
    let n = is.len() as int;
    lemma_assembled_prefix(is, j, n);
    lemma_assembled_len(is, j);
    let pj = assembled(is, j).len() as int;
    let pos = 2 + pj;
    assert(instruction_canonical(is[j], v));
    assert(instruction_address(is[j]) == assembled_position(is, j));
    let fb = fixed_body(is, j);
    let body = instruction_body(is[j]);
    lemma_fixed_body_len(is, j);
    assert(address_of(pos) == pj) by {
        vstd::arithmetic::div_mod::lemma_small_mod(pj as nat, 65536);
    }
    assert(d[pos + 0] == fb[0]);
    lemma_ready_targets(is, j);
    match is[j] {
        InstructionView::Command { address, command, args } => {
            assert(fb == body);
            assert(d.subrange(pos + 1, pos + 1 + args.len()) =~= args) by {
                assert forall|i: int| 0 <= i < args.len() implies d.subrange(
                    pos + 1,
                    pos + 1 + args.len(),
                )[i] == args[i] by {
                    assert(d[pos + (1 + i)] == fb[1 + i]);
                }
            }
        },
        InstructionView::Condition { address, clauses, skip_address } => {
            let t = last_declared(is, skip_address, n).unwrap();
            lemma_last_declared_bound(is, skip_address, n);
            lemma_assembled_prefix(is, t, n);
            lemma_assembled_len(is, t);
            let w = wrap16(assembled_position(is, t) - (assembled_position(is, j) + body.len()));
            let cb = clauses_bytes(clauses).push(0xffu8);
            assert(fb =~= seq![0xffu8] + cb + u16_le_bytes(w));
            lemma_bytes_at_split(d, pos, seq![0xffu8] + cb, u16_le_bytes(w));
            lemma_bytes_at_split(d, pos, seq![0xffu8], cb);
            lemma_parse_clauses(d, pos + 1, Seq::empty(), clauses);
            assert(Seq::<ClauseView>::empty() + clauses =~= clauses);
            let p = pos + 1 + cb.len();
            assert(d[p + 0] == u16_le_bytes(w)[0]);
            assert(d[p + 1] == u16_le_bytes(w)[1]);
            lemma_wrap_offset(p, assembled_position(is, t));
        },
        InstructionView::Goto { address, jump_address } => {
            let t = last_declared(is, jump_address, n).unwrap();
            lemma_last_declared_bound(is, jump_address, n);
            lemma_assembled_prefix(is, t, n);
            lemma_assembled_len(is, t);
            let w = wrap16(assembled_position(is, t) - (assembled_position(is, j) + body.len()));
            assert(fb =~= seq![0xfeu8] + u16_le_bytes(w));
            assert(d[pos + 1] == fb[1]);
            assert(d[pos + 2] == fb[2]);
            lemma_wrap_offset(pos + 1, assembled_position(is, t));
        },
    }
}

/// Reading assembled instructions from the one at `k` on.
proof fn lemma_parse_instructions_from(d: Seq<u8>, is: Seq<InstructionView>, v: AGIVersion, k: int)
    requires
        instructions_canonical(is, v),
        0 <= k <= is.len(),
        bytes_at(d, 2, assembled(is, is.len() as int)),
    ensures
        parse_instructions(
            d,
            2 + assembled(is, k).len() as int,
            2 + assembled(is, is.len() as int).len() as int,
            v,
            is.take(k),
        ) == Parsed::Done(is, 2 + assembled(is, is.len() as int).len() as int),
    decreases is.len() - k,
{
    let n = is.len() as int;
    if k < n {
        lemma_body_in_code(d, 2, is, k);
        lemma_parse_instruction_at(d, is, k, v);
        lemma_fixed_body_len(is, k);
        lemma_assembled_prefix(is, k + 1, n);
        assert(is.take(k).push(is[k]) =~= is.take(k + 1));
        if k + 1 < n {
            lemma_body_in_code(d, 2, is, k + 1);
            lemma_fixed_body_len(is, k + 1);
            lemma_assembled_prefix(is, k + 2, n);
            lemma_parse_instructions_from(d, is, v, k + 1);
        } else {
            assert(is.take(k + 1) =~= is);
        }
    } else {
        assert(is.take(k) =~= is);
    }
}

/// A text without the zero character, which ends a stored message.
pub open spec fn free_of_nul(text: Seq<char>) -> bool {
    forall|k: int| 0 <= k < text.len() ==> (#[trigger] text[k]) as u32 != 0
}

/// Messages that a message section holds as given: at most 255 numbers
/// counted, offsets that fit 16 bits, and no text with a zero character.
pub open spec fn messages_canonical(m: Map<u8, Seq<char>>) -> bool {
    let count = max_message_id(m) + 1;
    &&& count <= 255
    &&& 3 + 2 * count + message_texts(m, count).len() <= 65535
    &&& forall|id: u8| #[trigger] m.contains_key(id) ==> free_of_nul(m[id])
}

/// The messages numbered below `k`: those of `m`, and an empty text for
/// each number that `m` lacks.
pub open spec fn messages_up_to(m: Map<u8, Seq<char>>, k: int) -> Map<u8, Seq<char>> {
    Map::new(
        |id: u8| id < k,
        |id: u8|
            if m.contains_key(id) {
                m[id]
            } else {
                Seq::empty()
            },
    )
}

/// What reading a written message section gives back: the messages of `m`,
/// and an empty text for each lower number that `m` lacks.
pub open spec fn messages_read_back(m: Map<u8, Seq<char>>) -> Map<u8, Seq<char>> {
    messages_up_to(m, max_message_id(m) + 1)
}

proof fn lemma_scalar_no_zero(c: u32)
    requires
        is_scalar(c),
        c != 0,
    ensures
        forall|i: int| 0 <= i < encode_scalar(c).len() ==> encode_scalar(c)[i] != 0,
{
    assert(c != 0 ==> {
        &&& (has_width_1_encoding(c) ==> leading_byte_width_1(c) != 0)
        &&& leading_byte_width_2(c) != 0
        &&& leading_byte_width_3(c) != 0
        &&& leading_byte_width_4(c) != 0
        &&& last_continuation_byte(c) != 0
        &&& second_last_continuation_byte(c) != 0
        &&& third_last_continuation_byte(c) != 0
    }) by (bit_vector);
}

proof fn lemma_utf8_no_zero(cs: Seq<char>)
    requires
        free_of_nul(cs),
    ensures
        forall|i: int| 0 <= i < encode_utf8(cs).len() ==> encode_utf8(cs)[i] != 0,
    decreases cs.len(),
{
    if cs.len() > 0 {
        char_is_scalar(cs[0]);
        assert((cs[0] as u32) != 0);
        lemma_scalar_no_zero(cs[0] as u32);
        let rest = cs.drop_first();
        assert(free_of_nul(rest)) by {
            assert forall|k: int| 0 <= k < rest.len() implies (#[trigger] rest[k]) as u32 != 0 by {
                assert(rest[k] == cs[k + 1]);
            }
        }
        lemma_utf8_no_zero(rest);
        let a = encode_scalar(cs[0] as u32);
        let b = encode_utf8(rest);
        assert(encode_utf8(cs) == a + b);
        assert forall|i: int| 0 <= i < encode_utf8(cs).len() implies encode_utf8(cs)[i] != 0 by {
            if i < a.len() {
                assert((a + b)[i] == a[i]);
            } else {
                assert((a + b)[i] == b[i - a.len()]);
            }
        }
    }
}

proof fn lemma_first_zero(s: Seq<u8>, i: int, z: int)
    requires
        0 <= i <= z < s.len(),
        s[z] == 0,
        forall|j: int| i <= j < z ==> s[j] != 0,
    ensures
        first_zero_from(s, i) == Some(z),
    decreases z - i,
{
    if i < z {
        lemma_first_zero(s, i + 1, z);
    }
}

proof fn lemma_message_texts_prefix(m: Map<u8, Seq<char>>, k: int, n: int)
    requires
        0 <= k <= n,
    ensures
        message_texts(m, k).len() <= message_texts(m, n).len(),
        message_texts(m, n).subrange(0, message_texts(m, k).len() as int) == message_texts(m, k),
    decreases n - k,
{
    if k < n {
        lemma_message_texts_prefix(m, k, n - 1);
        let a = message_texts(m, n - 1);
        assert(message_texts(m, n).subrange(0, message_texts(m, k).len() as int) =~= a.subrange(
            0,
            message_texts(m, k).len() as int,
        ));
    } else {
        assert(message_texts(m, n).subrange(0, message_texts(m, n).len() as int) =~= message_texts(m, n));
    }
}

proof fn lemma_message_offsets(m: Map<u8, Seq<char>>, k: int, h: int)
    requires
        k >= 0,
    ensures
        message_offsets(m, k, h).len() == 2 * k,
        forall|i: int|
            0 <= i < k ==> message_offsets(m, k, h)[2 * i] == u16_le_bytes(
                wrap16(h - 1 + (#[trigger] message_texts(m, i)).len()),
            )[0] && message_offsets(m, k, h)[2 * i + 1] == u16_le_bytes(
                wrap16(h - 1 + message_texts(m, i).len()),
            )[1],
    decreases k,
{
    if k > 0 {
        lemma_message_offsets(m, k - 1, h);
    }
}

/// What message `i` reads as, on a zero-free text.
proof fn lemma_message_buffer(m: Map<u8, Seq<char>>, i: int)
    requires
        0 <= i <= 255,
        forall|id: u8| #[trigger] m.contains_key(id) ==> free_of_nul(m[id]),
    ensures
        message_buffer(m, i) == null_terminated(messages_up_to(m, i + 1)[i as u8]),
        free_of_nul(messages_up_to(m, i + 1)[i as u8]),
{
    let text = messages_up_to(m, i + 1)[i as u8];
    if !m.contains_key(i as u8) {
        assert(encode_utf8(Seq::<char>::empty()) =~= Seq::<u8>::empty());
        assert(null_terminated(text) =~= seq![0u8]);
    }
}

/// Reading the first `k` messages of a written section.
#[verifier::spinoff_prover]
#[verifier::rlimit(40)]
proof fn lemma_read_messages(d: Seq<u8>, plain: Seq<u8>, t: int, m: Map<u8, Seq<char>>, k: int)
    requires
        messages_canonical(m),
        0 <= t,
        0 <= k <= max_message_id(m) + 1,
        ({
            let count = max_message_id(m) + 1;
            let h = 3 + 2 * count;
            let pt = message_texts(m, count);
            &&& t + h + pt.len() <= plain.len()
            &&& t + h <= d.len()
            &&& forall|i: int| 0 <= i < 2 * count ==> d[t + 3 + i] == #[trigger] message_offsets(m, count, h)[i]
            &&& forall|i: int| 0 <= i < pt.len() ==> plain[t + h + i] == #[trigger] pt[i]
        }),
    ensures
        read_messages(d, plain, t, k) == Ok::<Map<u8, Seq<char>>, crate::data_encoding::DecodingError>(
            messages_up_to(m, k),
        ),
    decreases k,
{
    if k == 0 {
        assert(messages_up_to(m, 0) =~= Map::<u8, Seq<char>>::empty());
    } else {
        let count = max_message_id(m) + 1;
        let h = 3 + 2 * count;
        let pt = message_texts(m, count);
        let i = k - 1;
        lemma_read_messages(d, plain, t, m, i);
        lemma_message_offsets(m, count, h);
        lemma_message_texts_prefix(m, k, count);
        lemma_message_texts_prefix(m, i, k);
        let before = message_texts(m, i);
        let w = wrap16(h - 1 + before.len());
        assert(w == h - 1 + before.len()) by {
            vstd::arithmetic::div_mod::lemma_small_mod((h - 1 + before.len()) as nat, 65536);
        }
        assert(d[t + 3 + 2 * i] == message_offsets(m, count, h)[2 * i]);
        assert(d[t + 3 + (2 * i + 1)] == message_offsets(m, count, h)[2 * i + 1]);
        lemma_u16_le_round_trip(w);
        lemma_message_buffer(m, i);
        let text = messages_up_to(m, i + 1)[i as u8];
        let enc = encode_utf8(text);
        lemma_utf8_no_zero(text);
        let start = t + h + before.len();
        let buf = message_buffer(m, i);
        assert(message_texts(m, k) == before + buf);
        assert forall|j: int| 0 <= j <= enc.len() implies plain[start + j] == buf[j] by {
            assert(pt[before.len() + j] == message_texts(m, k)[before.len() + j]);
            assert(plain[t + h + (before.len() + j)] == pt[before.len() + j]);
        }
        assert forall|j: int| start <= j < start + enc.len() implies plain[j] != 0 by {
            assert(plain[start + (j - start)] == buf[j - start]);
        }
        assert(plain[start + enc.len()] == buf[enc.len() as int]);
        lemma_first_zero(plain, start, start + enc.len());
        assert(plain.subrange(start, start + enc.len()) =~= enc) by {
            assert forall|j: int| 0 <= j < enc.len() implies plain.subrange(start, start + enc.len())[j]
                == enc[j] by {
                assert(plain[start + j] == buf[j]);
            }
        }
        encode_utf8_valid_utf8(text);
        encode_utf8_decode_utf8(text);
        assert(null_terminated_at(plain, t + w + 1) == Ok::<Seq<char>, crate::data_encoding::DecodingError>(text));
        assert(messages_up_to(m, i).insert(i as u8, text) =~= messages_up_to(m, k));
    }
}

/// The byte positions of a written message section, read back: what the
/// reader unscrambles is the plain text.
#[verifier::spinoff_prover]
#[verifier::rlimit(40)]
proof fn lemma_parse_messages(d: Seq<u8>, t: int, m: Map<u8, Seq<char>>, v: AGIVersion)
    requires
        messages_canonical(m),
        bytes_at(d, t, messages_bytes(m, v.major == AGIMajorVersion::AGI2)),
    ensures
        parse_messages(d, t, v) == Ok::<Map<u8, Seq<char>>, crate::data_encoding::DecodingError>(
            messages_read_back(m),
        ),
{
    let count = max_message_id(m) + 1;
    let h = 3 + 2 * count;
    let pt = message_texts(m, count);
    let enc = v.major == AGIMajorVersion::AGI2;
    let text = if enc {
        xor_at(pt, 0, 0)
    } else {
        pt
    };
    let mb = messages_bytes(m, enc);
    lemma_highest_message_bound(m, 255);
    lemma_message_offsets(m, count, h);
    let offsets = message_offsets(m, count, h);
    let head = seq![count as u8] + u16_le_bytes((h + text.len() % 65536 - 1) as u16);
    assert(mb == head + offsets + text);
    lemma_bytes_at_split(d, t, head + offsets, text);
    lemma_bytes_at_split(d, t, head, offsets);
    assert(d[t + 0] == head[0]);
    let plain = if enc {
        xor_at(d, 0, t + h)
    } else {
        d
    };
    assert forall|i: int| 0 <= i < pt.len() implies plain[t + h + i] == #[trigger] pt[i] by {
        assert(d[t + (head + offsets).len() + i] == text[i]);
        if enc {
            let kb = key_byte_at(i, 0);
            assert(key_byte_at(0 + (t + h + i), t + h) == kb);
            let b = pt[i];
            assert((b ^ kb) ^ kb == b) by (bit_vector);
        }
    }
    assert forall|i: int| 0 <= i < 2 * count implies d[t + 3 + i] == #[trigger] offsets[i] by {
        assert(d[t + head.len() + i] == offsets[i]);
    }
    lemma_read_messages(d, plain, t, m, count);
}

proof fn lemma_message_number_bound(m: Map<u8, Seq<char>>, id: u8, k: int)
    requires
        m.contains_key(id),
        id <= k,
    ensures
        id <= highest_message(m, k),
    decreases k,
{
    if k > id {
        lemma_message_number_bound(m, id, k - 1);
    }
}

proof fn lemma_canonical_encodable(is: Seq<InstructionView>, v: AGIVersion)
    requires
        instructions_canonical(is, v),
    ensures
        all_encodable(is),
{
    assert forall|k: int| 0 <= k < is.len() implies instruction_encodable(#[trigger] is[k]) by {
        assert(instruction_canonical(is[k], v));
        if let InstructionView::Condition { clauses, .. } = is[k] {
            assert forall|j: int| 0 <= j < clauses.len() implies clause_encodable(
                #[trigger] clauses[j],
            ) by {
                reveal(clause_encodable);
                assert(clause_canonical(clauses[j]));
                match clauses[j] {
                    ClauseView::Test(t) => {
                        assert(seq![t][0] == t);
                    },
                    ClauseView::Or(ts) => {
                        assert(tests_encodable(ts)) by {
                            assert forall|i: int| 0 <= i < ts.len() && (#[trigger] ts[i]).command.var_args
                                implies ts[i].args.len() <= 255 by {
                                assert(test_canonical(ts[i]));
                            }
                        }
                    },
                }
            }
        }
    }
}

/// A logic resource written and read again by the same interpreter
/// version gives back its instructions, and its messages, with an empty
/// text for each lower number that it lacks. Version 2 stores the message
/// texts scrambled, version 3 plain; the writer takes such a program.
#[verifier::spinoff_prover]
#[verifier::rlimit(40)]
pub proof fn lemma_program_written_then_read(
    is: Seq<InstructionView>,
    m: Map<u8, Seq<char>>,
    v: AGIVersion,
)
    requires
        instructions_canonical(is, v),
        messages_canonical(m),
    ensures
        all_encodable(is),
        !messages_overflow(m),
        parse_program(program_bytes(is, m, v.major == AGIMajorVersion::AGI2), v)
            == ProgramRead::Decoded(is, messages_read_back(m)),
        forall|id: u8|
            #[trigger] m.contains_key(id) ==> messages_read_back(m).contains_key(id)
                && messages_read_back(m)[id] == m[id],
{
    lemma_canonical_encodable(is, v);
    let enc = v.major == AGIMajorVersion::AGI2;
    let n = is.len() as int;
    let code = assembled(is, n);
    let header = u16_le_bytes((code.len() % 65536) as u16);
    let mb = messages_bytes(m, enc);
    let d = program_bytes(is, m, enc);
    assert(d == header + code + mb);
    assert((code.len() % 65536) as u16 == code.len()) by {
        vstd::arithmetic::div_mod::lemma_small_mod(code.len(), 65536);
    }
    lemma_u16_le_round_trip((code.len() % 65536) as u16);
    assert(d[0] == header[0] && d[1] == header[1]);
    assert(bytes_at(d, 0, header + code + mb));
    lemma_bytes_at_split(d, 0, header + code, mb);
    lemma_bytes_at_split(d, 0, header, code);
    lemma_parse_instructions_from(d, is, v, 0);
    assert(assembled(is, 0) =~= Seq::<u8>::empty());
    assert(is.take(0) =~= Seq::<InstructionView>::empty());
    lemma_parse_messages(d, 2 + code.len() as int, m, v);
    assert forall|id: u8| #[trigger] m.contains_key(id) implies messages_read_back(m).contains_key(id)
        && messages_read_back(m)[id] == m[id] by {
        lemma_message_number_bound(m, id, 255);
    }
}

/// A logic resource that the writer produced, whose messages are numbered
/// without gaps, reads back to a program that the writer turns into the
/// same bytes again.
pub proof fn lemma_resource_read_then_written(is: Seq<InstructionView>, m: Map<u8, Seq<char>>, v: AGIVersion)
    requires
        instructions_canonical(is, v),
        messages_canonical(m),
        messages_read_back(m) == m,
    ensures
        match parse_program(program_bytes(is, m, v.major == AGIMajorVersion::AGI2), v) {
            ProgramRead::Decoded(is2, m2) => program_bytes(is2, m2, v.major == AGIMajorVersion::AGI2)
                == program_bytes(is, m, v.major == AGIMajorVersion::AGI2),
            _ => false,
        },
{
    lemma_program_written_then_read(is, m, v);
}

} // verus!
