use vstd::prelude::*;
use vstd::string::StringExecFns;

use crate::formatting::{decimal_digits, decimal_string, prefixed_number};
use crate::logic::assembly::expressions::{
    asm_argument_meaning, asm_condition_view, clauses_messages_numbered, condition_expression_view, test_argument_types,
    test_asm_arguments, test_messages_numbered,
    condition_expressions_view, lemma_condition_expressions_view, parsed_arguments_view, ArgumentMeaning,
    AsmConditionView, AsmLogicArgument, LogicBooleanExpression, LogicIdentifier, ParsedLogicArgument,
};
use crate::logic::assembly::literals::{LogicLiteral, LogicLiteralValue};
use crate::logic::assembly::operators::LogicBooleanBinaryOperator;
use crate::logic::logic_script::parsing::conditions::boolean_binary_operator;
use crate::logic::assembly::LogicLabel;
use crate::logic::commands::{AGICommand, AGICommandArgType};
use crate::logic::{
    clauses_view, instruction_address, ClauseView, LogicTestView, instructions_view, messages_view, AGICommandView, InstructionView, LogicCommand,
    LogicCondition, LogicConditionClause, LogicGoto, LogicInstruction, LogicMessages, LogicProgram, LogicTest,
    tests_view,
};
use crate::word_list::WordList;

verus! {

#[verifier::external_type_specification]
#[verifier::external_body]
pub struct ExSerdeJsonError(serde_json::Error);

/// What the code generator consults: the logic resource and the game's words.
pub struct AsmCodeGenerationContext<'a> {
    pub logic: &'a LogicProgram,
    pub word_list: &'a WordList,
}

#[derive(Debug)]
pub enum AsmCodeGenerationError {
    UnlabeledJumpAddress(u16),
    TooManyArguments(AGICommand, usize),
    UnknownWord(u16),
    UnknownMessage(u16),
    SerdeJsonError(serde_json::Error),
    ErrorGeneratingInstruction(LogicInstruction, Box<AsmCodeGenerationError>),
}

/// Where an instruction may jump: a goto's target, a condition's skip address.
pub open spec fn jump_target(i: InstructionView) -> Option<u16> {
    match i {
        InstructionView::Goto { jump_address, .. } => Some(jump_address),
        InstructionView::Condition { skip_address, .. } => Some(skip_address),
        InstructionView::Command { .. } => None,
    }
}

/// Some instruction may jump to `a`.
pub open spec fn is_jump_target(is: Seq<InstructionView>, a: u16) -> bool {
    exists|k: int| 0 <= k < is.len() && jump_target(is[k]) == Some(a)
}

/// The instruction at `k` jumps to `a`, and none before it at the same
/// address does.
pub open spec fn first_referrer(is: Seq<InstructionView>, a: u16, k: int) -> bool {
    &&& 0 <= k < is.len()
    &&& jump_target(is[k]) == Some(a)
    &&& forall|j: int|
        0 <= j < k && jump_target(is[j]) == Some(a) ==> instruction_address(is[j]) != instruction_address(is[k])
}

/// The references of the label at `a` among the first `k` instructions: for
/// each address from which one of them jumps to `a`, the first such
/// instruction, in the order the instructions come.
pub open spec fn first_referrers_upto(is: Seq<InstructionView>, a: u16, k: int) -> Seq<InstructionView>
    decreases k,
{
    if k <= 0 {
        Seq::empty()
    } else if first_referrer(is, a, k - 1) {
        first_referrers_upto(is, a, k - 1).push(is[k - 1])
    } else {
        first_referrers_upto(is, a, k - 1)
    }
}

/// The references of the label at `a`.
pub open spec fn references_of(is: Seq<InstructionView>, a: u16, refs: Seq<InstructionView>) -> bool {
    refs == first_referrers_upto(is, a, is.len() as int)
}

/// The name a generated label takes.
pub open spec fn generated_label_text(a: u16) -> Seq<char> {
    "Address"@ + decimal_digits(a as nat)
}

/// An address gets a label: something jumps there and no label exists for it yet.
pub open spec fn needs_label(is: Seq<InstructionView>, existing: Seq<LogicLabel>, a: u16) -> bool {
    is_jump_target(is, a) && !(exists|e: int| 0 <= e < existing.len() && existing[e].address == a)
}

/// Some reference comes from `address`.
pub open spec fn has_address(rv: Seq<InstructionView>, address: u16) -> bool {
    exists|i: int| #![trigger rv[i]] 0 <= i < rv.len() && instruction_address(rv[i]) == address
}

/// Some of the first `k` instructions jumps to `a` from `address`.
pub open spec fn jumps_from(is: Seq<InstructionView>, a: u16, k: int, address: u16) -> bool {
    exists|j: int| #![trigger is[j]] 0 <= j < k && jump_target(is[j]) == Some(a) && instruction_address(is[j]) == address
}

/// The references found so far come from exactly the addresses that jump to `a` so far.
proof fn lemma_first_referrers_addresses(is: Seq<InstructionView>, a: u16, k: int, address: u16)
    requires
        0 <= k <= is.len(),
    ensures
        has_address(first_referrers_upto(is, a, k), address) <==> jumps_from(is, a, k, address),
    decreases k,
{
    if k > 0 {
        lemma_first_referrers_addresses(is, a, k - 1, address);
        let prev = first_referrers_upto(is, a, k - 1);
        let cur = first_referrers_upto(is, a, k);
        if has_address(cur, address) {
            let i = choose|i: int| #![trigger cur[i]] 0 <= i < cur.len() && instruction_address(cur[i]) == address;
            if i < prev.len() {
                assert(cur[i] == prev[i]);
                assert(has_address(prev, address));
            } else {
                assert(first_referrer(is, a, k - 1));
                assert(cur[i] == is[k - 1]);
                assert(jumps_from(is, a, k, address));
            }
        }
        if jumps_from(is, a, k, address) {
            let j = choose|j: int| #![trigger is[j]] 0 <= j < k && jump_target(is[j]) == Some(a) && instruction_address(is[j]) == address;
            if j < k - 1 {
                assert(jumps_from(is, a, k - 1, address));
                let i = choose|i: int| #![trigger prev[i]] 0 <= i < prev.len() && instruction_address(prev[i]) == address;
                assert(cur[i] == prev[i]);
            } else if first_referrer(is, a, k - 1) {
                assert(cur[prev.len() as int] == is[k - 1]);
            } else {
                let q = choose|q: int| 0 <= q < k - 1 && jump_target(is[q]) == Some(a) && instruction_address(is[q])
                    == instruction_address(is[k - 1]);
                assert(is[q] == is[q]);
                assert(jumps_from(is, a, k - 1, address));
                let i = choose|i: int| #![trigger prev[i]] 0 <= i < prev.len() && instruction_address(prev[i]) == address;
                assert(cur[i] == prev[i]);
            }
        }
    }
}

/// Whether some instruction comes from `address`.
fn contains_address(refs: &Vec<LogicInstruction>, address: u16) -> (r: bool)
    ensures
        r == has_address(instructions_view(refs@), address),
{
    let mut j: usize = 0;
    while j < refs.len()
        invariant
            0 <= j <= refs@.len(),
            forall|i: int| #![trigger refs@[i]] 0 <= i < j ==> instruction_address(refs@[i]@) != address,
        decreases refs@.len() - j,
    {
        if refs[j].address() == address {
            assert(instructions_view(refs@)[j as int] == refs@[j as int]@);
            return true;
        }
        j = j + 1;
    }
    assert forall|i: int| #![trigger instructions_view(refs@)[i]] 0 <= i < refs@.len() implies instruction_address(
        instructions_view(refs@)[i],
    ) != address by {
        assert(instructions_view(refs@)[i] == refs@[i]@);
    }
    false
}

/// The references of the label at `a`, in the order the instructions come.
fn label_references(instructions: &[LogicInstruction], a: u16) -> (r: Vec<LogicInstruction>)
    ensures
        references_of(instructions_view(instructions@), a, instructions_view(r@)),
{
    let ghost is = instructions_view(instructions@);
    let mut refs: Vec<LogicInstruction> = Vec::new();
    let mut k: usize = 0;
    proof {
        assert(instructions_view(refs@) =~= Seq::<InstructionView>::empty());
    }
    while k < instructions.len()
        invariant
            is == instructions_view(instructions@),
            0 <= k <= instructions@.len(),
            instructions_view(refs@) == first_referrers_upto(is, a, k as int),
        decreases instructions@.len() - k,
    {
        let instruction = &instructions[k];
        let target: Option<u16> = match instruction {
            LogicInstruction::Goto(g) => Some(g.jump_address),
            LogicInstruction::Condition(c) => Some(c.skip_address),
            LogicInstruction::Command(_) => None,
        };
        assert(is[k as int] == instruction@);
        let ghost rv = instructions_view(refs@);
        let address = instruction.address();
        proof {
            lemma_first_referrers_addresses(is, a, k as int, address);
        }
        let seen = contains_address(&refs, address);
        proof {
            if target == Some(a) {
                if seen {
                    let j = choose|j: int| #![trigger is[j]] 0 <= j < k && jump_target(is[j]) == Some(a) && instruction_address(is[j]) == address;
                    assert(!first_referrer(is, a, k as int));
                } else {
                    assert forall|j: int| 0 <= j < k && jump_target(is[j]) == Some(a) implies instruction_address(is[j])
                        != instruction_address(is[k as int]) by {
                        if instruction_address(is[j]) == address {
                            assert(jumps_from(is, a, k as int, address));
                        }
                    }
                    assert(first_referrer(is, a, k as int));
                }
            } else {
                assert(!first_referrer(is, a, k as int));
            }
        }
        if target == Some(a) && !seen {
            refs.push(instruction.duplicate());
            assert(instructions_view(refs@) =~= rv.push(is[k as int]));
        }
        k = k + 1;
    }
    refs
}

/// Labels for every address some instruction jumps to and no existing label
/// names, in order of address: `Address` followed by the address, with the
/// first instruction from each address that jumps there.
pub fn generate_labels(instructions: &[LogicInstruction], existing_labels: &[LogicLabel]) -> (r: Vec<LogicLabel>)
    ensures
        forall|i: int, j: int| 0 <= i < j < r@.len() ==> r@[i].address < r@[j].address,
        forall|i: int| 0 <= i < r@.len() ==> needs_label(instructions_view(instructions@), existing_labels@, #[trigger] r@[i].address),
        forall|a: u16| needs_label(instructions_view(instructions@), existing_labels@, a) ==> exists|i: int|
            0 <= i < r@.len() && #[trigger] r@[i].address == a,
        forall|i: int| 0 <= i < r@.len() ==> #[trigger] r@[i].label@ == generated_label_text(r@[i].address),
        forall|i: int|
            0 <= i < r@.len() ==> references_of(
                instructions_view(instructions@),
                #[trigger] r@[i].address,
                instructions_view(r@[i].references@),
            ),
{
    let ghost is = instructions_view(instructions@);
    let mut marks: Vec<bool> = vec![false; 65536];
    let mut k: usize = 0;
    while k < instructions.len()
        invariant
            is == instructions_view(instructions@),
            0 <= k <= instructions@.len(),
            marks@.len() == 65536,
            forall|x: u16| #[trigger] marks@[x as int] <==> exists|q: int| 0 <= q < k && jump_target(is[q]) == Some(x),
        decreases instructions@.len() - k,
    {
        assert(is[k as int] == instructions@[k as int]@);
        match &instructions[k] {
            LogicInstruction::Goto(g) => {
                marks.set(g.jump_address as usize, true);
            },
            LogicInstruction::Condition(c) => {
                marks.set(c.skip_address as usize, true);
            },
            LogicInstruction::Command(_) => {},
        }
        proof {
            assert forall|x: u16| #[trigger] marks@[x as int] <==> exists|q: int|
                0 <= q < k + 1 && jump_target(is[q]) == Some(x) by {
                if jump_target(is[k as int]) == Some(x) {
                    assert(0 <= k < k + 1 && jump_target(is[k as int]) == Some(x));
                }
            }
        }
        k = k + 1;
    }
    let mut e: usize = 0;
    while e < existing_labels.len()
        invariant
            is == instructions_view(instructions@),
            0 <= e <= existing_labels@.len(),
            marks@.len() == 65536,
            forall|x: u16| #[trigger] marks@[x as int] <==> (is_jump_target(is, x) && !(exists|q: int|
                0 <= q < e && existing_labels@[q].address == x)),
        decreases existing_labels@.len() - e,
    {
        marks.set(existing_labels[e].address as usize, false);
        proof {
            assert forall|x: u16| #[trigger] marks@[x as int] <==> (is_jump_target(is, x) && !(exists|q: int|
                0 <= q < e + 1 && existing_labels@[q].address == x)) by {
                if existing_labels@[e as int].address == x {
                    assert(0 <= e < e + 1 && existing_labels@[e as int].address == x);
                }
            }
        }
        e = e + 1;
    }
    let mut labels: Vec<LogicLabel> = Vec::new();
    let mut a: u32 = 0;
    while a < 65536
        invariant
            is == instructions_view(instructions@),
            a <= 65536,
            marks@.len() == 65536,
            forall|x: u16| #[trigger] marks@[x as int] <==> needs_label(is, existing_labels@, x),
            forall|i: int, j: int| 0 <= i < j < labels@.len() ==> labels@[i].address < labels@[j].address,
            forall|i: int| 0 <= i < labels@.len() ==> labels@[i].address < a,
            forall|i: int| 0 <= i < labels@.len() ==> needs_label(is, existing_labels@, #[trigger] labels@[i].address),
            forall|x: u16| x < a && needs_label(is, existing_labels@, x) ==> exists|i: int|
                0 <= i < labels@.len() && #[trigger] labels@[i].address == x,
            forall|i: int| 0 <= i < labels@.len() ==> #[trigger] labels@[i].label@ == generated_label_text(labels@[i].address),
            forall|i: int|
                0 <= i < labels@.len() ==> references_of(is, #[trigger] labels@[i].address, instructions_view(labels@[i].references@)),
        decreases 65536 - a,
    {
        let address = a as u16;
        assert(address as int == a as int);
        if marks[a as usize] {
            let references = label_references(instructions, address);
            proof {
                reveal_strlit("Address");
            }
            let label = prefixed_number("Address", a);
            let ghost before = labels@;
            labels.push(LogicLabel { address, label, references });
            proof {
                assert forall|x: u16| x < a + 1 && needs_label(is, existing_labels@, x) implies exists|i: int|
                    0 <= i < labels@.len() && #[trigger] labels@[i].address == x by {
                    if x < a {
                        let i = choose|i: int| 0 <= i < before.len() && #[trigger] before[i].address == x;
                        assert(labels@[i] == before[i]);
                    } else {
                        assert(labels@[before.len() as int].address == x);
                    }
                }
            }
        } else {
            proof {
                assert forall|x: u16| x < a + 1 && needs_label(is, existing_labels@, x) implies exists|i: int|
                    0 <= i < labels@.len() && #[trigger] labels@[i].address == x by {
                    if x == a {
                        assert(marks@[x as int]);
                    }
                }
            }
        }
        a = a + 1;
    }
    labels
}

// The assembly text of a logic resource.

/// `n` in decimal, with a minus sign when it is negative.
pub open spec fn int_text(n: int) -> Seq<char> {
    if n < 0 {
        seq!['-'] + decimal_digits((-n) as nat)
    } else {
        decimal_digits(n as nat)
    }
}

/// A hexadecimal digit, lower case.
pub open spec fn hex_digit(d: nat) -> char {
    if d < 10 {
        (d + 48) as char
    } else {
        (d + 87) as char
    }
}

/// The character with code `n`.
pub open spec fn char_of(n: u32) -> char {
    n as char
}

/// A character as a JSON string holds it: the double quote (34), the
/// backslash (92) and the control characters escaped, 8, 9, 10, 12 and 13 as
/// a backslash and `b`, `t`, `n`, `f` and `r`, the others below 32 as a
/// backslash, `u00` and two hexadecimal digits; anything else as it is.
pub open spec fn json_char(c: char) -> Seq<char> {
    let n = c as u32;
    let backslash = char_of(92);
    if n == 34 || n == 92 {
        seq![backslash, c]
    } else if n == 8 {
        seq![backslash, 'b']
    } else if n == 9 {
        seq![backslash, 't']
    } else if n == 10 {
        seq![backslash, 'n']
    } else if n == 12 {
        seq![backslash, 'f']
    } else if n == 13 {
        seq![backslash, 'r']
    } else if n < 32 {
        seq![backslash, 'u', '0', '0', hex_digit((n / 16) as nat), hex_digit((n % 16) as nat)]
    } else {
        seq![c]
    }
}

pub open spec fn json_chars(s: Seq<char>) -> Seq<char>
    decreases s.len(),
{
    if s.len() == 0 {
        Seq::empty()
    } else {
        json_chars(s.drop_last()) + json_char(s.last())
    }
}

/// A text as a JSON string: between double quotes, escaped.
pub open spec fn json_string(s: Seq<char>) -> Seq<char> {
    seq![char_of(34)] + json_chars(s) + seq![char_of(34)]
}

/// `serde_json::to_string` on a string slice. Its serializer writes the
/// string's characters, escaped as `json_char` says, between double quotes,
/// into a `Vec<u8>`, which takes every write; so the call succeeds.
#[verifier::external_body]
pub(crate) fn json_quoted(s: &str) -> (r: Result<String, serde_json::Error>)
    ensures
        r is Ok,
        r->Ok_0@ == json_string(s@),
{
    serde_json::to_string(s)
}

/// An argument as the assembly writes it.
pub open spec fn argument_text(a: ArgumentMeaning) -> Seq<char> {
    match a {
        ArgumentMeaning::Number(n) => int_text(n),
        ArgumentMeaning::Text(t) => json_string(t),
        ArgumentMeaning::Name(n) => n,
    }
}

pub open spec fn operator_text(op: LogicBooleanBinaryOperator) -> Seq<char> {
    match op {
        LogicBooleanBinaryOperator::LessThan => "<"@,
        LogicBooleanBinaryOperator::LessThanOrEqual => "<="@,
        LogicBooleanBinaryOperator::GreaterThan => ">"@,
        LogicBooleanBinaryOperator::GreaterThanOrEqual => ">="@,
        LogicBooleanBinaryOperator::Equal => "=="@,
        LogicBooleanBinaryOperator::NotEqual => "!="@,
    }
}

/// Texts joined by a separator.
pub open spec fn joined_text(parts: Seq<Seq<char>>, sep: Seq<char>) -> Seq<char>
    decreases parts.len(),
{
    if parts.len() == 0 {
        Seq::empty()
    } else if parts.len() == 1 {
        parts[0]
    } else {
        joined_text(parts.drop_last(), sep) + sep + parts.last()
    }
}

/// A condition as the assembly writes it: `isset(x)` as `x`, calls as
/// `name(arguments)`, comparisons with their operator, and `&&`, `||` and
/// `!` with parentheses round what is neither a call nor a negation.
pub open spec fn condition_text(e: AsmConditionView) -> Seq<char>
    decreases e,
{
    match e {
        AsmConditionView::TestCall(name, args) => if name == "isset"@ && args.len() == 1 {
            argument_text(args[0])
        } else {
            name + "("@ + joined_text(args.map_values(|a: ArgumentMeaning| argument_text(a)), ", "@) + ")"@
        },
        AsmConditionView::And(cs) => joined_text(nested_texts(cs), " && "@),
        AsmConditionView::Or(cs) => joined_text(nested_texts(cs), " || "@),
        AsmConditionView::Not(x) => "!"@ + if *x is TestCall || *x is Not {
            condition_text(*x)
        } else {
            "("@ + condition_text(*x) + ")"@
        },
        AsmConditionView::Binary(l, op, r) => argument_text(l) + " "@ + operator_text(op) + " "@ + argument_text(r),
        AsmConditionView::Identifier(n) => n,
    }
}

/// The parts of a conjunction or disjunction, each in parentheses unless it
/// is a call or a negation.
pub open spec fn nested_texts(cs: Seq<AsmConditionView>) -> Seq<Seq<char>>
    decreases cs,
{
    if cs.len() == 0 {
        Seq::empty()
    } else {
        seq![
            if cs[0] is TestCall || cs[0] is Not {
                condition_text(cs[0])
            } else {
                "("@ + condition_text(cs[0]) + ")"@
            },
        ] + nested_texts(cs.subrange(1, cs.len() as int))
    }
}

/// The text of the label at `a`: the last label of the list at that address.
pub open spec fn label_text_at(labels: Seq<LogicLabel>, a: u16) -> Option<Seq<char>>
    decreases labels.len(),
{
    if labels.len() == 0 {
        None
    } else if labels.last().address == a {
        Some(labels.last().label@)
    } else {
        label_text_at(labels.drop_last(), a)
    }
}

/// The label at `a`, the last one where several are.
fn find_label(labels: &[LogicLabel], a: u16) -> (r: Option<&LogicLabel>)
    ensures
        match label_text_at(labels@, a) {
            Some(t) => r matches Some(l) && l.label@ == t,
            None => r is None,
        },
{
    let mut i: usize = labels.len();
    assert(labels@.take(i as int) =~= labels@);
    while i > 0
        invariant
            0 <= i <= labels@.len(),
            label_text_at(labels@, a) == label_text_at(labels@.take(i as int), a),
        decreases i,
    {
        proof {
            assert(labels@.take(i as int).drop_last() =~= labels@.take(i - 1));
        }
        if labels[i - 1].address == a {
            return Some(&labels[i - 1]);
        }
        i = i - 1;
    }
    None
}

/// Why an instruction has no assembly text.
pub enum AsmTextError {
    UnlabeledJumpAddress(u16),
    TooManyArguments(AGICommandView, nat),
}

/// The error an `AsmCodeGenerationError` stands for.
pub open spec fn is_text_error(e: AsmCodeGenerationError, v: AsmTextError) -> bool {
    match v {
        AsmTextError::UnlabeledJumpAddress(a) => e matches AsmCodeGenerationError::UnlabeledJumpAddress(b) && b == a,
        AsmTextError::TooManyArguments(c, n) => e matches AsmCodeGenerationError::TooManyArguments(d, m) && d@ == c
            && m == n,
    }
}

/// The arguments of a command as the assembly writes them.
pub open spec fn command_arguments_text(
    types: Seq<AGICommandArgType>,
    args: Seq<u8>,
    messages: Map<u8, Seq<char>>,
    words: Map<u16, Seq<char>>,
) -> Seq<Seq<char>> {
    Seq::new(
        args.len(),
        |i: int|
            argument_text(
                asm_argument_meaning(AsmLogicArgument { value: args[i] as u16, arg_type: types[i] }, messages, words),
            ),
    )
}

/// Each message argument of a command counts from one.
pub open spec fn command_messages_numbered(types: Seq<AGICommandArgType>, args: Seq<u8>) -> bool {
    forall|i: int|
        0 <= i < args.len() && i < types.len() && #[trigger] types[i] == AGICommandArgType::Message ==> args[i] >= 1
}

/// Whether the assembly can write an instruction without failing: message
/// arguments count from one, and a conditional has a clause.
pub open spec fn instruction_printable(i: InstructionView) -> bool {
    match i {
        InstructionView::Command { command, args, .. } => command_messages_numbered(command.arg_types, args),
        InstructionView::Condition { clauses, .. } => clauses.len() >= 1 && clauses_messages_numbered(clauses),
        InstructionView::Goto { .. } => true,
    }
}

/// An instruction as the assembly writes it: `name(arguments);`,
/// `unless (condition) goto label;` or `goto label;`. A command with more
/// arguments than it takes, or a jump to an address without a label, is an
/// error.
pub open spec fn instruction_text(
    i: InstructionView,
    labels: spec_fn(u16) -> Option<Seq<char>>,
    messages: Map<u8, Seq<char>>,
    words: Map<u16, Seq<char>>,
) -> Result<Seq<char>, AsmTextError> {
    match i {
        InstructionView::Command { command, args, .. } => if args.len() > command.arg_types.len() {
            Err(AsmTextError::TooManyArguments(command, args.len()))
        } else {
            Ok(
                command.name + "("@ + joined_text(command_arguments_text(command.arg_types, args, messages, words), ", "@)
                    + ");"@,
            )
        },
        InstructionView::Condition { clauses, skip_address, .. } => match labels(skip_address) {
            None => Err(AsmTextError::UnlabeledJumpAddress(skip_address)),
            Some(l) => Ok(
                "unless ("@ + condition_text(asm_condition_view(clauses, messages, words)) + ") goto "@ + l + ";"@,
            ),
        },
        InstructionView::Goto { jump_address, .. } => match labels(jump_address) {
            None => Err(AsmTextError::UnlabeledJumpAddress(jump_address)),
            Some(l) => Ok("goto "@ + l + ";"@),
        },
    }
}

/// An instruction's line: its address, a space and its text, after its label
/// on a line of its own, with an empty line before, where it has one.
pub open spec fn instruction_line(
    i: InstructionView,
    labels: spec_fn(u16) -> Option<Seq<char>>,
    messages: Map<u8, Seq<char>>,
    words: Map<u16, Seq<char>>,
) -> Result<Seq<char>, AsmTextError> {
    match instruction_text(i, labels, messages, words) {
        Err(e) => Err(e),
        Ok(t) => {
            let line = decimal_digits(instruction_address(i) as nat) + " "@ + t;
            Ok(
                match labels(instruction_address(i)) {
                    Some(l) => "\n"@ + l + ":\n"@ + line,
                    None => line,
                },
            )
        },
    }
}

/// The message lines for the keys below `k`, each after a newline.
pub open spec fn message_lines(messages: Map<u8, Seq<char>>, k: int) -> Seq<char>
    decreases k,
{
    if k <= 0 {
        Seq::empty()
    } else {
        message_lines(messages, k - 1) + if messages.contains_key((k - 1) as u8) {
            "\n#message "@ + decimal_digits(k as nat) + " "@ + json_string(messages[(k - 1) as u8])
        } else {
            Seq::empty()
        }
    }
}

/// The messages as the assembly writes them: a comment line, then
/// `#message n "text"` for each in order, numbered from one.
pub open spec fn messages_text(messages: Map<u8, Seq<char>>) -> Seq<char> {
    "// messages"@ + message_lines(messages, 256)
}

/// With labels at distinct addresses, the text at `a` is that of the label there.
proof fn lemma_label_text_at(labels: Seq<LogicLabel>, a: u16)
    requires
        forall|i: int, j: int| 0 <= i < j < labels.len() ==> labels[i].address < labels[j].address,
    ensures
        (forall|i: int| 0 <= i < labels.len() ==> labels[i].address != a) ==> label_text_at(labels, a) is None,
        forall|i: int| 0 <= i < labels.len() && labels[i].address == a ==> label_text_at(labels, a) == Some(
            labels[i].label@,
        ),
    decreases labels.len(),
{
    if labels.len() > 0 {
        let front = labels.drop_last();
        lemma_label_text_at(front, a);
        assert forall|i: int| 0 <= i < front.len() implies front[i] == labels[i] by {}
    }
}

/// `n` in decimal, with a minus sign when it is negative.
pub(crate) fn int_string(n: i32) -> (r: String)
    ensures
        r@ == int_text(n as int),
{
    if n < 0 {
        let magnitude: u32 = (-(n as i64)) as u32;
        let mut s = String::from_str("-");
        let digits = decimal_string(magnitude);
        s.append(digits.as_str());
        proof {
            reveal_strlit("-");
        }
        s
    } else {
        decimal_string(n as u32)
    }
}

/// The text written for `<`, `>`, `==` or `!=` reads back, whatever
/// follows, as that operator, all of the text taken; `<=` and `>=` are the
/// text of `<` and `>` followed by `=`.
pub proof fn lemma_operator_text_reads_back(op: LogicBooleanBinaryOperator, rest: Seq<char>)
    ensures
        op != LogicBooleanBinaryOperator::LessThanOrEqual && op != LogicBooleanBinaryOperator::GreaterThanOrEqual
            ==> boolean_binary_operator(operator_text(op) + rest, 0) == Some((op, operator_text(op).len() as int)),
        operator_text(LogicBooleanBinaryOperator::LessThanOrEqual) == operator_text(LogicBooleanBinaryOperator::LessThan)
            + seq!['='],
        operator_text(LogicBooleanBinaryOperator::GreaterThanOrEqual) == operator_text(
            LogicBooleanBinaryOperator::GreaterThan,
        ) + seq!['='],
{
    reveal_strlit("<");
    reveal_strlit(">");
    reveal_strlit("<=");
    reveal_strlit(">=");
    reveal_strlit("==");
    reveal_strlit("!=");
    assert(operator_text(LogicBooleanBinaryOperator::LessThanOrEqual) =~= operator_text(LogicBooleanBinaryOperator::LessThan)
        + seq!['=']);
    assert(operator_text(LogicBooleanBinaryOperator::GreaterThanOrEqual) =~= operator_text(
        LogicBooleanBinaryOperator::GreaterThan,
    ) + seq!['=']);
    let t = operator_text(op) + rest;
    assert(t[0] == operator_text(op)[0]);
    if op == LogicBooleanBinaryOperator::Equal {
        assert(t.subrange(0, 2) =~= seq!['=', '=']);
    }
    if op == LogicBooleanBinaryOperator::NotEqual {
        assert(t.subrange(0, 2) =~= seq!['!', '=']);
        assert(t.subrange(0, 2)[0] != seq!['=', '='][0]);
    }
}

impl LogicBooleanBinaryOperator {
    pub fn generate_asm(&self, context: &AsmCodeGenerationContext, labels: &[LogicLabel]) -> (r: Result<
        String,
        AsmCodeGenerationError,
    >)
        ensures
            r matches Ok(t) && t@ == operator_text(*self),
            r matches Ok(t) ==> *self != LogicBooleanBinaryOperator::LessThanOrEqual && *self
                != LogicBooleanBinaryOperator::GreaterThanOrEqual ==> forall|rest: Seq<char>| #![trigger t@ + rest]
                boolean_binary_operator(t@ + rest, 0) == Some((*self, t@.len() as int)),
    {
        proof {
            assert forall|rest: Seq<char>| #![trigger operator_text(*self) + rest] *self
                != LogicBooleanBinaryOperator::LessThanOrEqual && *self != LogicBooleanBinaryOperator::GreaterThanOrEqual
                ==> boolean_binary_operator(operator_text(*self) + rest, 0) == Some(
                (*self, operator_text(*self).len() as int),
            ) by {
                lemma_operator_text_reads_back(*self, rest);
            }
        }
        Ok(
            match self {
                LogicBooleanBinaryOperator::LessThan => String::from_str("<"),
                LogicBooleanBinaryOperator::LessThanOrEqual => String::from_str("<="),
                LogicBooleanBinaryOperator::GreaterThan => String::from_str(">"),
                LogicBooleanBinaryOperator::GreaterThanOrEqual => String::from_str(">="),
                LogicBooleanBinaryOperator::Equal => String::from_str("=="),
                LogicBooleanBinaryOperator::NotEqual => String::from_str("!="),
            },
        )
    }
}

impl LogicLiteralValue {
    pub fn generate_asm(&self, context: &AsmCodeGenerationContext, labels: &[LogicLabel]) -> (r: Result<
        String,
        AsmCodeGenerationError,
    >)
        ensures
            r matches Ok(t) && t@ == match self {
                LogicLiteralValue::Number(n) => int_text(n.value as int),
                LogicLiteralValue::String(s) => json_string(s.value@),
            },
    {
        match self {
            LogicLiteralValue::Number(number) => Ok(int_string(number.value)),
            LogicLiteralValue::String(string) => match json_quoted(string.value()) {
                Ok(j) => Ok(j),
                Err(err) => Err(AsmCodeGenerationError::SerdeJsonError(err)),
            },
        }
    }
}

impl LogicLiteral {
    pub fn generate_asm(&self, context: &AsmCodeGenerationContext, labels: &[LogicLabel]) -> (r: Result<
        String,
        AsmCodeGenerationError,
    >)
        ensures
            r matches Ok(t) && t@ == match self.value {
                LogicLiteralValue::Number(n) => int_text(n.value as int),
                LogicLiteralValue::String(s) => json_string(s.value@),
            },
    {
        self.value.generate_asm(context, labels)
    }
}

impl LogicIdentifier {
    pub fn generate_asm(&self, context: &AsmCodeGenerationContext, labels: &[LogicLabel]) -> (r: Result<
        String,
        AsmCodeGenerationError,
    >)
        ensures
            r matches Ok(t) && t@ == self.name@,
    {
        Ok(self.name.clone())
    }
}

impl ParsedLogicArgument {
    pub fn generate_asm(&self, context: &AsmCodeGenerationContext, labels: &[LogicLabel]) -> (r: Result<
        String,
        AsmCodeGenerationError,
    >)
        ensures
            r matches Ok(t) && t@ == argument_text(self@),
    {
        match self {
            ParsedLogicArgument::Literal(literal) => literal.generate_asm(context, labels),
            ParsedLogicArgument::Identifier(identifier) => identifier.generate_asm(context, labels),
        }
    }
}

impl LogicCommand {
    /// `name(arguments);`, each argument as the command's type for it reads it.
    pub fn generate_asm(&self, context: &AsmCodeGenerationContext, labels: &[LogicLabel]) -> (r: Result<
        String,
        AsmCodeGenerationError,
    >)
        requires
            command_messages_numbered(self.agi_command@.arg_types, self.args@),
        ensures
            match instruction_text(
                LogicInstruction::Command(*self)@,
                |a: u16| label_text_at(labels@, a),
                messages_view(context.logic.messages),
                context.word_list.words_view(),
            ) {
                Ok(t) => r matches Ok(x) && x@ == t,
                Err(e) => r matches Err(x) && is_text_error(x, e),
            },
    {
        let ghost m = messages_view(context.logic.messages);
        let ghost w = context.word_list.words_view();
        let ghost types = self.agi_command@.arg_types;
        let ghost parts = command_arguments_text(types, self.args@, m, w);
        let mut text = String::new();
        let mut i: usize = 0;
        while i < self.args.len()
            invariant
                m == messages_view(context.logic.messages),
                w == context.word_list.words_view(),
                types == self.agi_command@.arg_types,
                parts == command_arguments_text(types, self.args@, m, w),
                command_messages_numbered(types, self.args@),
                0 <= i <= self.args@.len(),
                i <= types.len(),
                text@ == joined_text(parts.take(i as int), ", "@),
            decreases self.args@.len() - i,
        {
            if i >= self.agi_command.arg_types.len() {
                return Err(AsmCodeGenerationError::TooManyArguments(self.agi_command.duplicate(), self.args.len()));
            }
            let arg = AsmLogicArgument::new(self.args[i] as u16, self.agi_command.arg_types[i]);
            proof {
                assert(types[i as int] == self.agi_command.arg_types@[i as int]);
                if arg.arg_type == AGICommandArgType::Message {
                    assert(self.args@[i as int] >= 1);
                }
            }
            let parsed = match arg.try_parse(context) {
                Ok(p) => p,
                Err(e) => {
                    return Err(e);
                },
            };
            let piece = match parsed.generate_asm(context, labels) {
                Ok(t) => t,
                Err(e) => {
                    return Err(e);
                },
            };
            proof {
                assert(piece@ == parts[i as int]);
                assert(parts.take(i + 1).drop_last() =~= parts.take(i as int));
            }
            if i > 0 {
                text.append(", ");
            }
            text.append(piece.as_str());
            i = i + 1;
        }
        proof {
            assert(parts.take(i as int) =~= parts);
        }
        let mut line = self.agi_command.name.clone();
        line.append("(");
        line.append(text.as_str());
        line.append(");");
        Ok(line)
    }
}

impl LogicGoto {
    pub fn generate_asm(&self, context: &AsmCodeGenerationContext, labels: &[LogicLabel]) -> (r: Result<
        String,
        AsmCodeGenerationError,
    >)
        ensures
            match instruction_text(
                LogicInstruction::Goto(*self)@,
                |a: u16| label_text_at(labels@, a),
                messages_view(context.logic.messages),
                context.word_list.words_view(),
            ) {
                Ok(t) => r matches Ok(x) && x@ == t,
                Err(e) => r matches Err(x) && is_text_error(x, e),
            },
    {
        match find_label(labels, self.jump_address) {
            Some(label) => {
                let mut line = String::from_str("goto ");
                line.append(label.label.as_str());
                line.append(";");
                Ok(line)
            },
            None => Err(AsmCodeGenerationError::UnlabeledJumpAddress(self.jump_address)),
        }
    }
}

/// A part of a conjunction or disjunction: in parentheses unless it is a
/// call or a negation.
fn nested_asm(e: &LogicBooleanExpression<ParsedLogicArgument>, context: &AsmCodeGenerationContext, labels: &[LogicLabel]) -> (r: Result<
    String,
    AsmCodeGenerationError,
>)
    ensures
        r matches Ok(t) && t@ == if condition_expression_view(*e) is TestCall || condition_expression_view(*e) is Not {
            condition_text(condition_expression_view(*e))
        } else {
            "("@ + condition_text(condition_expression_view(*e)) + ")"@
        },
    decreases e, 1int,
{
    let inner = match e.generate_asm(context, labels) {
        Ok(t) => t,
        Err(err) => {
            return Err(err);
        },
    };
    match e {
        LogicBooleanExpression::TestCall(_) | LogicBooleanExpression::NotExpression(_) => Ok(inner),
        _ => {
            let mut t = String::from_str("(");
            t.append(inner.as_str());
            t.append(")");
            Ok(t)
        },
    }
}

/// The parts of a conjunction or disjunction joined by `sep`.
fn joined_asm(
    cs: &Vec<LogicBooleanExpression<ParsedLogicArgument>>,
    sep: &str,
    context: &AsmCodeGenerationContext,
    labels: &[LogicLabel],
) -> (r: Result<String, AsmCodeGenerationError>)
    ensures
        r matches Ok(t) && t@ == joined_text(nested_texts(condition_expressions_view(cs@)), sep@),
    decreases cs, 0int,
{
    let ghost parts = nested_texts(condition_expressions_view(cs@));
    proof {
        lemma_condition_expressions_view(cs@);
        lemma_nested_texts(condition_expressions_view(cs@));
    }
    let mut text = String::new();
    let mut i: usize = 0;
    while i < cs.len()
        invariant
            parts == nested_texts(condition_expressions_view(cs@)),
            parts.len() == cs@.len(),
            forall|k: int| 0 <= k < cs@.len() ==> #[trigger] parts[k] == if condition_expression_view(cs@[k]) is TestCall
                || condition_expression_view(cs@[k]) is Not {
                condition_text(condition_expression_view(cs@[k]))
            } else {
                "("@ + condition_text(condition_expression_view(cs@[k])) + ")"@
            },
            0 <= i <= cs@.len(),
            text@ == joined_text(parts.take(i as int), sep@),
        decreases cs@.len() - i,
    {
        proof {
            assert(decreases_to!(cs => cs@[i as int]));
        }
        let piece = match nested_asm(&cs[i], context, labels) {
            Ok(t) => t,
            Err(err) => {
                return Err(err);
            },
        };
        proof {
            assert(parts.take(i + 1).drop_last() =~= parts.take(i as int));
        }
        if i > 0 {
            text.append(sep);
        }
        text.append(piece.as_str());
        i = i + 1;
    }
    proof {
        assert(parts.take(i as int) =~= parts);
    }
    Ok(text)
}

/// The nested texts one by one.
proof fn lemma_nested_texts(cs: Seq<AsmConditionView>)
    ensures
        nested_texts(cs).len() == cs.len(),
        forall|k: int| 0 <= k < cs.len() ==> #[trigger] nested_texts(cs)[k] == if cs[k] is TestCall || cs[k] is Not {
            condition_text(cs[k])
        } else {
            "("@ + condition_text(cs[k]) + ")"@
        },
    decreases cs.len(),
{
    if cs.len() > 0 {
        let tail = cs.subrange(1, cs.len() as int);
        lemma_nested_texts(tail);
        assert forall|k: int| 0 <= k < cs.len() implies #[trigger] nested_texts(cs)[k] == if cs[k] is TestCall
            || cs[k] is Not {
            condition_text(cs[k])
        } else {
            "("@ + condition_text(cs[k]) + ")"@
        } by {
            if k > 0 {
                assert(tail[k - 1] == cs[k]);
            }
        }
    }
}

/// The arguments of a call joined by commas.
fn arguments_asm(args: &Vec<ParsedLogicArgument>, context: &AsmCodeGenerationContext, labels: &[LogicLabel]) -> (r: Result<
    String,
    AsmCodeGenerationError,
>)
    ensures
        r matches Ok(t) && t@ == joined_text(
            parsed_arguments_view(args@).map_values(|a: ArgumentMeaning| argument_text(a)),
            ", "@,
        ),
{
    let ghost parts = parsed_arguments_view(args@).map_values(|a: ArgumentMeaning| argument_text(a));
    let mut text = String::new();
    let mut i: usize = 0;
    while i < args.len()
        invariant
            parts == parsed_arguments_view(args@).map_values(|a: ArgumentMeaning| argument_text(a)),
            0 <= i <= args@.len(),
            text@ == joined_text(parts.take(i as int), ", "@),
        decreases args@.len() - i,
    {
        let piece = match args[i].generate_asm(context, labels) {
            Ok(t) => t,
            Err(err) => {
                return Err(err);
            },
        };
        proof {
            assert(parts.take(i + 1).drop_last() =~= parts.take(i as int));
        }
        if i > 0 {
            text.append(", ");
        }
        text.append(piece.as_str());
        i = i + 1;
    }
    proof {
        assert(parts.take(i as int) =~= parts);
    }
    Ok(text)
}

impl LogicBooleanExpression<ParsedLogicArgument> {
    /// The condition as the assembly writes it; see `condition_text`.
    pub fn generate_asm(&self, context: &AsmCodeGenerationContext, labels: &[LogicLabel]) -> (r: Result<
        String,
        AsmCodeGenerationError,
    >)
        ensures
            r matches Ok(t) && t@ == condition_text(condition_expression_view(*self)),
        decreases self, 0int,
    {
        match self {
            LogicBooleanExpression::TestCall(test_call) => {
                if name_is_isset(&test_call.test_name) && test_call.argument_list.len() == 1 {
                    test_call.argument_list[0].generate_asm(context, labels)
                } else {
                    let args = match arguments_asm(&test_call.argument_list, context, labels) {
                        Ok(t) => t,
                        Err(err) => {
                            return Err(err);
                        },
                    };
                    let mut t = test_call.test_name.clone();
                    t.append("(");
                    t.append(args.as_str());
                    t.append(")");
                    Ok(t)
                }
            },
            LogicBooleanExpression::AndExpression(and_expression) => joined_asm(
                &and_expression.clauses,
                " && ",
                context,
                labels,
            ),
            LogicBooleanExpression::OrExpression(or_expression) => joined_asm(
                &or_expression.clauses,
                " || ",
                context,
                labels,
            ),
            LogicBooleanExpression::NotExpression(not_expression) => {
                let inner = match nested_asm(&not_expression.expression, context, labels) {
                    Ok(t) => t,
                    Err(err) => {
                        return Err(err);
                    },
                };
                let mut t = String::from_str("!");
                t.append(inner.as_str());
                Ok(t)
            },
            LogicBooleanExpression::BinaryOperation(operation) => {
                let left = match operation.left.generate_asm(context, labels) {
                    Ok(t) => t,
                    Err(err) => {
                        return Err(err);
                    },
                };
                let operator = match operation.operator.generate_asm(context, labels) {
                    Ok(t) => t,
                    Err(err) => {
                        return Err(err);
                    },
                };
                let right = match operation.right.generate_asm(context, labels) {
                    Ok(t) => t,
                    Err(err) => {
                        return Err(err);
                    },
                };
                let mut t = left;
                t.append(" ");
                t.append(operator.as_str());
                t.append(" ");
                t.append(right.as_str());
                Ok(t)
            },
            LogicBooleanExpression::Identifier(identifier) => Ok(identifier.name.clone()),
        }
    }
}

/// Whether a test is `isset`.
fn name_is_isset(name: &String) -> (r: bool)
    ensures
        r == (name@ == "isset"@),
{
    *name == String::from_str("isset")
}

impl LogicCondition {
    /// `unless (condition) goto label;`.
    pub fn generate_asm(&self, context: &AsmCodeGenerationContext, labels: &[LogicLabel]) -> (r: Result<
        String,
        AsmCodeGenerationError,
    >)
        requires
            self.clauses@.len() >= 1,
            clauses_messages_numbered(clauses_view(self.clauses@)),
        ensures
            match instruction_text(
                LogicInstruction::Condition(*self)@,
                |a: u16| label_text_at(labels@, a),
                messages_view(context.logic.messages),
                context.word_list.words_view(),
            ) {
                Ok(t) => r matches Ok(x) && x@ == t,
                Err(e) => r matches Err(x) && is_text_error(x, e),
            },
    {
        let skip_label = match find_label(labels, self.skip_address) {
            Some(l) => l,
            None => {
                return Err(AsmCodeGenerationError::UnlabeledJumpAddress(self.skip_address));
            },
        };
        let boolean_expression = match LogicBooleanExpression::from_clauses(self.clauses.as_slice(), context) {
            Ok(e) => e,
            Err(err) => {
                return Err(err);
            },
        };
        let condition_asm = match boolean_expression.generate_asm(context, labels) {
            Ok(t) => t,
            Err(err) => {
                return Err(err);
            },
        };
        let mut t = String::from_str("unless (");
        t.append(condition_asm.as_str());
        t.append(") goto ");
        t.append(skip_label.label.as_str());
        t.append(";");
        Ok(t)
    }
}

impl LogicInstruction {
    /// The instruction as the assembly writes it; see `instruction_text`.
    pub fn generate_asm(&self, context: &AsmCodeGenerationContext, labels: &[LogicLabel]) -> (r: Result<
        String,
        AsmCodeGenerationError,
    >)
        requires
            instruction_printable(self@),
        ensures
            match instruction_text(
                self@,
                |a: u16| label_text_at(labels@, a),
                messages_view(context.logic.messages),
                context.word_list.words_view(),
            ) {
                Ok(t) => r matches Ok(x) && x@ == t,
                Err(e) => r matches Err(x) && is_text_error(x, e),
            },
    {
        match self {
            LogicInstruction::Command(command) => command.generate_asm(context, labels),
            LogicInstruction::Condition(condition) => condition.generate_asm(context, labels),
            LogicInstruction::Goto(goto) => goto.generate_asm(context, labels),
        }
    }
}

/// The instruction's line, after its label where it has one; see
/// `instruction_line`.
pub fn generate_logic_asm_instruction_with_possible_label(
    instruction: &LogicInstruction,
    labels: &[LogicLabel],
    context: &AsmCodeGenerationContext,
) -> (r: Result<String, AsmCodeGenerationError>)
    requires
        instruction_printable(instruction@),
    ensures
        match instruction_line(
            instruction@,
            |a: u16| label_text_at(labels@, a),
            messages_view(context.logic.messages),
            context.word_list.words_view(),
        ) {
            Ok(t) => r matches Ok(x) && x@ == t,
            Err(e) => r matches Err(x) && is_text_error(x, e),
        },
{
    let line_label = find_label(labels, instruction.address());
    let text = match instruction.generate_asm(context, labels) {
        Ok(t) => t,
        Err(err) => {
            return Err(err);
        },
    };
    let mut line = decimal_string(instruction.address() as u32);
    line.append(" ");
    line.append(text.as_str());
    match line_label {
        Some(label) => {
            let mut t = String::from_str("\n");
            t.append(label.label.as_str());
            t.append(":\n");
            t.append(line.as_str());
            Ok(t)
        },
        None => Ok(line),
    }
}

/// The messages as the assembly writes them; see `messages_text`.
pub fn generate_logic_messages(messages: &LogicMessages) -> (r: Result<String, AsmCodeGenerationError>)
    requires
        !messages_view(*messages).contains_key(255u8),
    ensures
        r matches Ok(t) && t@ == messages_text(messages_view(*messages)),
{
    let ghost m = messages_view(*messages);
    let mut text = String::from_str("// messages");
    let mut k: u32 = 0;
    while k < 255
        invariant
            m == messages_view(*messages),
            0 <= k <= 255,
            text@ == "// messages"@ + message_lines(m, k as int),
        decreases 255 - k,
    {
        let key = k as u8;
        assert(key as int == k as int);
        match messages.get(&key) {
            Some(message) => {
                assert(m.contains_key(key) && m[key] == message@);
                let quoted = match json_quoted(message.as_str()) {
                    Ok(j) => j,
                    Err(err) => {
                        return Err(AsmCodeGenerationError::SerdeJsonError(err));
                    },
                };
                text.append("\n#message ");
                let number = decimal_string(k + 1);
                text.append(number.as_str());
                text.append(" ");
                text.append(quoted.as_str());
            },
            None => {
                assert(!m.contains_key(key));
            },
        }
        k = k + 1;
    }
    assert(message_lines(m, 256) == message_lines(m, 255));
    Ok(text)
}

/// The lines of the first `k` instructions, or the first that has none.
pub open spec fn program_lines(
    is: Seq<InstructionView>,
    labels: spec_fn(u16) -> Option<Seq<char>>,
    messages: Map<u8, Seq<char>>,
    words: Map<u16, Seq<char>>,
    k: int,
) -> Result<Seq<Seq<char>>, (int, AsmTextError)>
    decreases k,
{
    if k <= 0 {
        Ok(Seq::empty())
    } else {
        match program_lines(is, labels, messages, words, k - 1) {
            Err(e) => Err(e),
            Ok(lines) => match instruction_line(is[k - 1], labels, messages, words) {
                Err(e) => Err((k - 1, e)),
                Ok(line) => Ok(lines.push(line)),
            },
        }
    }
}

/// The labels a program's assembly uses: generated for each address
/// something jumps to, except the addresses `existing` labels.
pub open spec fn program_labels(is: Seq<InstructionView>, existing: Seq<LogicLabel>) -> spec_fn(u16) -> Option<
    Seq<char>,
> {
    |a: u16|
        if needs_label(is, existing, a) {
            Some(generated_label_text(a))
        } else {
            None
        }
}

fn test_printable(t: &LogicTest) -> (r: bool)
    ensures
        r == test_messages_numbered(t@),
{
    let types_len = if t.test_command.var_args { t.args.len() } else { t.test_command.arg_types.len() };
    let n = if t.args.len() <= types_len { t.args.len() } else { types_len };
    let mut i: usize = 0;
    while i < n
        invariant
            types_len == test_argument_types(t@).len(),
            n == test_asm_arguments(t@).len(),
            n <= t.args@.len(),
            i <= n,
            forall|j: int|
                0 <= j < i ==> (#[trigger] test_asm_arguments(t@)[j]).arg_type == AGICommandArgType::Message
                    ==> test_asm_arguments(t@)[j].value as u8 >= 1,
        decreases n - i,
    {
        let is_message = !t.test_command.var_args && t.test_command.arg_types[i] == AGICommandArgType::Message;
        assert(is_message == (test_asm_arguments(t@)[i as int].arg_type == AGICommandArgType::Message));
        if is_message && (t.args[i] as u8) < 1 {
            assert(test_asm_arguments(t@)[i as int].value == t.args@[i as int]);
            return false;
        }
        i = i + 1;
    }
    true
}

/// Whether each test of a disjunction can be written.
fn or_printable(ts: &Vec<LogicTest>) -> (r: bool)
    ensures
        r == tests_printable(tests_view(ts@)),
{
    let mut j: usize = 0;
    while j < ts.len()
        invariant
            j <= ts@.len(),
            forall|m: int| 0 <= m < j ==> test_messages_numbered(#[trigger] tests_view(ts@)[m]),
        decreases ts@.len() - j,
    {
        if !test_printable(&ts[j]) {
            assert(!test_messages_numbered(tests_view(ts@)[j as int]));
            return false;
        }
        j = j + 1;
    }
    true
}

/// Whether each of the tests can be written.
pub open spec fn tests_printable(ts: Seq<LogicTestView>) -> bool {
    forall|j: int| 0 <= j < ts.len() ==> test_messages_numbered(#[trigger] ts[j])
}

/// Whether a clause can be written.
pub open spec fn clause_printable(c: ClauseView) -> bool {
    match c {
        ClauseView::Test(t) => test_messages_numbered(t),
        ClauseView::Or(ts) => tests_printable(ts),
    }
}

fn clause_is_printable(c: &LogicConditionClause) -> (r: bool)
    ensures
        r == clause_printable(c@),
{
    match c {
        LogicConditionClause::Test(t) => {
            let r = test_printable(t);
            assert(c@ == ClauseView::Test(t@));
            r
        },
        LogicConditionClause::Or(o) => {
            let r = or_printable(&o.or_tests);
            assert(c@ == ClauseView::Or(tests_view(o.or_tests@)));
            r
        },
    }
}

fn clauses_printable(cs: &Vec<LogicConditionClause>) -> (r: bool)
    ensures
        r == clauses_messages_numbered(clauses_view(cs@)),
{
    let mut k: usize = 0;
    while k < cs.len()
        invariant
            k <= cs@.len(),
            forall|m: int| 0 <= m < k ==> clause_printable(#[trigger] clauses_view(cs@)[m]),
        decreases cs@.len() - k,
    {
        if !clause_is_printable(&cs[k]) {
            assert(!clause_printable(clauses_view(cs@)[k as int]));
            return false;
        }
        k = k + 1;
    }
    true
}

fn command_printable(c: &LogicCommand) -> (r: bool)
    ensures
        r == command_messages_numbered(c.agi_command@.arg_types, c.args@),
{
    let mut j: usize = 0;
    while j < c.args.len()
        invariant
            j <= c.args@.len(),
            forall|m: int|
                0 <= m < j && m < c.agi_command.arg_types@.len() && #[trigger] c.agi_command.arg_types@[m]
                    == AGICommandArgType::Message ==> c.args@[m] >= 1,
        decreases c.args@.len() - j,
    {
        if j < c.agi_command.arg_types.len() && c.agi_command.arg_types[j] == AGICommandArgType::Message
            && c.args[j] < 1 {
            assert(c.agi_command@.arg_types[j as int] == AGICommandArgType::Message);
            return false;
        }
        j = j + 1;
    }
    true
}

/// Whether the assembly can write the instruction: message arguments count
/// from one, and a conditional has a clause.
pub fn instruction_is_printable(i: &LogicInstruction) -> (r: bool)
    ensures
        r == instruction_printable(i@),
{
    match i {
        LogicInstruction::Command(c) => command_printable(c),
        LogicInstruction::Condition(c) => c.clauses.len() >= 1 && clauses_printable(&c.clauses),
        LogicInstruction::Goto(_) => true,
    }
}

/// Whether `generate_logic_asm` can be called on `logic`: every instruction
/// can be written, and no message has the number 255.
pub fn logic_asm_printable(logic: &LogicProgram) -> (r: bool)
    ensures
        r == ((forall|k: int| 0 <= k < logic.instructions@.len() ==> instruction_printable(#[trigger] logic.instructions@[k]@))
            && !messages_view(logic.messages).contains_key(255u8)),
{
    let mut k: usize = 0;
    while k < logic.instructions.len()
        invariant
            k <= logic.instructions@.len(),
            forall|m: int| 0 <= m < k ==> instruction_printable(#[trigger] logic.instructions@[m]@),
        decreases logic.instructions@.len() - k,
    {
        if !instruction_is_printable(&logic.instructions[k]) {
            return false;
        }
        k = k + 1;
    }
    !logic.messages.contains_key(&255u8)
}

/// The assembly of a logic resource: each instruction's line, in order, an
/// empty line, then the messages. The labels are generated for the addresses
/// jumped to and not among `labels`; a jump to one of those has no label and
/// is an error, reported with the instruction.
pub fn generate_logic_asm(logic: &LogicProgram, word_list: &WordList, labels: &[LogicLabel]) -> (r: Result<
    String,
    AsmCodeGenerationError,
>)
    requires
        forall|k: int| 0 <= k < logic.instructions@.len() ==> instruction_printable(#[trigger] logic.instructions@[k]@),
        !messages_view(logic.messages).contains_key(255u8),
    ensures
        ({
            let is = instructions_view(logic.instructions@);
            let m = messages_view(logic.messages);
            match program_lines(is, program_labels(is, labels@), m, word_list.words_view(), is.len() as int) {
                Ok(lines) => r matches Ok(t) && t@ == joined_text(lines, "\n"@) + "\n\n"@ + messages_text(m) + "\n"@,
                Err((k, e)) => r matches Err(AsmCodeGenerationError::ErrorGeneratingInstruction(i, b)) && i@ == is[k]
                    && is_text_error(*b, e),
            }
        }),
{
    let ghost is = instructions_view(logic.instructions@);
    let ghost m = messages_view(logic.messages);
    let ghost w = word_list.words_view();
    let labels_to_use = generate_labels(logic.instructions.as_slice(), labels);
    let ghost lf = program_labels(is, labels@);
    proof {
        assert forall|a: u16| #[trigger] label_text_at(labels_to_use@, a) == lf(a) by {
            lemma_label_text_at(labels_to_use@, a);
            if needs_label(is, labels@, a) {
                let i = choose|i: int| 0 <= i < labels_to_use@.len() && #[trigger] labels_to_use@[i].address == a;
                assert(labels_to_use@[i].label@ == generated_label_text(a));
            } else {
                assert forall|i: int| 0 <= i < labels_to_use@.len() implies labels_to_use@[i].address != a by {
                    assert(needs_label(is, labels@, labels_to_use@[i].address));
                }
            }
        }
        assert((|a: u16| label_text_at(labels_to_use@, a)) =~= lf);
    }
    let context = AsmCodeGenerationContext { logic, word_list };
    let mut asm_code = String::new();
    let mut k: usize = 0;
    while k < logic.instructions.len()
        invariant
            is == instructions_view(logic.instructions@),
            m == messages_view(logic.messages),
            w == word_list.words_view(),
            lf == program_labels(is, labels@),
            (|a: u16| label_text_at(labels_to_use@, a)) == lf,
            context.logic == logic,
            context.word_list == word_list,
            forall|j: int| 0 <= j < logic.instructions@.len() ==> instruction_printable(#[trigger] logic.instructions@[j]@),
            0 <= k <= is.len(),
            program_lines(is, lf, m, w, k as int) matches Ok(lines) && asm_code@ == joined_text(lines, "\n"@),
        decreases is.len() - k,
    {
        let instruction = &logic.instructions[k];
        assert(is[k as int] == instruction@);
        let ghost lines = program_lines(is, lf, m, w, k as int)->Ok_0;
        let line = match generate_logic_asm_instruction_with_possible_label(instruction, labels_to_use.as_slice(), &context) {
            Ok(l) => l,
            Err(err) => {
                proof {
                    lemma_program_lines_error_stays(is, lf, m, w, k as int + 1);
                }
                return Err(AsmCodeGenerationError::ErrorGeneratingInstruction(instruction.duplicate(), Box::new(err)));
            },
        };
        proof {
            assert(lines.push(line@).drop_last() =~= lines);
        }
        if k > 0 {
            asm_code.append("\n");
        }
        asm_code.append(line.as_str());
        proof {
            assert(lines.len() == k) by {
                lemma_program_lines_len(is, lf, m, w, k as int);
            }
        }
        k = k + 1;
    }
    let messages_asm = match generate_logic_messages(&logic.messages) {
        Ok(t) => t,
        Err(err) => {
            return Err(err);
        },
    };
    let mut out = asm_code;
    out.append("\n\n");
    out.append(messages_asm.as_str());
    out.append("\n");
    Ok(out)
}

proof fn lemma_program_lines_len(
    is: Seq<InstructionView>,
    labels: spec_fn(u16) -> Option<Seq<char>>,
    messages: Map<u8, Seq<char>>,
    words: Map<u16, Seq<char>>,
    k: int,
)
    requires
        0 <= k,
    ensures
        program_lines(is, labels, messages, words, k) matches Ok(lines) ==> lines.len() == k,
    decreases k,
{
    if k > 0 {
        lemma_program_lines_len(is, labels, messages, words, k - 1);
    }
}

/// Once an instruction among the first `k` has no line, the program has none.
proof fn lemma_program_lines_error_stays(
    is: Seq<InstructionView>,
    labels: spec_fn(u16) -> Option<Seq<char>>,
    messages: Map<u8, Seq<char>>,
    words: Map<u16, Seq<char>>,
    k: int,
)
    requires
        0 <= k <= is.len(),
        program_lines(is, labels, messages, words, k) is Err,
    ensures
        program_lines(is, labels, messages, words, is.len() as int) == program_lines(is, labels, messages, words, k),
    decreases is.len() - k,
{
    if k < is.len() {
        lemma_program_lines_error_stays(is, labels, messages, words, k + 1);
    }
}

} // verus!
