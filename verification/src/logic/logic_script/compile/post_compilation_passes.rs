use vstd::prelude::*;
use std::collections::HashMap;

use crate::logic::assembly::codegen::{generate_labels, is_jump_target, needs_label};
use crate::logic::assembly::LogicLabel;
use crate::logic::{instruction_address, instructions_view, InstructionView, LogicGoto, LogicInstruction};

verus! {

/// Whether a pass over the compiled instructions changed them.
#[derive(Debug, Clone, Copy, PartialEq, Eq, Structural)]
pub enum PostCompilationPassResult {
    Unchanged,
    Changed,
}

/// Whether execution can reach the instruction at `k` by falling through
/// from the one before: at the start, and after anything kept but a goto.
pub open spec fn falls_into(is: Seq<InstructionView>, k: int) -> bool
    decreases k, 0int,
{
    if k <= 0 {
        true
    } else if is[k - 1] is Goto {
        false
    } else {
        kept_instruction(is, k - 1)
    }
}

/// The instruction at `k` is kept: execution falls into it, or some
/// instruction jumps to its address.
pub open spec fn kept_instruction(is: Seq<InstructionView>, k: int) -> bool
    decreases k, 1int,
{
    falls_into(is, k) || is_jump_target(is, instruction_address(is[k]))
}

/// The instructions kept among the first `k`.
pub open spec fn kept_upto(is: Seq<InstructionView>, k: int) -> Seq<InstructionView>
    decreases k,
{
    if k <= 0 {
        Seq::empty()
    } else if kept_instruction(is, k - 1) {
        kept_upto(is, k - 1).push(is[k - 1])
    } else {
        kept_upto(is, k - 1)
    }
}

/// Drops the instructions that nothing reaches: those after a goto up to the
/// next address that some instruction jumps to. The result it reports is
/// always `Unchanged`, whether or not instructions were dropped.
pub fn remove_unreachable_instructions(instructions: &mut Vec<LogicInstruction>) -> (r: PostCompilationPassResult)
    ensures
        r == PostCompilationPassResult::Unchanged,
        instructions_view(final(instructions)@) == kept_upto(
            instructions_view(old(instructions)@),
            old(instructions)@.len() as int,
        ),
{
    let ghost is = instructions_view(instructions@);
    let result = PostCompilationPassResult::Unchanged;
    let none: Vec<LogicLabel> = Vec::new();
    let labels = generate_labels(instructions.as_slice(), none.as_slice());
    assert(none@ =~= Seq::<LogicLabel>::empty());
    let mut label_addresses: Vec<bool> = vec![false; 65536];
    let mut l: usize = 0;
    while l < labels.len()
        invariant
            is == instructions_view(instructions@),
            0 <= l <= labels@.len(),
            label_addresses@.len() == 65536,
            forall|i: int| 0 <= i < labels@.len() ==> needs_label(is, Seq::empty(), #[trigger] labels@[i].address),
            forall|a: u16| needs_label(is, Seq::empty(), a) ==> exists|i: int|
                0 <= i < labels@.len() && #[trigger] labels@[i].address == a,
            forall|a: u16| #[trigger] label_addresses@[a as int] <==> exists|i: int| 0 <= i < l && labels@[i].address == a,
        decreases labels@.len() - l,
    {
        label_addresses.set(labels[l].address as usize, true);
        proof {
            assert forall|a: u16| #[trigger] label_addresses@[a as int] <==> exists|i: int|
                0 <= i < l + 1 && labels@[i].address == a by {
                if labels@[l as int].address == a {
                    assert(0 <= l < l + 1 && labels@[l as int].address == a);
                }
            }
        }
        l = l + 1;
    }
    proof {
        assert forall|a: u16| #[trigger] label_addresses@[a as int] <==> is_jump_target(is, a) by {
            if label_addresses@[a as int] {
                let i = choose|i: int| 0 <= i < l && labels@[i].address == a;
                assert(needs_label(is, Seq::empty(), labels@[i].address));
            }
            if is_jump_target(is, a) {
                assert(needs_label(is, Seq::empty(), a));
            }
        }
    }
    let mut kept: Vec<LogicInstruction> = Vec::new();
    let mut reachable = true;
    let mut k: usize = 0;
    proof {
        assert(instructions_view(kept@) =~= Seq::<InstructionView>::empty());
    }
    while k < instructions.len()
        invariant
            is == instructions_view(instructions@),
            0 <= k <= instructions@.len(),
            label_addresses@.len() == 65536,
            forall|a: u16| #[trigger] label_addresses@[a as int] <==> is_jump_target(is, a),
            reachable == falls_into(is, k as int),
            instructions_view(kept@) == kept_upto(is, k as int),
        decreases instructions@.len() - k,
    {
        let instruction = &instructions[k];
        assert(is[k as int] == instruction@);
        if label_addresses[instruction.address() as usize] {
            reachable = true;
        }
        let was_reachable = reachable;
        match instruction {
            LogicInstruction::Goto(_) => {
                reachable = false;
            },
            _ => {},
        }
        if was_reachable {
            let ghost before = instructions_view(kept@);
            kept.push(instruction.duplicate());
            assert(instructions_view(kept@) =~= before.push(is[k as int]));
        }
        k = k + 1;
    }
    *instructions = kept;
    result
}

/// Where following the remappings from `a` ends, within `fuel` steps.
pub open spec fn chain_end(m: Map<u16, u16>, a: u16, fuel: nat) -> Option<u16>
    decreases fuel,
{
    if !m.contains_key(a) {
        Some(a)
    } else if fuel == 0 {
        None
    } else {
        chain_end(m, m[a], (fuel - 1) as nat)
    }
}

/// Where a chain ends does not depend on the fuel, once there is enough.
pub proof fn lemma_chain_end_unique(m: Map<u16, u16>, a: u16, f: nat, g: nat)
    requires
        chain_end(m, a, f) is Some,
        chain_end(m, a, g) is Some,
    ensures
        chain_end(m, a, f) == chain_end(m, a, g),
    decreases f,
{
    if m.contains_key(a) {
        lemma_chain_end_unique(m, m[a], (f - 1) as nat, (g - 1) as nat);
    }
}

/// Drops gotos that jump to the next instruction, or that sit just before a
/// goto jumping back to them, and sends jumps to them where they led.
pub struct RemoveRedundantGotoInstructionsPass {
    address_remappings: HashMap<u16, u16>,
}

impl RemoveRedundantGotoInstructionsPass {
    /// The addresses dropped and where jumps to them go instead.
    pub closed spec fn remappings(&self) -> Map<u16, u16> {
        self.address_remappings@
    }

    pub fn new() -> (r: Self)
        ensures
            r.remappings() == Map::<u16, u16>::empty(),
    {
        Self { address_remappings: HashMap::new() }
    }

    /// Follows the remappings from `address` to where they end.
    pub fn find_remapped_address(&self, address: u16) -> (r: u16)
        requires
            exists|fuel: nat| #[trigger] chain_end(self.remappings(), address, fuel) is Some,
        ensures
            forall|fuel: nat| #[trigger] chain_end(self.remappings(), address, fuel) is Some ==> chain_end(
                self.remappings(),
                address,
                fuel,
            ) == Some(r),
    {
        let ghost m = self.address_remappings@;
        let ghost f0: nat = choose|fuel: nat| #[trigger] chain_end(m, address, fuel) is Some;
        let mut cur = address;
        let ghost mut f: nat = f0;
        proof {
            assert forall|fuel: nat| #[trigger] chain_end(m, address, fuel) is Some implies chain_end(m, address, fuel)
                == chain_end(m, cur, f) by {
                lemma_chain_end_unique(m, address, fuel, f0);
            }
        }
        loop
            invariant
                m == self.address_remappings@,
                chain_end(m, cur, f) is Some,
                forall|fuel: nat| #[trigger] chain_end(m, address, fuel) is Some ==> chain_end(m, address, fuel)
                    == chain_end(m, cur, f),
            decreases f,
        {
            match self.address_remappings.get(&cur) {
                Some(next) => {
                    proof {
                        f = (f - 1) as nat;
                    }
                    cur = *next;
                },
                None => {
                    return cur;
                },
            }
        }
    }
}

/// No two instructions share an address.
pub open spec fn distinct_addresses(is: Seq<InstructionView>) -> bool {
    forall|i: int, j: int|
        0 <= i < is.len() && 0 <= j < is.len() && i != j ==> instruction_address(#[trigger] is[i])
            != instruction_address(#[trigger] is[j])
}

/// The goto at `i` is redundant: it jumps to the next instruction, or the next
/// instruction is a goto that jumps back to it.
pub open spec fn redundant_goto(is: Seq<InstructionView>, i: int) -> bool {
    &&& 0 <= i < is.len() - 1
    &&& is[i] is Goto
    &&& ({
        let next = is[i + 1];
        ||| is[i]->Goto_jump_address == instruction_address(next)
        ||| (next is Goto && next->Goto_jump_address == is[i]->Goto_address)
    })
}

/// The remappings the first `k` instructions give: each redundant goto's
/// address to the next instruction's.
pub open spec fn remappings_upto(is: Seq<InstructionView>, k: int) -> Map<u16, u16>
    decreases k,
{
    if k <= 0 {
        Map::empty()
    } else if redundant_goto(is, k - 1) {
        remappings_upto(is, k - 1).insert(instruction_address(is[k - 1]), instruction_address(is[k]))
    } else {
        remappings_upto(is, k - 1)
    }
}

/// Where a jump to `a` goes once redundant gotos are gone.
pub open spec fn remapped(m: Map<u16, u16>, a: u16, fuel: nat) -> u16 {
    match chain_end(m, a, fuel) {
        Some(b) => b,
        None => a,
    }
}

/// An instruction with its jump sent where the remappings lead.
pub open spec fn redirected(i: InstructionView, m: Map<u16, u16>, fuel: nat) -> InstructionView {
    match i {
        InstructionView::Condition { address, clauses, skip_address } => InstructionView::Condition {
            address,
            clauses,
            skip_address: remapped(m, skip_address, fuel),
        },
        InstructionView::Goto { address, jump_address } => InstructionView::Goto {
            address,
            jump_address: remapped(m, jump_address, fuel),
        },
        other => other,
    }
}

/// The first `k` instructions without the remapped ones, jumps redirected.
pub open spec fn without_redundant_upto(is: Seq<InstructionView>, m: Map<u16, u16>, fuel: nat, k: int) -> Seq<
    InstructionView,
>
    decreases k,
{
    if k <= 0 {
        Seq::empty()
    } else if m.contains_key(instruction_address(is[k - 1])) {
        without_redundant_upto(is, m, fuel, k - 1)
    } else {
        without_redundant_upto(is, m, fuel, k - 1).push(redirected(is[k - 1], m, fuel))
    }
}

/// What the remappings of the first `k` instructions hold.
proof fn lemma_remappings_upto(is: Seq<InstructionView>, k: int)
    requires
        0 <= k <= is.len(),
        distinct_addresses(is),
    ensures
        forall|a: u16| #[trigger] remappings_upto(is, k).contains_key(a) ==> exists|i: int|
            0 <= i < k && redundant_goto(is, i) && instruction_address(is[i]) == a,
        forall|i: int|
            0 <= i < k && redundant_goto(is, i) ==> #[trigger] remappings_upto(is, k).contains_key(
                instruction_address(is[i]),
            ) && remappings_upto(is, k)[instruction_address(is[i])] == instruction_address(is[i + 1]),
    decreases k,
{
    if k > 0 {
        lemma_remappings_upto(is, k - 1);
        let m = remappings_upto(is, k);
        let prev = remappings_upto(is, k - 1);
        assert forall|a: u16| #[trigger] m.contains_key(a) implies exists|i: int|
            0 <= i < k && redundant_goto(is, i) && instruction_address(is[i]) == a by {
            if redundant_goto(is, k - 1) && a == instruction_address(is[k - 1]) {
                assert(0 <= k - 1 < k && redundant_goto(is, k - 1) && instruction_address(is[k - 1]) == a);
            } else {
                assert(prev.contains_key(a));
                let i = choose|i: int| 0 <= i < k - 1 && redundant_goto(is, i) && instruction_address(is[i]) == a;
                assert(0 <= i < k && redundant_goto(is, i) && instruction_address(is[i]) == a);
            }
        }
        assert forall|i: int| 0 <= i < k && redundant_goto(is, i) implies #[trigger] m.contains_key(
            instruction_address(is[i]),
        ) && m[instruction_address(is[i])] == instruction_address(is[i + 1]) by {
            if i < k - 1 {
                assert(prev.contains_key(instruction_address(is[i])));
                if redundant_goto(is, k - 1) {
                    assert(instruction_address(is[i]) != instruction_address(is[k - 1]));
                }
            }
        }
    }
}

/// Chains from an instruction's address end within the instructions after it.
proof fn lemma_chain_from_index(is: Seq<InstructionView>, i: int)
    requires
        0 <= i < is.len(),
        distinct_addresses(is),
    ensures
        chain_end(remappings_upto(is, is.len() as int), instruction_address(is[i]), (is.len() - i) as nat) is Some,
    decreases is.len() - i,
{
    let m = remappings_upto(is, is.len() as int);
    lemma_remappings_upto(is, is.len() as int);
    let a = instruction_address(is[i]);
    if m.contains_key(a) {
        let j = choose|j: int| 0 <= j < is.len() && redundant_goto(is, j) && instruction_address(is[j]) == a;
        assert(j == i);
        lemma_chain_from_index(is, i + 1);
    }
}

/// More fuel never ends a chain that ended.
proof fn lemma_chain_end_more_fuel(m: Map<u16, u16>, a: u16, f: nat, g: nat)
    requires
        chain_end(m, a, f) is Some,
        f <= g,
    ensures
        chain_end(m, a, g) == chain_end(m, a, f),
    decreases f,
{
    if m.contains_key(a) {
        lemma_chain_end_more_fuel(m, m[a], (f - 1) as nat, (g - 1) as nat);
    }
}

/// Following the remappings of the redundant gotos from any address ends
/// within as many steps as there are instructions: they form no cycle.
pub open spec fn remapping_chains_end(is: Seq<InstructionView>) -> bool {
    forall|a: u16| #[trigger] chain_end(remappings_upto(is, is.len() as int), a, is.len() as nat) is Some
}

/// With distinct addresses the remappings form no cycle.
pub proof fn lemma_distinct_chains_end(is: Seq<InstructionView>)
    requires
        distinct_addresses(is),
    ensures
        remapping_chains_end(is),
{
    assert forall|a: u16| #[trigger] chain_end(remappings_upto(is, is.len() as int), a, is.len() as nat) is Some by {
        lemma_chains_end(is, a);
    }
}

/// With distinct addresses every chain ends within as many steps as there are instructions.
pub proof fn lemma_chains_end(is: Seq<InstructionView>, a: u16)
    requires
        distinct_addresses(is),
    ensures
        chain_end(remappings_upto(is, is.len() as int), a, is.len() as nat) is Some,
{
    let m = remappings_upto(is, is.len() as int);
    lemma_remappings_upto(is, is.len() as int);
    if m.contains_key(a) {
        let i = choose|i: int| 0 <= i < is.len() && redundant_goto(is, i) && instruction_address(is[i]) == a;
        lemma_chain_from_index(is, i);
        lemma_chain_end_more_fuel(m, a, (is.len() - i) as nat, is.len() as nat);
    }
}

impl RemoveRedundantGotoInstructionsPass {
    /// One pass: finds the redundant gotos; when there are none, nothing
    /// changes; otherwise they are dropped and every jump to one of them goes
    /// where it led.
    pub fn run_once(&mut self, instructions: &mut Vec<LogicInstruction>) -> (r: PostCompilationPassResult)
        requires
            remapping_chains_end(instructions_view(old(instructions)@)),
        ensures
            ({
                let is = instructions_view(old(instructions)@);
                let m = remappings_upto(is, is.len() as int);
                &&& final(self).remappings() == m
                &&& m.dom().is_empty() ==> r == PostCompilationPassResult::Unchanged && final(instructions)@
                    == old(instructions)@
                &&& !m.dom().is_empty() ==> r == PostCompilationPassResult::Changed && instructions_view(
                    final(instructions)@,
                ) == without_redundant_upto(is, m, is.len() as nat, is.len() as int)
            }),
    {
        let ghost is = instructions_view(instructions@);
        let ghost n = is.len();
        self.address_remappings = HashMap::new();
        let len = instructions.len();
        let mut index: usize = 0;
        while len > 0 && index < len - 1
            invariant
                is == instructions_view(instructions@),
                len == instructions@.len(),
                0 <= index <= len,
                self.address_remappings@ == remappings_upto(is, index as int),
            decreases len - index,
        {
            let instruction = &instructions[index];
            let next_instruction = &instructions[index + 1];
            assert(is[index as int] == instruction@);
            assert(is[index + 1] == next_instruction@);
            match instruction {
                LogicInstruction::Goto(goto) => {
                    let goto_next_instruction = goto.jump_address == next_instruction.address();
                    let goto_same_address_as_next_instruction = match next_instruction {
                        LogicInstruction::Goto(next) => next.jump_address == goto.address,
                        _ => false,
                    };
                    if goto_next_instruction || goto_same_address_as_next_instruction {
                        self.address_remappings.insert(goto.address, next_instruction.address());
                    }
                },
                _ => {},
            }
            index = index + 1;
        }
        proof {
            if len >= 1 {
                assert(!redundant_goto(is, len - 1));
                assert(remappings_upto(is, len as int) == remappings_upto(is, len - 1));
            }
        }
        let ghost m = self.address_remappings@;
        if self.address_remappings.len() == 0 {
            assert(m.dom() =~= Set::<u16>::empty());
            return PostCompilationPassResult::Unchanged;
        }
        proof {
            assert(!m.dom().is_empty()) by {
                assert(m.dom().len() > 0);
            }
        }
        let mut kept: Vec<LogicInstruction> = Vec::new();
        let mut k: usize = 0;
        proof {
            assert(instructions_view(kept@) =~= Seq::<InstructionView>::empty());
        }
        while k < instructions.len()
            invariant
                is == instructions_view(instructions@),
                n == is.len(),
                remapping_chains_end(is),
                m == self.address_remappings@,
                m == remappings_upto(is, n as int),
                0 <= k <= instructions@.len(),
                instructions_view(kept@) == without_redundant_upto(is, m, n as nat, k as int),
            decreases instructions@.len() - k,
        {
            let instruction = &instructions[k];
            assert(is[k as int] == instruction@);
            if !self.address_remappings.contains_key(&instruction.address()) {
                let ghost before = instructions_view(kept@);
                let redirected_instruction = match instruction {
                    LogicInstruction::Condition(c) => {
                        proof {
                            assert(chain_end(remappings_upto(is, is.len() as int), c.skip_address, is.len() as nat) is Some);
                        }
                        let skip = self.find_remapped_address(c.skip_address);
                        let mut out = instruction.duplicate();
                        match &mut out {
                            LogicInstruction::Condition(oc) => {
                                oc.skip_address = skip;
                            },
                            _ => {},
                        }
                        out
                    },
                    LogicInstruction::Goto(g) => {
                        proof {
                            assert(chain_end(remappings_upto(is, is.len() as int), g.jump_address, is.len() as nat) is Some);
                        }
                        let jump = self.find_remapped_address(g.jump_address);
                        LogicInstruction::Goto(crate::logic::LogicGoto { address: g.address, jump_address: jump })
                    },
                    _ => instruction.duplicate(),
                };
                kept.push(redirected_instruction);
                assert(instructions_view(kept@) =~= before.push(redirected(is[k as int], m, n as nat)));
            }
            k = k + 1;
        }
        *instructions = kept;
        PostCompilationPassResult::Changed
    }
}

// Making conditionals self-contained: a conditional whose skip target lies
// beyond the end of the block that contains it skips instead to a new goto,
// placed where that block ends, which jumps on to the old target. Blocks are
// tracked as a stack of their end indexes, innermost last; each block opened
// by such a conditional carries the goto to place when it ends.

/// The index of the last instruction among the first `k` with address `a`.
pub open spec fn last_index_of(is: Seq<InstructionView>, a: u16, k: int) -> Option<int>
    decreases k,
{
    if k <= 0 {
        None
    } else if instruction_address(is[k - 1]) == a {
        Some(k - 1)
    } else {
        last_index_of(is, a, k - 1)
    }
}

proof fn lemma_last_index_bounds(is: Seq<InstructionView>, a: u16, k: int)
    ensures
        last_index_of(is, a, k) matches Some(i) ==> 0 <= i < k && instruction_address(is[i]) == a,
    decreases k,
{
    if k > 0 {
        lemma_last_index_bounds(is, a, k - 1);
    }
}

/// The highest address among the first `k` instructions.
pub open spec fn highest_address(is: Seq<InstructionView>, k: int) -> Option<u16>
    decreases k,
{
    if k <= 0 {
        None
    } else {
        let a = instruction_address(is[k - 1]);
        match highest_address(is, k - 1) {
            None => Some(a),
            Some(m) => Some(if m >= a { m } else { a }),
        }
    }
}

/// Where the pass stands between two instructions.
pub struct BlockState {
    /// The end indexes of the open blocks, innermost last; the first is the
    /// end of the whole program.
    pub ends: Seq<usize>,
    /// For each open block but the first, the goto to place where it ends.
    pub gotos: Seq<Option<LogicGoto>>,
    /// The highest address in use.
    pub next_address: Option<u16>,
    pub changed: bool,
    pub out: Seq<InstructionView>,
}

/// The goto placed for a closed block, if it has one.
pub open spec fn placed(g: Option<LogicGoto>) -> Seq<InstructionView> {
    match g {
        Some(g) => seq![InstructionView::Goto { address: g.address, jump_address: g.jump_address }],
        None => Seq::empty(),
    }
}

/// Closes the blocks that end before index `k`, innermost first: the open
/// blocks left, and the gotos placed.
pub open spec fn close_blocks(ends: Seq<usize>, gotos: Seq<Option<LogicGoto>>, k: int) -> (Seq<usize>, Seq<
    Option<LogicGoto>,
>, Seq<InstructionView>)
    decreases gotos.len(),
{
    if gotos.len() > 0 && ends.len() == gotos.len() + 1 && k > ends.last() {
        let (e, g, placed_rest) = close_blocks(ends.drop_last(), gotos.drop_last(), k);
        (e, g, placed(gotos.last()) + placed_rest)
    } else {
        (ends, gotos, Seq::empty())
    }
}

/// The pass over the instruction at `k`, or `None` where it cannot go on: a
/// skip address that no instruction has, or no address left for a goto.
pub open spec fn contain_step(is: Seq<InstructionView>, st: BlockState, k: int) -> Option<BlockState> {
    let (ends, gotos, placed_gotos) = close_blocks(st.ends, st.gotos, k);
    let changed = st.changed || placed_gotos.len() > 0;
    match is[k] {
        InstructionView::Condition { address, clauses, skip_address } => match last_index_of(
            is,
            skip_address,
            is.len() as int,
        ) {
            None => None,
            Some(skip) => {
                let containing = ends.last();
                if skip > containing {
                    if st.next_address == Some(0xffffu16) {
                        None
                    } else {
                        let a: u16 = match st.next_address {
                            Some(m) => (m + 1) as u16,
                            None => 0u16,
                        };
                        Some(
                            BlockState {
                                ends: ends.push(containing),
                                gotos: gotos.push(Some(LogicGoto { address: a, jump_address: skip_address })),
                                next_address: Some(a),
                                changed: true,
                                out: st.out + placed_gotos.push(
                                    InstructionView::Condition { address, clauses, skip_address: a },
                                ),
                            },
                        )
                    }
                } else {
                    Some(
                        BlockState {
                            ends: ends.push(skip as usize),
                            gotos: gotos.push(None),
                            next_address: st.next_address,
                            changed,
                            out: st.out + placed_gotos.push(is[k]),
                        },
                    )
                }
            },
        },
        _ => Some(
            BlockState {
                ends,
                gotos,
                next_address: st.next_address,
                changed,
                out: st.out + placed_gotos.push(is[k]),
            },
        ),
    }
}

/// The pass over the first `k` instructions.
pub open spec fn contain_run(is: Seq<InstructionView>, k: int) -> Option<BlockState>
    decreases k,
{
    if k <= 0 {
        Some(
            BlockState {
                ends: seq![is.len() as usize],
                gotos: Seq::empty(),
                next_address: highest_address(is, is.len() as int),
                changed: false,
                out: Seq::empty(),
            },
        )
    } else {
        match contain_run(is, k - 1) {
            None => None,
            Some(st) => contain_step(is, st, k - 1),
        }
    }
}

proof fn lemma_run_stops(is: Seq<InstructionView>, j: int, k: int)
    requires
        j <= k,
        contain_run(is, j) is None,
    ensures
        contain_run(is, k) is None,
    decreases k - j,
{
    if j < k {
        lemma_run_stops(is, j, k - 1);
    }
}

/// Where a conditional skips past the end of the block around it, makes it
/// skip to a new goto, placed where that block ends, that jumps on to the old
/// target; the new gotos take the addresses after the highest one in use.
/// The instructions are replaced only where something changed.
pub fn make_conditionals_self_contained(instructions: &mut Vec<LogicInstruction>) -> (r: PostCompilationPassResult)
    requires
        contain_run(instructions_view(old(instructions)@), old(instructions)@.len() as int) is Some,
    ensures
        ({
            let st = contain_run(instructions_view(old(instructions)@), old(instructions)@.len() as int)->0;
            &&& r == if st.changed {
                PostCompilationPassResult::Changed
            } else {
                PostCompilationPassResult::Unchanged
            }
            &&& instructions_view(final(instructions)@) == if st.changed {
                st.out
            } else {
                instructions_view(old(instructions)@)
            }
        }),
{
    let ghost is = instructions_view(instructions@);
    let n = instructions.len();
    let mut index_of: Vec<Option<usize>> = Vec::new();
    let mut a: usize = 0;
    while a < 65536
        invariant
            0 <= a <= 65536,
            index_of@ == Seq::new(a as nat, |i: int| None::<usize>),
        decreases 65536 - a,
    {
        index_of.push(None);
        a = a + 1;
        assert(index_of@ =~= Seq::new(a as nat, |i: int| None::<usize>));
    }
    let mut highest: Option<u16> = None;
    let mut k: usize = 0;
    while k < n
        invariant
            n == instructions@.len(),
            is == instructions_view(instructions@),
            0 <= k <= n,
            index_of@.len() == 65536,
            highest == highest_address(is, k as int),
            forall|b: u16|
                #![trigger index_of@[b as int]]
                match last_index_of(is, b, k as int) {
                    None => index_of@[b as int] is None,
                    Some(i) => index_of@[b as int] == Some(i as usize),
                },
        decreases n - k,
    {
        let address = instructions[k].address();
        assert(is[k as int] == instructions@[k as int]@);
        index_of.set(address as usize, Some(k));
        highest = match highest {
            None => Some(address),
            Some(m) => Some(if m >= address { m } else { address }),
        };
        k = k + 1;
    }
    let mut ends: Vec<usize> = Vec::new();
    ends.push(n);
    let mut gotos: Vec<Option<LogicGoto>> = Vec::new();
    let mut next_address = highest;
    let mut changed = false;
    let mut out: Vec<LogicInstruction> = Vec::new();
    proof {
        assert(ends@ =~= seq![n]);
        assert(gotos@ =~= Seq::<Option<LogicGoto>>::empty());
        assert(instructions_view(out@) =~= Seq::<InstructionView>::empty());
    }
    let mut k: usize = 0;
    while k < n
        invariant
            n == instructions@.len(),
            is == instructions_view(instructions@),
            0 <= k <= n,
            contain_run(is, n as int) is Some,
            index_of@.len() == 65536,
            forall|b: u16|
                #![trigger index_of@[b as int]]
                match last_index_of(is, b, n as int) {
                    None => index_of@[b as int] is None,
                    Some(i) => index_of@[b as int] == Some(i as usize),
                },
            ends@.len() == gotos@.len() + 1,
            forall|i: int| 0 <= i < ends@.len() ==> #[trigger] ends@[i] <= n,
            contain_run(is, k as int) == Some(
                BlockState {
                    ends: ends@,
                    gotos: gotos@,
                    next_address,
                    changed,
                    out: instructions_view(out@),
                },
            ),
        decreases n - k,
    {
        proof {
            if contain_run(is, k + 1) is None {
                lemma_run_stops(is, k + 1, n as int);
            }
        }
        let ghost st = contain_run(is, k as int)->0;
        let ghost closed = close_blocks(st.ends, st.gotos, k as int);
        let ghost mut placed_so_far: Seq<InstructionView> = Seq::empty();
        while gotos.len() > 0 && k > ends[ends.len() - 1]
            invariant
                ends@.len() == gotos@.len() + 1,
                forall|i: int| 0 <= i < ends@.len() ==> #[trigger] ends@[i] <= n,
                close_blocks(ends@, gotos@, k as int).0 == closed.0,
                close_blocks(ends@, gotos@, k as int).1 == closed.1,
                placed_so_far + close_blocks(ends@, gotos@, k as int).2 == closed.2,
                instructions_view(out@) == st.out + placed_so_far,
                changed == (st.changed || placed_so_far.len() > 0),
            decreases gotos@.len(),
        {
            let ghost before_out = instructions_view(out@);
            let ghost rest = close_blocks(ends@.drop_last(), gotos@.drop_last(), k as int);
            ends.pop();
            let g = gotos.pop().unwrap();
            match g {
                Some(g) => {
                    out.push(LogicInstruction::Goto(g));
                    changed = true;
                    proof {
                        assert(instructions_view(out@) =~= before_out.push(
                            InstructionView::Goto { address: g.address, jump_address: g.jump_address },
                        ));
                    }
                },
                None => {},
            }
            proof {
                assert(placed_so_far + placed(g) + rest.2 =~= placed_so_far + (placed(g) + rest.2));
                placed_so_far = placed_so_far + placed(g);
                assert(instructions_view(out@) =~= st.out + placed_so_far);
            }
        }
        proof {
            assert(close_blocks(ends@, gotos@, k as int).2 =~= Seq::<InstructionView>::empty());
            assert(placed_so_far =~= closed.2);
            assert(contain_run(is, k + 1) == contain_step(is, st, k as int));
            assert(contain_step(is, st, k as int) is Some);
        }
        let ghost next_st = contain_step(is, st, k as int)->0;
        let instruction = &instructions[k];
        assert(is[k as int] == instruction@);
        match instruction {
            LogicInstruction::Condition(c) => {
                proof {
                    let b = c.skip_address;
                    assert(index_of@[b as int] == index_of@[b as int]);
                    assert(is[k as int] == InstructionView::Condition {
                        address: c.address,
                        clauses: is[k as int]->clauses,
                        skip_address: b,
                    });
                }
                let skip = index_of[c.skip_address as usize].unwrap();
                proof {
                    lemma_last_index_bounds(is, c.skip_address, n as int);
                }
                assert(last_index_of(is, c.skip_address, n as int) == Some(skip as int));
                let containing = ends[ends.len() - 1];
                assert(containing == closed.0.last());
                if skip > containing {
                    let a: u16 = match next_address {
                        Some(m) => m + 1,
                        None => 0,
                    };
                    next_address = Some(a);
                    let ghost before_out = instructions_view(out@);
                    let dup = instruction.duplicate();
                    match dup {
                        LogicInstruction::Condition(mut cc) => {
                            cc.skip_address = a;
                            out.push(LogicInstruction::Condition(cc));
                        },
                        _ => {},
                    }
                    proof {
                        assert(instructions_view(out@) =~= before_out.push(
                            InstructionView::Condition { address: c.address, clauses: is[k as int]->clauses, skip_address: a },
                        ));
                    }
                    ends.push(containing);
                    gotos.push(Some(LogicGoto { address: a, jump_address: c.skip_address }));
                    changed = true;
                } else {
                    let ghost before_out = instructions_view(out@);
                    out.push(instruction.duplicate());
                    proof {
                        assert(instructions_view(out@) =~= before_out.push(is[k as int]));
                    }
                    ends.push(skip);
                    gotos.push(None);
                }
            },
            _ => {
                let ghost before_out = instructions_view(out@);
                out.push(instruction.duplicate());
                proof {
                    assert(instructions_view(out@) =~= before_out.push(is[k as int]));
                }
            },
        }
        proof {
            assert(ends@ =~= next_st.ends);
            assert(gotos@ =~= next_st.gotos);
            assert(instructions_view(out@) =~= next_st.out);
        }
        k = k + 1;
    }
    if changed {
        *instructions = out;
        PostCompilationPassResult::Changed
    } else {
        PostCompilationPassResult::Unchanged
    }
}

} // verus!
