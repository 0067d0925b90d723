//! The origins of the operand stack at the entry of every block.
use crate::control::is_interruption;
use crate::control::CompileControl;
use crate::control::CompileFailure;
use crate::ir::FrameSlot;
use crate::ir::OptimizedBlock;
use crate::ir::OptimizedIr;
use crate::ir::OptimizedNode;
use crate::ir::ScalarCall;
use crate::ir::ScalarValue;
use crate::names::name_is;
use crate::provenance::input_count;
use crate::provenance::phis_in_range;
use crate::provenance::resolve_opt_phi_provenance;
use crate::provenance::resolved;
use crate::provenance::OptProvenance;
use crate::provenance::ProvenanceBudget;
use crate::runtime::FeedbackRepresentation;
use crate::specialization::NumericSpecialization;
use std::collections::BTreeMap;
use vstd::prelude::*;

verus! {

broadcast use vstd::std_specs::btree::group_btree_axioms;

/// Bytes of analysis state per scalar value: its origin and a guarded alias.
pub const VALUE_STATE_BYTES: usize = 24;

/// Bytes of a retained origin.
pub const PROVENANCE_BYTES: usize = 16;

/// Bytes allowed for the map node of one block.
pub const BLOCK_STATE_BYTES: usize = 512;

pub const MAX_PROVENANCE_WORK: usize = 1_048_576;

/// A conversion to a property key that accepts only values which convert to
/// themselves: the result is the very same borrowed value.
pub open spec fn is_key_conversion(node: OptimizedNode) -> bool {
    node.is_bytecode() && node.name() == "to_propkey"@
}

pub open spec fn valid_key_conversion(node: OptimizedNode) -> bool {
    &&& node.outputs@.len() == 1
    &&& node.frame_stack matches Some(stack) && stack@.len() > 0
}

/// The value that `value` is the same as, by the first `n` nodes.
pub open spec fn alias_of(ir: OptimizedIr, value: int, n: nat) -> Option<usize>
    decreases n,
{
    if n == 0 {
        None
    } else {
        let node = ir.nodes@[n - 1];
        if is_key_conversion(node) && node.outputs@[0] == value {
            Some(node.frame_stack->Some_0@.last())
        } else {
            alias_of(ir, value, (n - 1) as nat)
        }
    }
}

/// A call leaves its result in an owning stack slot, unless it was replaced by
/// scalar code or always returned an unboxed value.
pub open spec fn call_origin(ir: OptimizedIr, s: NumericSpecialization, call: ScalarCall) -> OptProvenance {
    let pc = ir.nodes@[call.frame_state_node as int].pc;
    if call.frame_inline {
        OptProvenance::OwnedSlot
    } else if call.inline is Some || s.calls@.contains_key(pc) && s.calls@[pc].result != FeedbackRepresentation::HeapRef {
        OptProvenance::ImmediatePrimitive
    } else {
        OptProvenance::OwnedSlot
    }
}

/// The origin that a value has by itself; a phi has none.
pub open spec fn own_origin(ir: OptimizedIr, s: NumericSpecialization, i: int) -> Option<OptProvenance> {
    match ir.values@[i] {
        ScalarValue::Int32(_) | ScalarValue::Bool(_) | ScalarValue::Binary | ScalarValue::Update | ScalarValue::Bitwise
        | ScalarValue::Compare => Some(OptProvenance::ImmediatePrimitive),
        ScalarValue::Input { block_pc, slot } => if block_pc == 0 {
            match slot {
                FrameSlot::Argument(index) => Some(OptProvenance::Argument(index as usize)),
                FrameSlot::Local(index) => Some(OptProvenance::Local(index as usize)),
                FrameSlot::Stack(_) => Some(OptProvenance::Unknown),
            }
        } else {
            Some(OptProvenance::Unknown)
        },
        ScalarValue::FrameRead { slot } => match slot {
            FrameSlot::Argument(index) => Some(OptProvenance::Argument(index as usize)),
            FrameSlot::Local(index) => Some(OptProvenance::Local(index as usize)),
            FrameSlot::Stack(_) => Some(OptProvenance::Unknown),
        },
        ScalarValue::Call(call) => Some(call_origin(ir, s, call)),
        ScalarValue::Phi { .. } => None,
        ScalarValue::GetProperty | ScalarValue::GetElement | ScalarValue::Opaque => Some(OptProvenance::Unknown),
    }
}

pub open spec fn seed_of(ir: OptimizedIr, s: NumericSpecialization, i: int) -> Option<OptProvenance> {
    if alias_of(ir, i, ir.nodes@.len()) is Some {
        None
    } else {
        own_origin(ir, s, i)
    }
}

pub open spec fn seeds(ir: OptimizedIr, s: NumericSpecialization) -> Seq<Option<OptProvenance>> {
    Seq::new(ir.values@.len(), |i: int| seed_of(ir, s, i))
}

/// The values that flow into value `i`, if it has no origin of its own.
pub open spec fn row_of(ir: OptimizedIr, i: int) -> Option<Seq<usize>> {
    let alias = alias_of(ir, i, ir.nodes@.len());
    let inputs = match ir.values@[i] {
        ScalarValue::Phi { inputs } => inputs@,
        _ => Seq::empty(),
    };
    if alias is Some {
        Some(inputs.push(alias->Some_0))
    } else if ir.values@[i] is Phi {
        Some(inputs)
    } else {
        None
    }
}

pub open spec fn rows_match(ir: OptimizedIr, phis: Seq<Option<Vec<usize>>>) -> bool {
    &&& phis.len() == ir.values@.len()
    &&& forall|i: int|
        0 <= i < phis.len() ==> match #[trigger] phis[i] {
            Some(row) => row_of(ir, i) == Some(row@),
            None => row_of(ir, i) is None,
        }
}

/// The origin of stack slot `slot` by the first `n` inputs of a block.
pub open spec fn slot_origin(inputs: Seq<(FrameSlot, usize)>, v: Seq<Option<OptProvenance>>, slot: int, n: nat) -> OptProvenance
    decreases n,
{
    if n == 0 {
        OptProvenance::Unknown
    } else if inputs[n - 1].0 matches FrameSlot::Stack(index) && index == slot {
        let value = inputs[n - 1].1 as int;
        if value < v.len() && v[value] is Some {
            v[value]->Some_0
        } else {
            OptProvenance::Unknown
        }
    } else {
        slot_origin(inputs, v, slot, (n - 1) as nat)
    }
}

pub open spec fn entry_of(block: OptimizedBlock, v: Seq<Option<OptProvenance>>) -> Seq<OptProvenance> {
    Seq::new(block.stack_depth as nat, |k: int| slot_origin(block.inputs@, v, k, block.inputs@.len()))
}

pub open spec fn is_last_block_at(ir: OptimizedIr, i: int, n: int) -> bool {
    forall|k: int| i < k < n ==> (#[trigger] ir.blocks@[k]).start_pc != ir.blocks@[i].start_pc
}

/// `entries` holds the entry states of the first `n` blocks.
pub open spec fn entries_are(
    ir: OptimizedIr,
    v: Seq<Option<OptProvenance>>,
    entries: Map<u32, Vec<OptProvenance>>,
    n: int,
) -> bool {
    &&& forall|i: int|
        0 <= i < n && #[trigger] is_last_block_at(ir, i, n) ==> entries.contains_key(ir.blocks@[i].start_pc)
            && entries[ir.blocks@[i].start_pc]@ == entry_of(ir.blocks@[i], v)
    &&& forall|pc: u32| #[trigger]
        entries.contains_key(pc) ==> exists|i: int| 0 <= i < n && (#[trigger] ir.blocks@[i]).start_pc == pc
}

/// The state that the analysis computes.
pub open spec fn cfg_entries(ir: OptimizedIr, s: NumericSpecialization, entries: Map<u32, Vec<OptProvenance>>) -> bool {
    exists|phis: Seq<Option<Vec<usize>>>, v: Seq<Option<OptProvenance>>| #[trigger]
        resolved(seeds(ir, s), phis, v) && rows_match(ir, phis) && phis_in_range(phis, ir.values@.len()) && entries_are(
            ir,
            v,
            entries,
            ir.blocks@.len() as int,
        )
}

/// Key conversions, calls, phis and block inputs name what exists.
pub open spec fn cfg_valid(ir: OptimizedIr) -> bool {
    &&& forall|i: int|
        0 <= i < ir.nodes@.len() && is_key_conversion(#[trigger] ir.nodes@[i]) ==> valid_key_conversion(ir.nodes@[i])
    &&& forall|i: int|
        0 <= i < ir.values@.len() ==> match #[trigger] ir.values@[i] {
            ScalarValue::Call(call) => call.frame_state_node < ir.nodes@.len(),
            _ => true,
        }
    &&& forall|i: int, k: int|
        #![trigger row_of(ir, i)->Some_0[k]]
        0 <= i < ir.values@.len() && row_of(ir, i) is Some && 0 <= k < row_of(ir, i)->Some_0.len() ==> row_of(
            ir,
            i,
        )->Some_0[k] < ir.values@.len()
    &&& forall|b: int, k: int|
        #![trigger ir.blocks@[b].inputs@[k]]
        0 <= b < ir.blocks@.len() && 0 <= k < ir.blocks@[b].inputs@.len() ==> (ir.blocks@[b].inputs@[k].0 matches FrameSlot::Stack(
            index,
        ) ==> index < ir.blocks@[b].stack_depth)
}

pub open spec fn bit_length(n: nat) -> nat
    decreases n,
{
    if n == 0 {
        0
    } else {
        1 + bit_length(n / 2)
    }
}

/// Bytes of state retained for the first `n` blocks.
pub open spec fn block_bytes(ir: OptimizedIr, n: nat) -> nat
    decreases n,
{
    if n == 0 {
        0
    } else {
        block_bytes(ir, (n - 1) as nat) + (ir.blocks@[n - 1].stack_depth as nat) * (PROVENANCE_BYTES as nat) + (
        BLOCK_STATE_BYTES as nat)
    }
}

pub open spec fn scratch_bytes(ir: OptimizedIr) -> nat {
    ir.values@.len() * (VALUE_STATE_BYTES as nat) + block_bytes(ir, ir.blocks@.len())
}

/// Work for the entry states of the first `n` blocks.
pub open spec fn block_work(ir: OptimizedIr, n: nat) -> nat
    decreases n,
{
    if n == 0 {
        0
    } else {
        block_work(ir, (n - 1) as nat) + 1 + 2 * bit_length(ir.blocks@.len()) + (ir.blocks@[n - 1].stack_depth as nat)
            + ir.blocks@[n - 1].inputs@.len()
    }
}

/// The number of values that flow into the first `n` values.
pub open spec fn row_inputs(ir: OptimizedIr, n: nat) -> nat
    decreases n,
{
    if n == 0 {
        0
    } else {
        row_inputs(ir, (n - 1) as nat) + if row_of(ir, n - 1) is Some {
            row_of(ir, n - 1)->Some_0.len()
        } else {
            0
        }
    }
}

pub open spec fn cfg_work(ir: OptimizedIr) -> nat {
    2 * ir.values@.len() + ir.blocks@.len() + ir.nodes@.len() + (2 * ir.values@.len() + 1) * (2 * ir.values@.len()
        + row_inputs(ir, ir.values@.len())) + block_work(ir, ir.blocks@.len())
}

proof fn rows_cost(ir: OptimizedIr, phis: Seq<Option<Vec<usize>>>, n: nat)
    requires
        rows_match(ir, phis),
        n <= phis.len(),
    ensures
        input_count(phis, n) == row_inputs(ir, n),
    decreases n,
{
    if n > 0 {
        rows_cost(ir, phis, (n - 1) as nat);
        let row = phis[n - 1];
        assert(row is Some ==> row_of(ir, n - 1) == Some(row->Some_0@));
    }
}

pub open spec fn work_limit(ir: OptimizedIr) -> int {
    if (ir.values@.len() + ir.blocks@.len()) * 128 <= MAX_PROVENANCE_WORK {
        (ir.values@.len() + ir.blocks@.len()) * 128int
    } else {
        MAX_PROVENANCE_WORK as int
    }
}

/// What the analysis costs at least: the equations are gone through once.
pub open spec fn cfg_least_work(ir: OptimizedIr) -> nat {
    4 * ir.values@.len() + ir.blocks@.len() + ir.nodes@.len() + row_inputs(ir, ir.values@.len()) + block_work(
        ir,
        ir.blocks@.len(),
    )
}

/// The stack fits every block, and the analysis fits the memory limit.
pub open spec fn cfg_fits(ir: OptimizedIr, stack_slots: usize, live_bytes: usize, control: Option<&CompileControl>) -> bool {
    &&& forall|b: int| 0 <= b < ir.blocks@.len() ==> (#[trigger] ir.blocks@[b]).stack_depth <= stack_slots
    &&& scratch_bytes(ir) <= usize::MAX
    &&& control matches Some(c) ==> live_bytes + scratch_bytes(ir) <= c.ir_limit()
}

/// The analysis fits the memory limit, and its work the limit on work.
pub open spec fn cfg_affordable(ir: OptimizedIr, stack_slots: usize, live_bytes: usize, control: Option<&CompileControl>) -> bool {
    cfg_fits(ir, stack_slots, live_bytes, control) && cfg_work(ir) <= work_limit(ir)
}

pub fn bits(n: usize) -> (r: usize)
    ensures
        r == bit_length(n as nat),
        r <= 64,
{
    let mut m: usize = n;
    let mut r: usize = 0;
    proof {
        bit_length_bound(n as nat);
    }
    while m > 0
        invariant
            r + bit_length(m as nat) == bit_length(n as nat),
            bit_length(n as nat) <= 64,
        decreases m,
    {
        m = m / 2;
        r = r + 1;
    }
    r
}

spec fn two_to(n: nat) -> nat
    decreases n,
{
    if n == 0 {
        1
    } else {
        2 * two_to((n - 1) as nat)
    }
}

proof fn bit_length_below(n: nat, b: nat)
    requires
        n < two_to(b),
    ensures
        bit_length(n) <= b,
    decreases b,
{
    if n > 0 && b > 0 {
        bit_length_below(n / 2, (b - 1) as nat);
    }
}

proof fn bit_length_bound(n: nat)
    requires
        n <= usize::MAX,
    ensures
        bit_length(n) <= 64,
{
    assert(two_to(64) == 0x1_0000_0000_0000_0000) by {
        reveal_with_fuel(two_to, 65);
    }
    bit_length_below(n, 64);
}

/// How a step of the analysis that costs `cost` may fail.
spec fn step_failure(ir: OptimizedIr, budget: ProvenanceBudget<'_>, cost: nat, e: CompileFailure) -> bool {
    ||| is_interruption(e) && budget.control is Some
    ||| e == CompileFailure::ResourceLimit && budget.work < cost
    ||| e == CompileFailure::InvalidArtifact && !cfg_valid(ir)
}

fn charge_blocks(ir: &OptimizedIr, stack_slots: usize, budget: &mut ProvenanceBudget<'_>) -> (r: Result<usize, CompileFailure>)
    ensures
        final(budget).control == old(budget).control,
        r matches Ok(bytes) ==> final(budget).work == old(budget).work - ir.blocks@.len() && bytes == scratch_bytes(*ir)
            && forall|b: int| 0 <= b < ir.blocks@.len() ==> (#[trigger] ir.blocks@[b]).stack_depth <= stack_slots,
        r matches Err(e) ==> {
            ||| step_failure(*ir, *old(budget), ir.blocks@.len(), e)
            ||| e == CompileFailure::ResourceLimit && scratch_bytes(*ir) > usize::MAX
            ||| e == CompileFailure::ResourceLimit && exists|b: int|
                0 <= b < ir.blocks@.len() && (#[trigger] ir.blocks@[b]).stack_depth > stack_slots
        },
{
    let total: u128 = ir.values.len() as u128 * 24;
    if total > usize::MAX as u128 {
        return Err(CompileFailure::ResourceLimit);
    }
    let mut scratch: usize = total as usize;
    let mut i: usize = 0;
    while i < ir.blocks.len()
        invariant
            i <= ir.blocks@.len(),
            budget.control == old(budget).control,
            budget.work == old(budget).work - i,
            scratch == ir.values@.len() * 24 + block_bytes(*ir, i as nat),
            forall|b: int| 0 <= b < i ==> (#[trigger] ir.blocks@[b]).stack_depth <= stack_slots,
        decreases ir.blocks@.len() - i,
    {
        if let Err(e) = budget.charge(1) {
            return Err(e);
        }
        let depth: usize = ir.blocks[i].stack_depth as usize;
        if depth > stack_slots {
            return Err(CompileFailure::ResourceLimit);
        }
        let bytes: usize = depth * PROVENANCE_BYTES + BLOCK_STATE_BYTES;
        if scratch > usize::MAX - bytes {
            proof {
                block_bytes_monotone(*ir, (i + 1) as nat, ir.blocks@.len());
            }
            return Err(CompileFailure::ResourceLimit);
        }
        scratch = scratch + bytes;
        i = i + 1;
    }
    Ok(scratch)
}

proof fn block_bytes_monotone(ir: OptimizedIr, a: nat, b: nat)
    requires
        a <= b,
    ensures
        block_bytes(ir, a) <= block_bytes(ir, b),
    decreases b,
{
    if a < b {
        block_bytes_monotone(ir, a, (b - 1) as nat);
    }
}

proof fn block_work_monotone(ir: OptimizedIr, a: nat, b: nat)
    requires
        a <= b,
    ensures
        block_work(ir, a) <= block_work(ir, b),
    decreases b,
{
    if a < b {
        block_work_monotone(ir, a, (b - 1) as nat);
    }
}

fn key_aliases(ir: &OptimizedIr, budget: &mut ProvenanceBudget<'_>) -> (r: Result<Vec<Option<usize>>, CompileFailure>)
    requires
        ir.wf(),
    ensures
        final(budget).control == old(budget).control,
        r matches Ok(aliases) ==> {
            &&& final(budget).work == old(budget).work - ir.nodes@.len()
            &&& aliases@.len() == ir.values@.len()
            &&& forall|v: int| 0 <= v < ir.values@.len() ==> #[trigger] aliases@[v] == alias_of(*ir, v, ir.nodes@.len())
        },
        r matches Err(e) ==> step_failure(*ir, *old(budget), ir.nodes@.len(), e),
{
    let mut aliases: Vec<Option<usize>> = Vec::new();
    let mut f: usize = 0;
    while f < ir.values.len()
        invariant
            f <= ir.values@.len(),
            aliases@.len() == f,
            forall|v: int| 0 <= v < f ==> #[trigger] aliases@[v] is None,
        decreases ir.values@.len() - f,
    {
        aliases.push(None);
        f = f + 1;
    }
    let mut i: usize = 0;
    while i < ir.nodes.len()
        invariant
            ir.wf(),
            i <= ir.nodes@.len(),
            budget.control == old(budget).control,
            budget.work == old(budget).work - i,
            aliases@.len() == ir.values@.len(),
            forall|v: int| 0 <= v < ir.values@.len() ==> #[trigger] aliases@[v] == alias_of(*ir, v, i as nat),
        decreases ir.nodes@.len() - i,
    {
        if let Err(e) = budget.charge(1) {
            return Err(e);
        }
        let node = &ir.nodes[i];
        assert(ir.nodes@[i as int].wf());
        let conversion: bool = match &node.kind {
            crate::ir::OptimizedNodeKind::Bytecode { opcode } => name_is(opcode.as_str(), "to_propkey"),
            _ => false,
        };
        assert(conversion == is_key_conversion(ir.nodes@[i as int]));
        if conversion {
            let source: usize = match &node.frame_stack {
                Some(stack) => if stack.len() > 0 {
                    stack[stack.len() - 1]
                } else {
                    return Err(CompileFailure::InvalidArtifact);
                },
                None => {
                    return Err(CompileFailure::InvalidArtifact);
                },
            };
            if node.outputs.len() != 1 {
                return Err(CompileFailure::InvalidArtifact);
            }
            assert(ir.nodes@[i as int].outputs@[0] < ir.values@.len());
            aliases.set(node.outputs[0], Some(source));
        }
        i = i + 1;
    }
    Ok(aliases)
}

fn origin_of_call(ir: &OptimizedIr, s: &NumericSpecialization, call: &ScalarCall) -> (r: OptProvenance)
    requires
        call.frame_state_node < ir.nodes@.len(),
    ensures
        r == call_origin(*ir, *s, *call),
{
    if call.frame_inline {
        return OptProvenance::OwnedSlot;
    }
    if call.inline.is_some() {
        return OptProvenance::ImmediatePrimitive;
    }
    let pc: u32 = ir.nodes[call.frame_state_node as usize].pc;
    match s.calls.get(&pc) {
        Some(site) => if site.result != FeedbackRepresentation::HeapRef {
            OptProvenance::ImmediatePrimitive
        } else {
            OptProvenance::OwnedSlot
        },
        None => OptProvenance::OwnedSlot,
    }
}

fn origin_of_slot(slot: FrameSlot) -> (r: OptProvenance)
    ensures
        r == (match slot {
            FrameSlot::Argument(index) => OptProvenance::Argument(index as usize),
            FrameSlot::Local(index) => OptProvenance::Local(index as usize),
            FrameSlot::Stack(_) => OptProvenance::Unknown,
        }),
{
    match slot {
        FrameSlot::Argument(index) => OptProvenance::Argument(index as usize),
        FrameSlot::Local(index) => OptProvenance::Local(index as usize),
        FrameSlot::Stack(_) => OptProvenance::Unknown,
    }
}

fn seed_values(
    ir: &OptimizedIr,
    s: &NumericSpecialization,
    aliases: &Vec<Option<usize>>,
    budget: &mut ProvenanceBudget<'_>,
) -> (r: Result<Vec<Option<OptProvenance>>, CompileFailure>)
    requires
        aliases@.len() == ir.values@.len(),
        forall|v: int| 0 <= v < ir.values@.len() ==> #[trigger] aliases@[v] == alias_of(*ir, v, ir.nodes@.len()),
    ensures
        final(budget).control == old(budget).control,
        r matches Ok(values) ==> final(budget).work == old(budget).work - ir.values@.len() && values@ == seeds(*ir, *s),
        r matches Err(e) ==> step_failure(*ir, *old(budget), ir.values@.len(), e),
{
    let mut values: Vec<Option<OptProvenance>> = Vec::new();
    let mut i: usize = 0;
    while i < ir.values.len()
        invariant
            i <= ir.values@.len(),
            budget.control == old(budget).control,
            budget.work == old(budget).work - i,
            aliases@.len() == ir.values@.len(),
            forall|v: int| 0 <= v < ir.values@.len() ==> #[trigger] aliases@[v] == alias_of(*ir, v, ir.nodes@.len()),
            values@.len() == i,
            forall|v: int| 0 <= v < i ==> #[trigger] values@[v] == seed_of(*ir, *s, v),
        decreases ir.values@.len() - i,
    {
        if let Err(e) = budget.charge(1) {
            return Err(e);
        }
        assert(aliases@[i as int] == alias_of(*ir, i as int, ir.nodes@.len()));
        let seed: Option<OptProvenance> = if aliases[i].is_some() {
            None
        } else {
            match &ir.values[i] {
                ScalarValue::Int32(_) | ScalarValue::Bool(_) | ScalarValue::Binary | ScalarValue::Update
                | ScalarValue::Bitwise | ScalarValue::Compare => Some(OptProvenance::ImmediatePrimitive),
                ScalarValue::Input { block_pc, slot } => if *block_pc == 0 {
                    Some(origin_of_slot(*slot))
                } else {
                    Some(OptProvenance::Unknown)
                },
                ScalarValue::FrameRead { slot } => Some(origin_of_slot(*slot)),
                ScalarValue::Call(call) => {
                    if call.frame_state_node as usize >= ir.nodes.len() {
                        assert(!cfg_valid(*ir)) by {
                            assert(ir.values@[i as int] is Call);
                        }
                        return Err(CompileFailure::InvalidArtifact);
                    }
                    Some(origin_of_call(ir, s, call))
                },
                ScalarValue::Phi { .. } => None,
                ScalarValue::GetProperty | ScalarValue::GetElement | ScalarValue::Opaque => Some(OptProvenance::Unknown),
            }
        };
        values.push(seed);
        i = i + 1;
    }
    assert(values@ =~= seeds(*ir, *s));
    Ok(values)
}

fn copy_row(inputs: &Vec<usize>, alias: Option<usize>) -> (r: Vec<usize>)
    ensures
        r@ == (if alias is Some { inputs@.push(alias->Some_0) } else { inputs@ }),
{
    let mut r: Vec<usize> = Vec::new();
    let mut i: usize = 0;
    while i < inputs.len()
        invariant
            i <= inputs@.len(),
            r@ =~= inputs@.take(i as int),
        decreases inputs@.len() - i,
    {
        r.push(inputs[i]);
        i = i + 1;
    }
    assert(r@ =~= inputs@);
    if let Some(value) = alias {
        r.push(value);
    }
    r
}

fn phi_rows(ir: &OptimizedIr, aliases: &Vec<Option<usize>>) -> (r: Vec<Option<Vec<usize>>>)
    requires
        aliases@.len() == ir.values@.len(),
        forall|v: int| 0 <= v < ir.values@.len() ==> #[trigger] aliases@[v] == alias_of(*ir, v, ir.nodes@.len()),
    ensures
        rows_match(*ir, r@),
{
    let mut rows: Vec<Option<Vec<usize>>> = Vec::new();
    let mut i: usize = 0;
    while i < ir.values.len()
        invariant
            i <= ir.values@.len(),
            aliases@.len() == ir.values@.len(),
            forall|v: int| 0 <= v < ir.values@.len() ==> #[trigger] aliases@[v] == alias_of(*ir, v, ir.nodes@.len()),
            rows@.len() == i,
            forall|k: int|
                0 <= k < i ==> match #[trigger] rows@[k] {
                    Some(row) => row_of(*ir, k) == Some(row@),
                    None => row_of(*ir, k) is None,
                },
        decreases ir.values@.len() - i,
    {
        assert(aliases@[i as int] == alias_of(*ir, i as int, ir.nodes@.len()));
        let row: Option<Vec<usize>> = match &ir.values[i] {
            ScalarValue::Phi { inputs } => Some(copy_row(inputs, aliases[i])),
            _ => match aliases[i] {
                Some(value) => {
                    let mut single: Vec<usize> = Vec::new();
                    single.push(value);
                    Some(single)
                },
                None => None,
            },
        };
        rows.push(row);
        i = i + 1;
    }
    rows
}

fn block_entry(
    ir: &OptimizedIr,
    b: usize,
    values: &Vec<Option<OptProvenance>>,
    budget: &mut ProvenanceBudget<'_>,
) -> (r: Result<Vec<OptProvenance>, CompileFailure>)
    requires
        b < ir.blocks@.len(),
    ensures
        final(budget).control == old(budget).control,
        r matches Ok(entry) ==> final(budget).work == old(budget).work - ir.blocks@[b as int].stack_depth
            - ir.blocks@[b as int].inputs@.len() && entry@ == entry_of(ir.blocks@[b as int], values@),
        r matches Err(e) ==> step_failure(
            *ir,
            *old(budget),
            (ir.blocks@[b as int].stack_depth + ir.blocks@[b as int].inputs@.len()) as nat,
            e,
        ),
{
    let block = &ir.blocks[b];
    let depth: usize = block.stack_depth as usize;
    if let Err(e) = budget.charge(depth) {
        return Err(e);
    }
    let mut entry: Vec<OptProvenance> = Vec::new();
    let mut d: usize = 0;
    while d < depth
        invariant
            d <= depth,
            entry@.len() == d,
            forall|k: int| 0 <= k < d ==> #[trigger] entry@[k] == OptProvenance::Unknown,
        decreases depth - d,
    {
        entry.push(OptProvenance::Unknown);
        d = d + 1;
    }
    let mut i: usize = 0;
    while i < block.inputs.len()
        invariant
            i <= block.inputs@.len(),
            b < ir.blocks@.len(),
            block == ir.blocks@[b as int],
            depth == block.stack_depth,
            budget.control == old(budget).control,
            budget.work == old(budget).work - depth - i,
            entry@.len() == depth,
            forall|k: int| 0 <= k < depth ==> #[trigger] entry@[k] == slot_origin(block.inputs@, values@, k, i as nat),
        decreases block.inputs@.len() - i,
    {
        if let Err(e) = budget.charge(1) {
            return Err(e);
        }
        let (slot, value): (FrameSlot, usize) = block.inputs[i];
        if let FrameSlot::Stack(index) = slot {
            if index as usize >= depth {
                assert(!cfg_valid(*ir)) by {
                    assert(ir.blocks@[b as int].inputs@[i as int].0 is Stack);
                }
                return Err(CompileFailure::InvalidArtifact);
            }
            let origin: OptProvenance = if value < values.len() {
                match values[value] {
                    Some(origin) => origin,
                    None => OptProvenance::Unknown,
                }
            } else {
                OptProvenance::Unknown
            };
            entry.set(index as usize, origin);
        }
        i = i + 1;
    }
    assert(entry@ =~= entry_of(*block, values@));
    Ok(entry)
}

proof fn entries_step(
    ir: OptimizedIr,
    v: Seq<Option<OptProvenance>>,
    entries: Map<u32, Vec<OptProvenance>>,
    entry: Vec<OptProvenance>,
    n: int,
)
    requires
        0 <= n < ir.blocks@.len(),
        entries_are(ir, v, entries, n),
        entry@ == entry_of(ir.blocks@[n], v),
    ensures
        entries_are(ir, v, entries.insert(ir.blocks@[n].start_pc, entry), n + 1),
{
    let next = entries.insert(ir.blocks@[n].start_pc, entry);
    assert forall|i: int| 0 <= i < n + 1 && #[trigger] is_last_block_at(ir, i, n + 1) implies next.contains_key(
        ir.blocks@[i].start_pc,
    ) && next[ir.blocks@[i].start_pc]@ == entry_of(ir.blocks@[i], v) by {
        if i < n {
            assert(ir.blocks@[n].start_pc != ir.blocks@[i].start_pc);
            assert(is_last_block_at(ir, i, n));
        }
    }
    assert forall|pc: u32| #[trigger] next.contains_key(pc) implies exists|i: int|
        0 <= i < n + 1 && (#[trigger] ir.blocks@[i]).start_pc == pc by {
        if pc == ir.blocks@[n].start_pc {
            assert(ir.blocks@[n].start_pc == pc);
        } else {
            assert(entries.contains_key(pc));
            let i = choose|i: int| 0 <= i < n && (#[trigger] ir.blocks@[i]).start_pc == pc;
            assert(ir.blocks@[i].start_pc == pc);
        }
    }
}

/// Computes the ownership and value-origin state at every block entry: a
/// borrowed value survives only where every incoming edge names the same root,
/// while primitive and slot-owned values merge by value class.
pub fn opt_cfg_entry_provenance(
    ir: &OptimizedIr,
    specialization: &NumericSpecialization,
    stack_slots: usize,
    live_analysis_bytes: usize,
    control: Option<&CompileControl>,
) -> (r: Result<BTreeMap<u32, Vec<OptProvenance>>, CompileFailure>)
    requires
        ir.wf(),
    ensures
        r matches Ok(entries) ==> cfg_entries(*ir, *specialization, entries@) && cfg_fits(
            *ir,
            stack_slots,
            live_analysis_bytes,
            control,
        ) && cfg_least_work(*ir) <= work_limit(*ir),
        r matches Err(e) ==> {
            ||| is_interruption(e) && control is Some
            ||| e == CompileFailure::ResourceLimit && !cfg_affordable(*ir, stack_slots, live_analysis_bytes, control)
            ||| e == CompileFailure::InvalidArtifact && !cfg_valid(*ir)
        },
{
    let n: usize = ir.values.len();
    let m: usize = ir.blocks.len();
    let wanted: u128 = (n as u128 + m as u128) * 128;
    let work: usize = if wanted <= MAX_PROVENANCE_WORK as u128 {
        wanted as usize
    } else {
        MAX_PROVENANCE_WORK
    };
    assert(work == work_limit(*ir));
    let mut budget = ProvenanceBudget { work, control };
    if let Err(e) = budget.charge(n) {
        return Err(e);
    }
    let scratch: usize = match charge_blocks(ir, stack_slots, &mut budget) {
        Ok(bytes) => bytes,
        Err(e) => return Err(e),
    };
    if let Some(c) = control {
        if live_analysis_bytes > usize::MAX - scratch {
            return Err(CompileFailure::ResourceLimit);
        }
        if let Err(e) = c.check_ir_bytes(live_analysis_bytes + scratch) {
            return Err(e);
        }
    }
    let aliases = match key_aliases(ir, &mut budget) {
        Ok(aliases) => aliases,
        Err(e) => return Err(e),
    };
    let rows = phi_rows(ir, &aliases);
    let ghost phis = rows@;
    let ghost total = cfg_work(*ir);
    proof {
        rows_cost(*ir, phis, n as nat);
    }
    let mut values = match seed_values(ir, specialization, &aliases, &mut budget) {
        Ok(values) => values,
        Err(e) => return Err(e),
    };
    let ghost before_resolve = budget.work;
    if let Err(e) = resolve_opt_phi_provenance(&mut values, &rows, &mut budget) {
        proof {
            if e == CompileFailure::InvalidArtifact {
                assert(!cfg_valid(*ir)) by {
                    let (i, k) = choose|i: int, k: int|
                        #![trigger phis[i]->Some_0@[k]]
                        0 <= i < n && phis[i] is Some && 0 <= k < phis[i]->Some_0@.len() && phis[i]->Some_0@[k] >= n;
                    assert(row_of(*ir, i) == Some(phis[i]->Some_0@));
                    assert(row_of(*ir, i)->Some_0[k] >= n);
                }
            }
        }
        return Err(e);
    }
    let ghost after_resolve = budget.work;
    assert(resolved(seeds(*ir, *specialization), phis, values@));
    let lookup: usize = bits(m);
    let mut entries: BTreeMap<u32, Vec<OptProvenance>> = BTreeMap::new();
    let mut b: usize = 0;
    while b < m
        invariant
            m == ir.blocks@.len(),
            b <= m,
            lookup == bit_length(m as nat),
            lookup <= 64,
            phis == rows@,
            total == cfg_work(*ir),
            n == ir.values@.len(),
            control is None ==> budget.control is None,
            budget.control == control,
            work >= total ==> after_resolve >= block_work(*ir, m as nat),
            work < total ==> !cfg_affordable(*ir, stack_slots, live_analysis_bytes, control),
            budget.work == after_resolve - block_work(*ir, b as nat),
            after_resolve <= work - cfg_least_work(*ir) + block_work(*ir, m as nat),
            cfg_fits(*ir, stack_slots, live_analysis_bytes, control),
            entries_are(*ir, values@, entries@, b as int),
        decreases m - b,
    {
        proof {
            block_work_monotone(*ir, (b + 1) as nat, m as nat);
        }
        if let Err(e) = budget.charge(1 + 2 * lookup) {
            return Err(e);
        }
        let entry = match block_entry(ir, b, &values, &mut budget) {
            Ok(entry) => entry,
            Err(e) => {
                return Err(e);
            },
        };
        proof {
            entries_step(*ir, values@, entries@, entry, b as int);
        }
        entries.insert(ir.blocks[b].start_pc, entry);
        b = b + 1;
    }
    Ok(entries)
}

} // verus!
