//! What the slots of a frame hold after they were read, restored, moved or cleared.
use crate::code::Event;
use crate::code::Status;
use crate::code::Ty;
use crate::code::World;
use crate::code::wrap;
use crate::entry_guards::countdown_post;
use crate::entry_guards::refilled_post;
use crate::entry_state::call_origin;
use crate::entry_state::own_origin;
use crate::entry_state::slot_origin;
use crate::frame::OptEnv;
use crate::helpers::flat_stack_slot;
use crate::helpers::is_borrowed;
use crate::helpers::owned_below;
use crate::ir::FrameSlot;
use crate::ir::OptimizedIr;
use crate::ir::ScalarCall;
use crate::ir::ScalarValue;
use crate::lower_moves::shuffled_vars;
use crate::lower_values::OptPair;
use crate::lower_values::OptVars;
use crate::opcode_laws::apart;
use crate::prologue::buffer_read;
use crate::prologue::cleared_vars;
use crate::prologue::slots_declared;
use crate::provenance::OptProvenance;
use crate::runtime::FeedbackRepresentation;
use crate::scalar::Bind;
use crate::scalar::PhiEdge;
use crate::scalar::assigned;
use crate::scalar::edge_source;
use crate::scalar::moved;
use crate::specialization::NumericSpecialization;
use crate::specialized_calls::provenance_after_call;
use crate::specialized_calls::shape_of;
use vstd::prelude::*;

verus! {

/// No variable stands for two of the slots.
pub open spec fn told_apart(slots: Seq<OptVars>) -> bool {
    &&& forall|i: int| 0 <= i < slots.len() ==> (#[trigger] slots[i]).payload != slots[i].tag
    &&& forall|i: int, j: int| 0 <= i < slots.len() && 0 <= j < slots.len() && i != j ==> apart(#[trigger] slots[i], #[trigger] slots[j])
}

/// The variables that a lowered function declares for its slots are told apart.
pub proof fn declared_slots_are_told_apart(
    slots: Seq<OptVars>,
    ty: Ty,
    lo: int,
    hi: int,
    insts: Seq<crate::code::Inst>,
)
    requires
        slots_declared(slots, ty, lo, hi, insts),
    ensures
        told_apart(slots),
{
    assert forall|i: int, j: int| 0 <= i < slots.len() && 0 <= j < slots.len() && i != j implies apart(
        #[trigger] slots[i],
        #[trigger] slots[j],
    ) by {
        if i < j {
            assert(slots[i].tag < slots[j].payload);
        } else {
            assert(slots[j].tag < slots[i].payload);
        }
    }
}

/// On entry each slot is read from its place in the frame, sixteen bytes behind
/// the one before: its payload first, then its tag. A raw loop keeps the low half
/// of the payload.
pub proof fn slots_are_read_in_a_row(
    int32_loop: bool,
    vars: Map<int, int>,
    trace: Seq<Event>,
    base: int,
    slots: Seq<OptVars>,
    k: nat,
    w: World,
    i: int,
)
    requires
        told_apart(slots),
        k <= slots.len(),
        0 <= i < k,
    ensures
        ({
            let r = buffer_read(int32_loop, vars, trace, base, slots, k, w);
            let n = trace.len() as int;
            &&& r.trace.len() == n + 2 * k
            &&& r.trace[n + 2 * i] matches Event::Load { ty, address, value } && ty == Ty::I64 && address == wrap(
                Ty::I64,
                base + 16 * i,
            ) && r.vars[slots[i].payload as int] == (if int32_loop { wrap(Ty::I32, value) } else { value })
            &&& r.trace[n + 2 * i + 1] matches Event::Load { ty, address, value } && ty == Ty::I64 && address == wrap(
                Ty::I64,
                base + 16 * i + 8,
            ) && r.vars[slots[i].tag as int] == value
        }),
    decreases k,
{
    reads_are_counted(int32_loop, vars, trace, base, slots, (k - 1) as nat, w);
    if i < k - 1 {
        slots_are_read_in_a_row(int32_loop, vars, trace, base, slots, (k - 1) as nat, w, i);
        assert(apart(slots[i], slots[k - 1]));
    }
}

proof fn reads_are_counted(
    int32_loop: bool,
    vars: Map<int, int>,
    trace: Seq<Event>,
    base: int,
    slots: Seq<OptVars>,
    k: nat,
    w: World,
)
    ensures
        buffer_read(int32_loop, vars, trace, base, slots, k, w).trace.len() == trace.len() + 2 * k,
    decreases k,
{
    if k > 0 {
        reads_are_counted(int32_loop, vars, trace, base, slots, (k - 1) as nat, w);
    }
}

/// A cleared slot holds `undefined`.
pub proof fn cleared_slots_are_undefined(vars: Map<int, int>, slots: Seq<OptVars>, k: nat, i: int)
    requires
        told_apart(slots),
        k <= slots.len(),
        0 <= i < k,
    ensures
        cleared_vars(vars, slots, k)[slots[i].payload as int] == 0,
        cleared_vars(vars, slots, k)[slots[i].tag as int] == 3,
    decreases k,
{
    if i < k - 1 {
        cleared_slots_are_undefined(vars, slots, (k - 1) as nat, i);
        assert(apart(slots[i], slots[k - 1]));
    }
}

/// A restored slot holds its scalar value.
pub proof fn restored_slots_hold_their_values(
    vars: Map<int, int>,
    vals: Map<int, int>,
    slots: Seq<OptVars>,
    ids: Seq<usize>,
    values: Map<usize, OptPair>,
    k: nat,
    i: int,
)
    requires
        told_apart(slots),
        k <= slots.len(),
        k <= ids.len(),
        0 <= i < k,
    ensures
        assigned(vars, vals, slots, ids, values, k)[slots[i].payload as int] == vals[values[ids[i]].payload as int],
        assigned(vars, vals, slots, ids, values, k)[slots[i].tag as int] == vals[values[ids[i]].tag as int],
    decreases k,
{
    if i < k - 1 {
        restored_slots_hold_their_values(vars, vals, slots, ids, values, (k - 1) as nat, i);
        assert(apart(slots[i], slots[k - 1]));
    }
}

/// The values that enter a block are moved all at once: each variable holds the
/// value of its source as it was before the moves.
pub proof fn moves_happen_at_once(
    vars: Map<int, int>,
    vals: Map<int, int>,
    moves: Seq<Bind>,
    values: Map<usize, OptPair>,
    k: nat,
    i: int,
)
    requires
        told_apart(moves.map_values(|b: Bind| b.slot)),
        k <= moves.len(),
        0 <= i < k,
    ensures
        moved(vars, vals, moves, values, k)[moves[i].slot.payload as int] == vals[values[moves[i].value].payload as int],
        moved(vars, vals, moves, values, k)[moves[i].slot.tag as int] == vals[values[moves[i].value].tag as int],
    decreases k,
{
    let slots = moves.map_values(|b: Bind| b.slot);
    assert(slots[i] == moves[i].slot);
    if i < k - 1 {
        moves_happen_at_once(vars, vals, moves, values, (k - 1) as nat, i);
        assert(slots[k - 1] == moves[k - 1].slot);
        assert(apart(slots[i], slots[k - 1]));
    }
}

/// What enters a block from another is what an edge between the two says.
pub proof fn entering_values_follow_an_edge(edges: Seq<PhiEdge>, target: usize, from: u32)
    ensures
        edge_source(edges, target, from) matches Some(source) ==> exists|i: int|
            0 <= i < edges.len() && (#[trigger] edges[i]).target == target && edges[i].predecessor == Some(from) && edges[i].source
                == source,
        edge_source(edges, target, from) is None ==> forall|i: int|
            0 <= i < edges.len() ==> !((#[trigger] edges[i]).target == target && edges[i].predecessor == Some(from)),
{
    let f = |i: int| edges[i].target == target && edges[i].predecessor == Some(from);
    crate::runtime::first_at_meaning(f, edges.len());
    if edge_source(edges, target, from) is None {
        assert forall|i: int| 0 <= i < edges.len() implies !((#[trigger] edges[i]).target == target && edges[i].predecessor
            == Some(from)) by {
            assert(!f(i));
        }
    }
}

/// A shuffle puts into each slot what the slot that its order names held before,
/// and leaves the slots below alone.
pub proof fn shuffles_move_what_was_there(
    vars: Map<int, int>,
    stack: Seq<OptVars>,
    start: int,
    order: Seq<usize>,
    k: nat,
    i: int,
)
    requires
        told_apart(stack),
        0 <= start,
        start + k <= stack.len(),
        k <= order.len(),
        0 <= i < start + k,
    ensures
        ({
            let after = shuffled_vars(vars, stack, start, order, k);
            let from = if i < start { stack[i] } else { stack[start + order[i - start]] };
            after[stack[i].payload as int] == vars[from.payload as int] && after[stack[i].tag as int] == vars[from.tag as int]
        }),
    decreases k,
{
    if k > 0 && i != start + k - 1 {
        shuffles_move_what_was_there(vars, stack, start, order, (k - 1) as nat, i);
        assert(apart(stack[i], stack[start + k - 1]));
    }
}

/// Where a value comes from when a block begins: computed values are primitives,
/// arguments and locals are borrowed from their own slots, and what the graph does
/// not say is unknown.
pub proof fn origins_of_values(ir: OptimizedIr, s: NumericSpecialization, i: int)
    ensures
        ir.values@[i] is Int32 || ir.values@[i] is Bool || ir.values@[i] is Binary || ir.values@[i] is Update || ir.values@[i] is Bitwise
            || ir.values@[i] is Compare ==> own_origin(ir, s, i) == Some(OptProvenance::ImmediatePrimitive),
        ir.values@[i] is GetProperty || ir.values@[i] is GetElement || ir.values@[i] is Opaque ==> own_origin(ir, s, i) == Some(
            OptProvenance::Unknown,
        ),
        ir.values@[i] is Phi ==> own_origin(ir, s, i) is None,
        ir.values@[i] matches ScalarValue::Input { block_pc, slot } ==> match slot {
            FrameSlot::Argument(index) => own_origin(ir, s, i) == Some(
                if block_pc == 0 { OptProvenance::Argument(index as usize) } else { OptProvenance::Unknown },
            ),
            FrameSlot::Local(index) => own_origin(ir, s, i) == Some(
                if block_pc == 0 { OptProvenance::Local(index as usize) } else { OptProvenance::Unknown },
            ),
            FrameSlot::Stack(_) => own_origin(ir, s, i) == Some(OptProvenance::Unknown),
        },
        ir.values@[i] matches ScalarValue::FrameRead { slot } ==> match slot {
            FrameSlot::Argument(index) => own_origin(ir, s, i) == Some(OptProvenance::Argument(index as usize)),
            FrameSlot::Local(index) => own_origin(ir, s, i) == Some(OptProvenance::Local(index as usize)),
            FrameSlot::Stack(_) => own_origin(ir, s, i) == Some(OptProvenance::Unknown),
        },
{
}

/// What a call leaves is taken for what the lowering of the call leaves: a callee
/// in place by its bytecode leaves an owner, a computed one a primitive, and the
/// runtime an owner unless feedback says that the result is none.
pub proof fn origins_of_calls(
    ir: OptimizedIr,
    s: NumericSpecialization,
    call: ScalarCall,
    provenance: Seq<OptProvenance>,
    depth: usize,
    argc: usize,
    has_this: bool,
)
    requires
        !call.frame_inline,
        call.inline is None,
        argc + 2 <= depth <= provenance.len(),
    ensures
        ({
            let pc = ir.nodes@[call.frame_state_node as int].pc;
            let scalar = s.calls@.contains_key(pc) && s.calls@[pc].result != FeedbackRepresentation::HeapRef;
            let shape = shape_of(depth, argc, has_this);
            provenance_after_call(provenance, shape, false, scalar)[shape.base as int] == call_origin(ir, s, call)
        }),
{
}

/// So do callees in place.
pub proof fn origins_of_callees_in_place(ir: OptimizedIr, s: NumericSpecialization, call: ScalarCall)
    ensures
        call.frame_inline ==> call_origin(ir, s, call) == OptProvenance::OwnedSlot,
        !call.frame_inline && call.inline is Some ==> call_origin(ir, s, call) == OptProvenance::ImmediatePrimitive,
{
}

/// What a stack slot holds when a block begins is what the block's last input for
/// that slot is, and unknown where there is none.
pub proof fn entries_follow_the_inputs(
    inputs: Seq<(FrameSlot, usize)>,
    v: Seq<Option<OptProvenance>>,
    slot: int,
    n: nat,
    i: int,
)
    requires
        n <= inputs.len(),
        0 <= i < n,
        inputs[i].0 matches FrameSlot::Stack(index) && index == slot,
        forall|j: int| i < j < n ==> !((#[trigger] inputs[j]).0 matches FrameSlot::Stack(index) && index == slot),
    ensures
        slot_origin(inputs, v, slot, n) == (if inputs[i].1 < v.len() && v[inputs[i].1 as int] is Some {
            v[inputs[i].1 as int]->Some_0
        } else {
            OptProvenance::Unknown
        }),
    decreases n,
{
    if i < n - 1 {
        assert(!(inputs[n - 1].0 matches FrameSlot::Stack(index) && index == slot));
        entries_follow_the_inputs(inputs, v, slot, (n - 1) as nat, i);
    }
}

/// A slot without an input is unknown.
pub proof fn entries_without_inputs_are_unknown(
    inputs: Seq<(FrameSlot, usize)>,
    v: Seq<Option<OptProvenance>>,
    slot: int,
    n: nat,
)
    requires
        n <= inputs.len(),
        forall|j: int| 0 <= j < n ==> !((#[trigger] inputs[j]).0 matches FrameSlot::Stack(index) && index == slot),
    ensures
        slot_origin(inputs, v, slot, n) == OptProvenance::Unknown,
    decreases n,
{
    if n > 0 {
        assert(!(inputs[n - 1].0 matches FrameSlot::Stack(index) && index == slot));
        entries_without_inputs_are_unknown(inputs, v, slot, (n - 1) as nat);
    }
}

/// Slots that were published as owners are owners; nothing else changes.
pub proof fn published_slots_are_owners(provenance: Seq<OptProvenance>, depth: int, k: int)
    requires
        0 <= k < provenance.len(),
    ensures
        k < depth && (provenance[k] is Argument || provenance[k] is Local) ==> owned_below(provenance, depth)[k]
            == OptProvenance::OwnedSlot,
        k >= depth || !(provenance[k] is Argument || provenance[k] is Local) ==> owned_below(provenance, depth)[k] == provenance[k],
        is_borrowed(provenance[k]) <==> provenance[k] is Argument || provenance[k] is Local,
{
}

/// The arguments, the locals and the operand stack stand in one row: no two slots
/// have one number.
pub proof fn flat_slots_are_in_a_row(env: OptEnv<'_>, i: int, j: int)
    ensures
        flat_stack_slot(env, 0) == env.arguments@.len() + env.locals@.len(),
        flat_stack_slot(env, i) - flat_stack_slot(env, j) == i - j,
{
}

/// A loop polls when its budget runs out: each turn takes one from it, and the
/// turn that takes the last one polls and fills it up again.
pub proof fn polls_come_when_the_budget_runs_out(
    st: Status,
    st2: Status,
    n: int,
    budget: usize,
    skip: usize,
    w: World,
)
    requires
        st is Run,
        countdown_post(st, st2, n, budget, skip, w),
        1 <= (w.observe)(st->Run_0.trace.len() as int) <= 64,
    ensures
        ({
            let s = st->Run_0;
            let left = (w.observe)(s.trace.len() as int);
            let t = if left == 1 { st2->Run_0 } else { st2->Wait_state };
            &&& left == 1 <==> st2 is Run
            &&& left > 1 <==> st2 is Wait && st2->Wait_block == skip
            &&& t.trace.len() == s.trace.len() + 2
            &&& t.trace.last() == Event::SlotStore { ty: Ty::I64, slot: budget as int, offset: 0, value: left - 1 }
        }),
{
}

/// The budget is filled up with sixty-four turns.
pub proof fn budgets_are_filled_up(st: Status, st2: Status, n: int, budget: usize, skip: usize)
    requires
        st is Run,
        refilled_post(st, st2, n, budget, skip),
    ensures
        st2 is Run,
        st2->Run_0.vars == st->Run_0.vars,
        st2->Run_0.trace == st->Run_0.trace.push(
            (Event::SlotStore { ty: Ty::I64, slot: budget as int, offset: 0, value: 64 }),
        ),
{
}

} // verus!
