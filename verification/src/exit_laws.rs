//! Where the frame and the exit record are written, and what is read back.
use crate::code::Event;
use crate::code::State;
use crate::code::Ty;
use crate::code::World;
use crate::code::wrap;
use crate::elements::root_slot;
use crate::entry_guards::guard_exit;
use crate::exits::deopt_trace;
use crate::exits::flush_trace;
use crate::exits::flush_vars;
use crate::exits::flushed_trace;
use crate::exits::flushed_vars;
use crate::exits::own_flow;
use crate::exits::own_step;
use crate::exits::pc_address;
use crate::exits::pc_store;
use crate::exits::slot_ownable;
use crate::exits::slot_stores;
use crate::exits::spill;
use crate::frame::CachedVars;
use crate::frame::OptEnv;
use crate::frame::RuntimeAbi;
use crate::frame::exit_record;
use crate::frame::helper_flow;
use crate::frame::map_identity;
use crate::frame::top_store;
use crate::inline_laws::asks;
use crate::inline_laws::writes;
use crate::lower_flow::branch_exit;
use crate::lower_values::OptVars;
use crate::lower_values::pair_loads;
use crate::lower_values::pair_stores;
use crate::property_access::property_deopt;
use crate::property_cache::PropertyCandidate;
use crate::property_cache::Steer;
use crate::property_cache::consulted;
use crate::property_cache::field_of;
use crate::property_cache::invalid_entry;
use crate::property_cache::stored;
use crate::property_cache::tag_of;
use crate::provenance::OptProvenance;
use crate::runtime::ObservedType;
use crate::runtime::ShapeObservation;
use crate::scalar::OperandMode;
use crate::scalar::ScalarCheck;
use crate::scalar::ScalarOperation;
use crate::scalar::check_needed;
use crate::scalar::operands_of;
use crate::specialized_calls::call_deopt;
use vstd::prelude::*;

verus! {

/// A value in memory is its payload and, eight bytes behind, its tag: what is
/// stored at an address is what is loaded from it.
pub proof fn values_are_loaded_where_they_are_stored(
    trace: Seq<Event>,
    before: Seq<Event>,
    address: int,
    payload: int,
    tag: int,
    found: int,
    kind: int,
)
    ensures
        ({
            let written = pair_stores(trace, address, payload, tag);
            let read = pair_loads(before, address, found, kind);
            let n = trace.len() as int;
            let m = before.len() as int;
            &&& written.len() == n + 2 && read.len() == m + 2
            &&& written[n] == Event::Store { ty: Ty::I64, address: read[m]->Load_address, value: payload }
            &&& written[n + 1] == Event::Store { ty: Ty::I64, address: read[m + 1]->Load_address, value: tag }
            &&& read[m]->Load_address == wrap(Ty::I64, address)
            &&& read[m + 1]->Load_address == wrap(Ty::I64, address + 8)
            &&& read[m]->Load_value == found && read[m + 1]->Load_value == kind
        }),
{
}

/// Slots of a frame are written one behind the other, each sixteen bytes wide, and
/// each with its own payload and tag.
pub proof fn slots_are_written_in_a_row(
    trace: Seq<Event>,
    base: int,
    vars: Map<int, int>,
    slots: Seq<OptVars>,
    k: nat,
    i: int,
)
    requires
        k <= slots.len(),
        0 <= i < k,
    ensures
        ({
            let written = slot_stores(trace, base, vars, slots, k);
            &&& written.len() == trace.len() + 2 * k
            &&& writes(written[trace.len() + 2 * i], base + 16 * i, vars[slots[i].payload as int])
            &&& writes(written[trace.len() + 2 * i + 1], base + 16 * i + 8, vars[slots[i].tag as int])
        }),
    decreases k,
{
    stores_are_counted(trace, base, vars, slots, (k - 1) as nat);
    if i < k - 1 {
        slots_are_written_in_a_row(trace, base, vars, slots, (k - 1) as nat, i);
    }
}

proof fn stores_are_counted(trace: Seq<Event>, base: int, vars: Map<int, int>, slots: Seq<OptVars>, k: nat)
    ensures
        slot_stores(trace, base, vars, slots, k).len() == trace.len() + 2 * k,
    decreases k,
{
    if k > 0 {
        stores_are_counted(trace, base, vars, slots, (k - 1) as nat);
    }
}

/// The exit record holds the kind of exit, the number of its frame map, where the
/// interpreter goes on, and a zero. Only a deoptimization names a map, and no two
/// guards name the same.
pub proof fn exits_are_recorded(trace: Seq<Event>, abi: RuntimeAbi, sret: int, kind: u32, resume: int, guard: u32, other: u32)
    ensures
        ({
            let r = exit_record(trace, abi, sret, kind, resume, guard);
            let n = trace.len() as int;
            &&& r.len() == n + 4
            &&& r[n] == Event::Store { ty: Ty::I32, address: wrap(Ty::I64, sret), value: wrap(Ty::I32, kind as int) }
            &&& r[n + 1] == Event::Store {
                ty: Ty::I32,
                address: wrap(Ty::I64, sret + 4),
                value: wrap(Ty::I32, map_identity(abi, kind, guard)),
            }
            &&& writes(r[n + 2], sret + 8, resume)
            &&& writes(r[n + 3], sret + 16, 0)
            &&& forall|k: int| 0 <= k < n ==> #[trigger] r[k] == trace[k]
        }),
        kind != abi.exit_deopt ==> map_identity(abi, kind, guard) == 0,
        kind == abi.exit_deopt ==> map_identity(abi, kind, guard) > 0,
        kind == abi.exit_deopt && guard < other < u32::MAX ==> map_identity(abi, kind, guard) < map_identity(abi, kind, other),
        kind == abi.exit_deopt && guard < u32::MAX ==> map_identity(abi, kind, guard) == guard + 1,
{
}

/// The top of the stack is published as the address behind its last slot, and the
/// program counter as an offset from the start of the bytecode.
pub proof fn stack_and_pc_are_published(
    trace: Seq<Event>,
    abi: RuntimeAbi,
    frame: int,
    stack_base: int,
    depth: int,
    pc: u32,
    w: World,
)
    ensures
        top_store(trace, abi, frame, stack_base, depth) == trace.push(
            Event::Store {
                ty: Ty::I64,
                address: wrap(Ty::I64, frame + abi.stack_top),
                value: wrap(Ty::I64, stack_base + 16 * depth),
            },
        ),
        ({
            let r = pc_store(trace, abi, frame, pc, w);
            let n = trace.len() as int;
            &&& r.len() == n + 2
            &&& r[n] matches Event::Load { address, value, .. } && address == wrap(Ty::I64, frame + abi.bytecode_start) && writes(
                r[n + 1],
                frame + abi.pc,
                wrap(Ty::I64, value + pc),
            ) && pc_address(trace, pc, w) == wrap(Ty::I64, value + pc)
        }),
{
}

/// A helper is called with its words, and control goes on where it answers zero;
/// otherwise the function leaves with an exception.
#[verifier::spinoff_prover]
#[verifier::rlimit(60)]
pub proof fn helpers_go_on_where_they_answer_zero(
    trace: Seq<Event>,
    env: OptEnv<'_>,
    s: State,
    depth: int,
    helper: usize,
    args: Seq<int>,
    w: World,
)
    ensures
        ({
            let flow = helper_flow(trace, env, s, depth, helper as int, args, w);
            let n = trace.len() as int;
            &&& asks(flow.trace, n + 2, *env.abi, s.vals[env.frame as int], helper, args)
            &&& flow.trace[n + 2] matches Event::Call { result, .. } && (flow.running <==> result == 0)
            &&& flow.running ==> flow.trace.len() == n + 3
            &&& !flow.running ==> flow.trace.len() == n + 8 && flow.trace[n + 4] == Event::Store {
                ty: Ty::I32,
                address: wrap(Ty::I64, s.vals[env.sret as int]),
                value: wrap(Ty::I32, env.abi.exit_exception as int),
            }
        }),
{
}

/// A borrowed value on the stack is made an owner before the function leaves, from
/// the argument or local that it was read from; others are left in place. A value
/// of which nothing is known stops the lowering.
#[verifier::spinoff_prover]
#[verifier::rlimit(60)]
pub proof fn borrowed_slots_become_owners(
    trace: Seq<Event>,
    env: OptEnv<'_>,
    s: State,
    slot: usize,
    index: int,
    w: World,
)
    requires
        0 <= index < 0x8000_0000,
        slot < 0x8000_0000,
        env.abi.owner_source_argument < 0x8000_0000,
        env.abi.owner_source_local < 0x8000_0000,
    ensures
        ({
            let frame = s.vals[env.frame as int];
            let base = s.vals[env.stack_base as int];
            let argument = own_step(trace, env, s, OptProvenance::Argument(slot), index, w);
            let local = own_step(trace, env, s, OptProvenance::Local(slot), index, w);
            let n = trace.len() as int;
            &&& asks(
                argument.trace,
                n + 4,
                *env.abi,
                frame,
                env.abi.helper_materialize_owner,
                seq![0int, index, env.abi.owner_source_argument as int, slot as int],
            )
            &&& asks(
                local.trace,
                n + 4,
                *env.abi,
                frame,
                env.abi.helper_materialize_owner,
                seq![0int, index, env.abi.owner_source_local as int, slot as int],
            )
            &&& writes(argument.trace[n], base + 16 * index, 0)
            &&& writes(argument.trace[n + 1], base + 16 * index + 8, 3)
            &&& own_step(trace, env, s, OptProvenance::OwnedSlot, index, w).trace == top_store(
                trace,
                *env.abi,
                frame,
                base,
                index + 1,
            )
            &&& own_step(trace, env, s, OptProvenance::ImmediatePrimitive, index, w).running
            &&& !slot_ownable(env, OptProvenance::Unknown)
            &&& slot_ownable(env, OptProvenance::OwnedSlot)
            &&& slot_ownable(env, OptProvenance::ImmediatePrimitive)
        }),
{
    let a = crate::frame::as_arguments(seq![0, index as u32, env.abi.owner_source_argument, slot as u32]);
    let b = crate::frame::as_arguments(seq![0, index as u32, env.abi.owner_source_local, slot as u32]);
    assert(a =~= seq![0int, index, env.abi.owner_source_argument as int, slot as int]);
    assert(b =~= seq![0int, index, env.abi.owner_source_local as int, slot as int]);
}

/// A promoted field is one of an object whose shape and the shape's generation are
/// those that were seen, and whose value has the tag that was seen. It lies behind
/// as many fields as its offset says.
#[verifier::spinoff_prover]
#[verifier::rlimit(60)]
pub proof fn fields_are_where_they_were_seen(
    abi: RuntimeAbi,
    property: ShapeObservation,
    expected: int,
    payload: int,
    tag: int,
    trace: Seq<Event>,
    w: World,
)
    ensures
        ({
            let f = field_of(abi, property, expected, payload, tag, trace, w);
            let n = trace.len() as int;
            &&& tag != -1 ==> !f.ok && f.trace == trace
            &&& forall|k: int| n <= k < f.trace.len() ==> (#[trigger] f.trace[k]) is Load
            &&& f.ok ==> {
                &&& f.tag == expected
                &&& f.trace.len() == n + 5
                &&& f.trace[n] matches Event::Load { address, value, .. } && address == wrap(
                    Ty::I64,
                    payload + abi.property.object_shape,
                ) && value == property.shape_identity as i64
                &&& f.trace[n + 1] matches Event::Load { value, .. } && value == property.shape_generation as i64
                &&& f.trace[n + 2] matches Event::Load { address, value, .. } && address == wrap(
                    Ty::I64,
                    payload + abi.property.object_properties,
                ) && f.data == wrap(Ty::I64, value + 16 * property.property_offset)
                &&& f.trace[n + 3] matches Event::Load { address, value, .. } && address == wrap(Ty::I64, f.data) && value
                    == f.payload
                &&& f.trace[n + 4] matches Event::Load { address, value, .. } && address == wrap(Ty::I64, f.data + 8) && value
                    == f.tag
            }
        }),
{
}

/// The tags of the types that a field can have; references are not promoted.
pub proof fn promoted_types_are_primitive(observed: ObservedType)
    ensures
        tag_of(ObservedType::Int32) == Some(0int),
        tag_of(ObservedType::Bool) == Some(1int),
        tag_of(ObservedType::Null) == Some(2int),
        tag_of(ObservedType::Undefined) == Some(3int),
        tag_of(ObservedType::Float64) == Some(8int),
        tag_of(observed) matches Some(tag) ==> tag >= 0,
        tag_of(ObservedType::Object) is None,
{
}

/// The variables of a promoted field differ from each other and from those of a
/// stack slot.
pub open spec fn entry_apart(e: CachedVars, slot: OptVars) -> bool {
    let own = seq![e.value.payload, e.value.tag, e.data, e.valid, e.dirty];
    &&& own.no_duplicates()
    &&& !own.contains(slot.payload)
    &&& !own.contains(slot.tag)
    &&& slot.payload != slot.tag
}

/// A store to a promoted field is kept until it is flushed, and then written to
/// the field's place: the value that was stored, once. A store of another type
/// than the field's does not go on.
#[verifier::spinoff_prover]
#[verifier::rlimit(60)]
pub proof fn promoted_stores_reach_the_field(candidate: PropertyCandidate, e: CachedVars, input: OptVars, before: Steer)
    requires
        entry_apart(e, input),
        before.ok,
    ensures
        ({
            let after = stored(candidate, e, input, before);
            let payload = before.vars[input.payload as int];
            let tag = before.vars[input.tag as int];
            let n = before.trace.len() as int;
            let written = flushed_trace(after.vars, after.trace, e);
            let clean = flushed_vars(after.vars, e);
            &&& after.ok <==> tag_of(candidate.observation.value)->Some_0 == tag
            &&& after.trace == before.trace
            &&& after.ok ==> {
                &&& after.vars[e.value.payload as int] == payload && after.vars[e.value.tag as int] == tag
                &&& written.len() == n + 2
                &&& writes(written[n], before.vars[e.data as int], payload)
                &&& writes(written[n + 1], before.vars[e.data as int] + 8, tag)
                &&& flushed_trace(clean, written, e) == written
                &&& clean[e.value.payload as int] == payload && clean[e.valid as int] == before.vars[e.valid as int]
            }
        }),
{
    let own = seq![e.value.payload, e.value.tag, e.data, e.valid, e.dirty];
    assert(own[0] == e.value.payload && own[1] == e.value.tag && own[2] == e.data && own[3] == e.valid && own[4] == e.dirty);
}

/// A read of a promoted field gives what was stored or loaded last, without a look
/// at the object, as long as the field is valid; an invalid one is loaded.
#[verifier::spinoff_prover]
#[verifier::rlimit(60)]
pub proof fn promoted_reads_give_the_last_value(
    env: OptEnv<'_>,
    candidate: PropertyCandidate,
    e: CachedVars,
    receiver: OptVars,
    vars: Map<int, int>,
    trace: Seq<Event>,
    w: World,
)
    requires
        entry_apart(e, receiver),
    ensures
        ({
            let r = consulted(env, candidate, e, false, receiver, vars, trace, w);
            let f = field_of(
                *env.abi,
                candidate.observation,
                tag_of(candidate.observation.value)->Some_0,
                vars[receiver.payload as int],
                vars[receiver.tag as int],
                trace,
                w,
            );
            &&& vars[e.valid as int] != 0 ==> r.ok && r.vars == vars && r.trace == trace
            &&& vars[e.valid as int] == 0 ==> r.ok == f.ok
            &&& vars[e.valid as int] == 0 && f.ok ==> {
                &&& r.vars[e.value.payload as int] == f.payload
                &&& r.vars[e.value.tag as int] == f.tag
                &&& r.vars[e.data as int] == f.data
                &&& r.vars[e.valid as int] == 1
                &&& r.vars[e.dirty as int] == vars[e.dirty as int]
            }
            &&& invalid_entry(vars, e)[e.valid as int] == 0
            &&& invalid_entry(vars, e)[e.dirty as int] == 0
        }),
{
    let own = seq![e.value.payload, e.value.tag, e.data, e.valid, e.dirty];
    assert(own[0] == e.value.payload && own[1] == e.value.tag && own[2] == e.data && own[3] == e.valid && own[4] == e.dirty);
}

/// The last four events record an exit of a kind, with the number of a frame map.
pub open spec fn leaves_as(trace: Seq<Event>, env: OptEnv<'_>, s: State, kind: u32, map: int) -> bool {
    let n = trace.len() as int;
    let sret = s.vals[env.sret as int];
    &&& n >= 4
    &&& trace[n - 4] == Event::Store { ty: Ty::I32, address: wrap(Ty::I64, sret), value: wrap(Ty::I32, kind as int) }
    &&& trace[n - 3] == Event::Store { ty: Ty::I32, address: wrap(Ty::I64, sret + 4), value: wrap(Ty::I32, map) }
}

proof fn failed_publications_raise(trace: Seq<Event>, env: OptEnv<'_>, s: State, provenance: Seq<OptProvenance>, k: nat, w: World)
    requires
        env.abi.exit_exception != env.abi.exit_deopt,
    ensures
        !own_flow(trace, env, s, provenance, k, w).running ==> leaves_as(
            own_flow(trace, env, s, provenance, k, w).trace,
            env,
            s,
            env.abi.exit_exception,
            0,
        ),
    decreases k,
{
    if k > 0 {
        failed_publications_raise(trace, env, s, provenance, (k - 1) as nat, w);
    }
}

/// Wherever a function gives up its code, it leaves as a deoptimization of its own
/// guard, whose map is the one behind the guard's number; or with an exception,
/// where a value on the stack could not be made an owner.
#[verifier::spinoff_prover]
#[verifier::rlimit(60)]
pub proof fn deoptimizations_name_their_guard(
    env: OptEnv<'_>,
    s: State,
    vars: Map<int, int>,
    trace: Seq<Event>,
    provenance: Seq<OptProvenance>,
    depth: nat,
    pc: u32,
    guard: u32,
    borrowed: bool,
    w: World,
)
    requires
        env.abi.exit_exception != env.abi.exit_deopt,
        guard < u32::MAX,
    ensures
        ({
            let ends = |t: Seq<Event>|
                leaves_as(t, env, s, env.abi.exit_deopt, guard + 1) || leaves_as(t, env, s, env.abi.exit_exception, 0);
            &&& leaves_as(guard_exit(env, s, pc, guard, w), env, s, env.abi.exit_deopt, guard + 1)
            &&& ends(deopt_trace(env, s, vars, trace, provenance, depth, pc, guard, w))
            &&& ends(branch_exit(env, s, provenance, depth, pc, guard, w))
            &&& ends(call_deopt(env, s, vars, trace, provenance, depth, pc, guard, w))
            &&& ends(property_deopt(env, s, borrowed, provenance, depth, pc, guard, trace, w))
        }),
{
    let abi = *env.abi;
    let frame = s.vals[env.frame as int];
    let base = s.vals[env.stack_base as int];
    let clean = flush_vars(vars, env.cache@, env.cache@.len());
    let spilled = spill(flush_trace(vars, trace, env.cache@, env.cache@.len()), env, s, clean, depth);
    let topped = top_store(spilled, abi, frame, base, depth as int);
    failed_publications_raise(pc_store(topped, abi, frame, pc, w), env, s, provenance, depth, w);
    let own_clean = flush_vars(s.vars, env.cache@, env.cache@.len());
    let own = spill(flush_trace(s.vars, s.trace, env.cache@, env.cache@.len()), env, s, own_clean, depth);
    failed_publications_raise(pc_store(own, abi, frame, pc, w), env, s, provenance, depth, w);
    let called = top_store(spill(trace, env, s, vars, depth), abi, frame, base, 0);
    failed_publications_raise(pc_store(called, abi, frame, pc, w), env, s, provenance, depth, w);
    let slots = slot_stores(
        slot_stores(trace, s.vals[env.arg_buf as int], s.vars, env.arguments@, env.arguments@.len()),
        s.vals[env.var_buf as int],
        s.vars,
        env.locals@,
        env.locals@.len(),
    );
    let read = slot_stores(top_store(pc_store(slots, abi, frame, pc, w), abi, frame, base, 0), base, s.vars, env.stack@, depth);
    failed_publications_raise(read, env, s, provenance, depth, w);
}

/// The runtime is asked for a length by the argument or local that the array was
/// read from, which the frame still holds.
pub proof fn roots_are_arguments_and_locals(env: OptEnv<'_>, slot: usize)
    ensures
        root_slot(env, OptProvenance::Argument(slot)) == Some(slot as int),
        root_slot(env, OptProvenance::Local(slot)) == Some(env.arguments@.len() + slot),
        root_slot(env, OptProvenance::OwnedSlot) is None,
        root_slot(env, OptProvenance::ImmediatePrimitive) is None,
        root_slot(env, OptProvenance::Unknown) is None,
{
}

/// A check of an operand is left out only where what it checks is proven.
pub proof fn skipped_checks_are_proven(check: ScalarCheck, proven: Seq<Option<OperandMode>>)
    requires
        !check.eliminated,
        !check_needed(check, proven),
    ensures
        check.value < proven.len(),
        proven[check.value as int] == Some(check.mode) || proven[check.value as int] is Some && check.mode == OperandMode::Number,
{
}

/// The operands of an operation, and the kind of number that it asks for: bits are
/// those of Int32, and comparisons take any numbers.
pub proof fn operations_name_their_operands(op: ScalarOperation)
    ensures
        op matches ScalarOperation::Binary { mode, lhs, rhs, .. } ==> operands_of(op).mode == mode && operands_of(op).lhs == lhs
            && operands_of(op).rhs == Some(rhs),
        op matches ScalarOperation::Bitwise { lhs, rhs, .. } ==> operands_of(op).mode == OperandMode::Int32 && operands_of(op).lhs
            == lhs && operands_of(op).rhs == Some(rhs),
        op matches ScalarOperation::Compare { lhs, rhs, .. } ==> operands_of(op).mode == OperandMode::Number && operands_of(op).lhs
            == lhs && operands_of(op).rhs == Some(rhs),
        op matches ScalarOperation::Update { mode, input, .. } ==> operands_of(op).mode == mode && operands_of(op).lhs == input
            && operands_of(op).rhs is None,
{
}

} // verus!
