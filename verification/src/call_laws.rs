//! What calls are given, what they answer, and when a callee is known.
use crate::call_code::CallShape;
use crate::call_code::Progress;
use crate::call_code::result_moved;
use crate::call_guards::CallTargetFact;
use crate::code::Event;
use crate::code::State;
use crate::code::Status;
use crate::code::Ty;
use crate::code::World;
use crate::control::CompileFailure;
use crate::entry_guards::SlotRequirements;
use crate::entry_guards::numeric_guard_post;
use crate::frame::OptEnv;
use crate::frame::RuntimeAbi;
use crate::guard_code::DirectCalleeIdentity;
use crate::guard_code::GuardState;
use crate::guard_code::callee_fits;
use crate::guard_code::callee_reads;
use crate::guard_code::probe_one;
use crate::guard_code::refreshed;
use crate::inline_laws::asks;
use crate::inline_laws::writes;
use crate::inlined_calls::RegionStep;
use crate::inlined_calls::StepOp;
use crate::inlined_calls::Tagged;
use crate::inlined_calls::computed_by;
use crate::inlined_calls::expected_tag;
use crate::inlined_calls::step_result;
use crate::inlined_calls::steps_pass;
use crate::lower_moves::release_flow;
use crate::lower_values::OptPair;
use crate::lower_values::OptVars;
use crate::number_laws::is_int32;
use crate::property_cache::Steer;
use crate::provenance::OptProvenance;
use crate::runtime::FeedbackRepresentation;
use crate::runtime::SidePathProfile;
use crate::scalar::ScalarBinaryOp;
use crate::specialization::EntryRepresentation;
use crate::specialized_calls::DirectCallSite;
use crate::specialized_calls::answered;
use crate::specialized_calls::call_refusal;
use crate::specialized_calls::direct_call;
use crate::specialized_calls::enters_directly;
use crate::specialized_calls::passed_type;
use crate::specialized_calls::passed_value;
use crate::specialized_calls::provenance_after_call;
use crate::specialized_calls::representation_tag;
use crate::specialized_calls::shape_of;
use crate::stages::Tier2CompileStage;
use vstd::prelude::*;

verus! {

/// A representation has the tag of its values and is passed in a type that holds
/// them: Int32 and truth values in 32 bits, doubles as doubles, references as
/// addresses. No two have one tag.
pub proof fn representations_have_their_tags(a: FeedbackRepresentation, b: FeedbackRepresentation)
    ensures
        representation_tag(FeedbackRepresentation::Int32) == 0,
        representation_tag(FeedbackRepresentation::Bool) == 1,
        representation_tag(FeedbackRepresentation::Float64) == 8,
        representation_tag(FeedbackRepresentation::HeapRef) == -1,
        a != b ==> representation_tag(a) != representation_tag(b),
        passed_type(a) == Ty::F64 <==> a == FeedbackRepresentation::Float64,
        passed_type(a) == Ty::I64 <==> a == FeedbackRepresentation::HeapRef,
        passed_type(a) == Ty::I32 <==> a == FeedbackRepresentation::Int32 || a == FeedbackRepresentation::Bool,
        a == FeedbackRepresentation::Int32 || a == FeedbackRepresentation::Bool ==> expected_tag(a) == representation_tag(a),
{
}

/// What is passed is the value itself, and so is what is answered.
pub proof fn values_are_passed_as_they_are(r: FeedbackRepresentation, x: int)
    requires
        r == FeedbackRepresentation::Int32 || r == FeedbackRepresentation::Bool ==> is_int32(x),
    ensures
        passed_value(r, x) == x,
        r == FeedbackRepresentation::Bool && x >= 0 || r != FeedbackRepresentation::Bool ==> answered(r, x) == x,
{
}

/// A callee that is entered directly is the one that was seen: the value is an
/// object, at the address that was seen, with the bytecode that was seen.
pub proof fn known_callees_are_the_ones_seen(
    abi: RuntimeAbi,
    identity: DirectCalleeIdentity,
    payload: int,
    tag: int,
    trace: Seq<Event>,
    w: World,
)
    ensures
        callee_fits(identity, payload, tag, trace, w) ==> {
            let after = callee_reads(abi, identity, payload, tag, trace, w);
            &&& tag == -1
            &&& payload == identity.object as i64
            &&& after.len() == trace.len() + 1
            &&& after.last() matches Event::Load { ty, address, value } && ty == Ty::I64 && value == identity.bytecode as i64 && (
            address - payload - abi.function_bytecode) % 0x1_0000_0000_0000_0000 == 0
        },
        tag != -1 || payload != identity.object as i64 ==> callee_reads(abi, identity, payload, tag, trace, w) == trace && !callee_fits(
            identity,
            payload,
            tag,
            trace,
            w,
        ),
{
}

/// A direct call goes on only where the callee is known, every argument has the
/// tag of its representation, and the entry answered zero. It is given the place
/// of its answer and the arguments in order, and leaves the answer in the callee's
/// slot with the tag of its representation.
#[verifier::spinoff_prover]
#[verifier::rlimit(60)]
pub proof fn direct_calls_pass_their_arguments(
    env: OptEnv<'_>,
    direct: DirectCallSite,
    vars: Map<int, int>,
    trace: Seq<Event>,
    at: int,
    w: World,
    i: int,
)
    requires
        env.stack@[at].payload != env.stack@[at].tag,
        0 <= i < direct.call.arguments@.len(),
    ensures
        ({
            let r = direct_call(env, direct, vars, trace, at, w);
            let kind = direct.call.arguments@[i];
            let argument = env.stack@[at + 1 + i];
            let n = r.trace.len() as int;
            r.ok ==> {
                &&& vars[env.stack@[at].tag as int] == -1
                &&& vars[env.stack@[at].payload as int] == direct.call.object_identity as i64
                &&& vars[argument.tag as int] == representation_tag(kind)
                &&& n >= 2
                &&& r.trace[n - 2] matches Event::Call { args, result, .. } && result == 0 && args.len()
                    == direct.call.arguments@.len() + 1 && args[i + 1] == passed_value(kind, vars[argument.payload as int])
                &&& r.trace[n - 1] matches Event::Load { ty, value, .. } && ty == passed_type(direct.call.result)
                    && r.vars[env.stack@[at].payload as int] == answered(direct.call.result, value)
                &&& r.vars[env.stack@[at].tag as int] == representation_tag(direct.call.result)
                &&& forall|v: int|
                    v != env.stack@[at].payload && v != env.stack@[at].tag ==> #[trigger] r.vars[v] == vars[v]
            }
        }),
{
    let r = direct_call(env, direct, vars, trace, at, w);
    if r.ok {
        assert(direct.call.arguments@[i] == direct.call.arguments@[i]);
    }
}

/// A call that does not go on has changed nothing that the caller sees.
pub proof fn missed_direct_calls_change_nothing(
    env: OptEnv<'_>,
    direct: DirectCallSite,
    vars: Map<int, int>,
    trace: Seq<Event>,
    at: int,
    w: World,
)
    ensures
        !direct_call(env, direct, vars, trace, at, w).ok ==> direct_call(env, direct, vars, trace, at, w).vars == vars,
{
}

/// The operands of a call stand on the stack in the order receiver, callee,
/// arguments. The runtime is told their slots, and writes its answer into a slot
/// above them all.
pub proof fn calls_name_their_operands(env: OptEnv<'_>, shape: CallShape)
    requires
        shape.wf(env.stack@.len() as int),
        env.arguments@.len() + env.locals@.len() + env.stack@.len() <= u32::MAX,
    ensures
        ({
            let words = shape.words(env);
            let first = env.arguments@.len() + env.locals@.len();
            let callee = shape.depth - shape.argc - 1;
            &&& words.len() == 6
            &&& words[0] == 0
            &&& words[1] == first + shape.output_index()
            &&& words[2] == first + callee
            &&& words[3] == first + (if shape.has_this { callee - 1 } else { shape.depth as int })
            &&& shape.argc > 0 ==> words[4] == first + callee + 1
            &&& shape.argc == 0 ==> words[4] == u32::MAX
            &&& words[5] == shape.argc as u32
            &&& shape.output_index() >= shape.depth
            &&& shape.output_index() != shape.displaced_index()
            &&& shape.displaced_index() >= shape.depth
            &&& !shape.has_this ==> shape.this_index() != shape.output_index()
            &&& shape.base == (if shape.has_this { callee - 1 } else { callee })
        }),
{
}

/// Everything that a call consumes is released, each slot once: what stood in the
/// lowest slot, which has been moved out of the way of the result, and the rest.
pub proof fn calls_release_their_operands(shape: CallShape, slots: int, index: int)
    requires
        shape.wf(slots),
    ensures
        shape.consumed().contains(index as usize) && 0 <= index <= usize::MAX <==> index == shape.displaced_index() || shape.base < index
            < shape.depth,
        shape.consumed().len() == shape.depth - shape.base,
        !shape.consumed().contains(shape.base),
        !shape.consumed().contains(shape.output_index() as usize),
{
    let consumed = shape.consumed();
    if index == shape.displaced_index() {
        assert(consumed[0] == index as usize);
    }
    if shape.base < index < shape.depth {
        assert(consumed[index - shape.base] == index as usize);
    }
}

/// The answer is moved from the slot that the runtime wrote into the lowest slot
/// of the operands, and what stood there is kept until it is released.
#[verifier::spinoff_prover]
#[verifier::rlimit(60)]
pub proof fn answers_replace_the_operands(env: OptEnv<'_>, s: State, shape: CallShape, p: Progress, w: World)
    requires
        shape.wf(env.stack@.len() as int),
        ({
            let first = env.stack@[shape.base as int];
            let other = env.stack@[shape.displaced_index()];
            &&& first.payload != first.tag && other.payload != other.tag
            &&& first.payload != other.payload && first.payload != other.tag && first.tag != other.payload && first.tag
                != other.tag
        }),
    ensures
        ({
            let r = result_moved(env, s, shape, p, w);
            let first = env.stack@[shape.base as int];
            let other = env.stack@[shape.displaced_index()];
            let n = p.trace.len() as int;
            &&& r.running
            &&& r.trace[n] matches Event::Load { address, value, .. } && r.vars[first.payload as int] == value && address
                == crate::code::wrap(Ty::I64, s.vals[env.stack_base as int] + shape.output_index() * 16)
            &&& r.trace[n + 1] matches Event::Load { address, value, .. } && r.vars[first.tag as int] == value && address
                == crate::code::wrap(Ty::I64, s.vals[env.stack_base as int] + shape.output_index() * 16 + 8)
            &&& r.vars[other.payload as int] == p.vars[first.payload as int]
            &&& r.vars[other.tag as int] == p.vars[first.tag as int]
        }),
{
}

/// A hoisted guard holds exactly where the argument is the callee that was seen.
pub proof fn hoisted_guards_hold_for_the_callee_seen(
    env: OptEnv<'_>,
    target: CallTargetFact,
    valid: usize,
    before: Steer,
    w: World,
)
    ensures
        ({
            let slot = env.arguments@[target.argument as int];
            let after = probe_one(env, target, valid, before, w);
            let same = before.vars[slot.tag as int] == -1 && before.vars[slot.payload as int] == target.object as i64;
            &&& after.vars[valid as int] == 0 || after.vars[valid as int] == 1
            &&& after.vars[valid as int] == 1 ==> same && (after.trace.last() matches Event::Load { value, .. } && value
                == target.bytecode as i64)
            &&& !same ==> after.vars[valid as int] == 0 && after.trace == before.trace
        }),
{
}

/// A guard that was relied on and no longer holds ends the loop; one that was not
/// relied on may fail.
pub proof fn relied_guards_must_hold(
    env: OptEnv<'_>,
    targets: Seq<CallTargetFact>,
    state: GuardState,
    vars: Map<int, int>,
    trace: Seq<Event>,
    k: nat,
    w: World,
)
    requires
        k > 0,
        refreshed(env, targets, state, vars, trace, (k - 1) as nat, w).ok,
    ensures
        ({
            let after = refreshed(env, targets, state, vars, trace, k, w);
            let holds = after.vars[state.valid@[k - 1] as int] != 0;
            let relied = after.vars[state.used@[k - 1] as int] != 0;
            after.ok <==> !(relied && !holds)
        }),
{
}

/// What the entry asks of a slot's tag: an unknown value nothing, a number that it
/// is one, the others their own. Locals may still be unset where a number is asked
/// for.
pub proof fn entries_admit_by_representation(r: SlotRequirements<'_>, index: int, tag: int)
    requires
        0 <= index,
    ensures
        r.required(index) == EntryRepresentation::Any ==> r.admits(index, tag),
        r.required(index) == EntryRepresentation::Int32 ==> (r.admits(index, tag) <==> tag == 0),
        r.required(index) == EntryRepresentation::Float64 ==> (r.admits(index, tag) <==> tag == 8),
        r.required(index) == EntryRepresentation::Bool ==> (r.admits(index, tag) <==> tag == 1),
        r.required(index) == EntryRepresentation::HeapRef ==> (r.admits(index, tag) <==> tag == -1),
        r.required(index) == EntryRepresentation::Numeric ==> (r.admits(index, tag) <==> tag == 0 || tag == 8 || index
            >= r.argument_count && (tag == 3 || tag == 4)),
{
}

/// Nothing is asked of a local that owns its value; of other slots what was
/// observed of them, and of slots behind those what holds of the function.
pub proof fn entries_ask_what_was_observed(r: SlotRequirements<'_>, index: int)
    requires
        0 <= index,
    ensures
        ({
            let local = index - r.argument_count;
            let owned = 0 <= local < r.owned_locals@.len() && r.owned_locals@[local];
            &&& owned ==> r.required(index) == EntryRepresentation::Any
            &&& !owned && index < r.representations@.len() ==> r.required(index) == r.representations@[index]
            &&& !owned && index >= r.representations@.len() ==> r.required(index) == r.representation
        }),
{
}

/// A step of a callee that is computed in place gives its constant, or the exact
/// sum or difference of its operands, the left one first.
pub proof fn steps_in_place_are_exact(
    computed: Map<usize, Tagged>,
    values: Map<usize, OptPair>,
    vals: Map<int, int>,
    int32_loop: bool,
    lhs: usize,
    rhs: usize,
    x: i32,
    truth: bool,
)
    requires
        computed.contains_key(lhs),
        computed.contains_key(rhs),
        is_int32(computed[lhs].payload),
        is_int32(computed[rhs].payload),
    ensures
        ({
            let l = computed[lhs].payload;
            let r = computed[rhs].payload;
            let add = step_result(StepOp::Binary { op: ScalarBinaryOp::Add, lhs, rhs }, computed, values, vals, int32_loop);
            let sub = step_result(StepOp::Binary { op: ScalarBinaryOp::Sub, lhs, rhs }, computed, values, vals, int32_loop);
            let number = step_result(StepOp::Int32(x), computed, values, vals, int32_loop);
            let bit = step_result(StepOp::Bool(truth), computed, values, vals, int32_loop);
            &&& add.payload == l + r && add.tag == 0
            &&& sub.payload + r == l && sub.tag == 0
            &&& number.payload == x && number.tag == 0
            &&& bit.payload == (if truth { 1int } else { 0 }) && bit.tag == 1
        }),
{
}

/// Code in place goes on only where every sum and difference is an Int32.
pub proof fn steps_in_place_stay_integers(
    steps: Seq<RegionStep>,
    values: Map<usize, OptPair>,
    vals: Map<int, int>,
    int32_loop: bool,
    n: nat,
    k: nat,
)
    requires
        steps_pass(steps, values, vals, int32_loop, n),
        k < n <= steps.len(),
        steps[k as int].op is Binary,
    ensures
        is_int32(
            step_result(
                steps[k as int].op,
                computed_by(steps, values, vals, int32_loop, k),
                values,
                vals,
                int32_loop,
            ).payload,
        ),
    decreases n,
{
    if k + 1 < n {
        steps_in_place_stay_integers(steps, values, vals, int32_loop, (n - 1) as nat, k);
    }
}

/// A callee is entered directly only without a receiver, with as many arguments as
/// were seen, and with references that something else keeps alive.
pub proof fn direct_entries_are_safe(
    direct: DirectCallSite,
    provenance: Seq<crate::provenance::OptProvenance>,
    argc: usize,
    has_this: bool,
    at: int,
    i: int,
)
    requires
        enters_directly(direct, provenance, argc, has_this, at),
        0 <= i < argc,
    ensures
        !has_this,
        direct.call.arguments@.len() == argc,
        direct.call.object_identity != 0 && direct.call.bytecode_identity != 0,
        provenance[at] is Argument || provenance[at] is Local,
        direct.call.arguments@[i] == FeedbackRepresentation::HeapRef ==> provenance[at + 1 + i] is Argument || provenance[at + 1
            + i] is Local,
{
}

/// Why a call cannot be made: too few operands, something unknown below them, or
/// no room for its answer, in this order.
pub proof fn calls_are_refused_in_order(slots: int, provenance: Seq<OptProvenance>, depth: usize, argc: usize, has_this: bool)
    ensures
        ({
            let pop = argc + 1 + (if has_this { 1int } else { 0 });
            let unknown = exists|i: int| 0 <= i < depth - pop && #[trigger] provenance[i] == OptProvenance::Unknown;
            let r = call_refusal(slots, provenance, depth, argc, has_this);
            &&& r is None <==> depth >= pop && !unknown && depth + 1 < slots
            &&& depth < pop ==> r->Some_0.failure == CompileFailure::InvalidArtifact && r->Some_0.stage == Some(
                Tier2CompileStage::GenericCallBaseUnderflow,
            )
            &&& depth >= pop && unknown ==> r->Some_0.failure == CompileFailure::InvalidArtifact && r->Some_0.stage == Some(
                Tier2CompileStage::GenericCallPrefixUnknown,
            )
            &&& depth >= pop && !unknown && depth + 1 >= slots ==> r->Some_0.failure == CompileFailure::ResourceLimit
                && r->Some_0.stage == Some(Tier2CompileStage::GenericCallOutputCapacity)
        }),
{
}

/// A call leaves a primitive where its result is known to be none, and an owner
/// otherwise; what stood above is gone, and what stood below stays.
pub proof fn calls_leave_their_result(
    provenance: Seq<OptProvenance>,
    depth: usize,
    argc: usize,
    has_this: bool,
    scalar: bool,
    k: int,
)
    requires
        argc + 2 <= depth,
        depth + 1 < provenance.len(),
        0 <= k < provenance.len(),
    ensures
        ({
            let shape = shape_of(depth, argc, has_this);
            let after = provenance_after_call(provenance, shape, false, scalar);
            let base = depth - argc - (if has_this { 2int } else { 1 });
            &&& shape.base == base
            &&& after[base] == (if scalar { OptProvenance::ImmediatePrimitive } else { OptProvenance::OwnedSlot })
            &&& k < base ==> after[k] == provenance[k]
            &&& base < k < depth ==> after[k] == OptProvenance::Unknown
        }),
{
}

/// The entry goes on where every slot is admitted. Where one is not, it goes on by
/// the side path, if there is one for doubles and all slots are numbers and one is
/// a double, and says so in the frame's flags; otherwise it leaves.
#[verifier::spinoff_prover]
#[verifier::rlimit(60)]
pub proof fn entries_pass_where_their_slots_are_admitted(
    env: OptEnv<'_>,
    st: Status,
    st2: Status,
    n: int,
    requirements: SlotRequirements<'_>,
    arguments: Seq<OptVars>,
    locals: Seq<OptVars>,
    guard: u32,
    pc: u32,
    pass: usize,
    side_path: Option<SidePathProfile>,
    w: World,
    i: int,
)
    requires
        numeric_guard_post(env, st, st2, n, requirements, arguments, locals, guard, pc, pass, side_path, w),
        st is Run,
        0 <= i < arguments.len(),
    ensures
        ({
            let s = st->Run_0;
            let tag = s.vars[arguments[i].tag as int];
            &&& st2 is Wait || st2 is Done
            &&& st2 matches Status::Wait { block, state, .. } ==> block == pass && state.vars == s.vars && (state.trace == s.trace
                || side_path is Some)
            &&& side_path is None && st2 is Wait ==> requirements.admits(i, tag)
            &&& side_path is None && !requirements.admits(i, tag) ==> st2 is Done
            &&& st2 is Wait && !requirements.admits(i, tag) ==> tag == 0 || tag == 8
        }),
{
    let s = st->Run_0;
    let slot = arguments[i];
    assert(0 + i == i);
}

/// What a local owns is given back before it is overwritten: the local is written
/// to the frame first, and then named by its place behind the arguments.
#[verifier::spinoff_prover]
#[verifier::rlimit(60)]
pub proof fn overwritten_locals_are_given_back(env: OptEnv<'_>, s: State, index: int, w: World)
    requires
        0 <= index < env.locals@.len(),
        env.arguments@.len() + index < 0x8000_0000,
    ensures
        ({
            let flow = release_flow(env, s, index, w);
            let n = s.trace.len() as int;
            let slot = env.locals@[index];
            &&& writes(flow.trace[n], s.vals[env.var_buf as int] + 16 * index, s.vars[slot.payload as int])
            &&& writes(flow.trace[n + 1], s.vals[env.var_buf as int] + 16 * index + 8, s.vars[slot.tag as int])
            &&& asks(
                flow.trace,
                n + 4,
                *env.abi,
                s.vals[env.frame as int],
                env.abi.helper_free,
                seq![0int, env.arguments@.len() + index],
            )
        }),
{
    assert(crate::frame::as_arguments(seq![0, (env.arguments@.len() + index) as u32]) =~= seq![
        0int,
        env.arguments@.len() + index,
    ]);
}

} // verus!
