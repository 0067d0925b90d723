//! How inlined callees are entered, checked and left.
use crate::call_code::Progress;
use crate::code::Event;
use crate::code::State;
use crate::code::Ty;
use crate::code::World;
use crate::code::wrap;
use crate::diagnostics::DeoptMap;
use crate::diagnostics::is_inner_stage;
use crate::diagnostics::key_before;
use crate::diagnostics::last_map;
use crate::diagnostics::opcode_at;
use crate::frame::OptEnv;
use crate::frame::RuntimeAbi;
use crate::frame_inline::InlineSite;
use crate::frame_inline::frame_given;
use crate::frame_inline::returned;
use crate::frame_inline::slots_loaded;
use crate::frame_inline::slots_undefined;
use crate::frame_laws::told_apart;
use crate::inline_body::pushable;
use crate::inline_calls::admitted;
use crate::inline_calls::enter_args;
use crate::inline_calls::opened;
use crate::inline_frames::End;
use crate::inline_frames::FrameRegion;
use crate::inline_frames::InlineAddresses;
use crate::inline_frames::InlineApi;
use crate::inline_frames::InlineCallKind;
use crate::inline_frames::InlineFrame;
use crate::inline_frames::call_event;
use crate::inline_frames::checked;
use crate::inline_frames::leaves;
use crate::inline_frames::resumed;
use crate::lower_values::OptVars;
use crate::opcode_laws::apart;
use crate::runtime::FunctionKey;
use crate::runtime::TaggedValue;
use crate::runtime::VerifiedFunction;
use crate::stages::Tier2CompileStage;
use vstd::prelude::*;

verus! {

/// The runtime is told the caller's frame, where the call stands, where the caller
/// goes on, what kind of call it is, how many arguments there are, and where to
/// put the new frame.
pub proof fn entries_name_the_call(frame: int, call_pc: u32, resume_pc: u32, kind: u32, argc: int, output: int)
    requires
        call_pc < 0x8000_0000,
        resume_pc < 0x8000_0000,
        kind < 0x8000_0000,
        0 <= argc < 0x8000_0000,
    ensures
        enter_args(frame, call_pc, resume_pc, kind, argc, output) == seq![
            frame,
            0int,
            call_pc as int,
            resume_pc as int,
            kind as int,
            argc,
            output,
        ],
{
    assert(enter_args(frame, call_pc, resume_pc, kind, argc, output) =~= seq![
        frame,
        0int,
        call_pc as int,
        resume_pc as int,
        kind as int,
        argc,
        output,
    ]);
}

/// The callee of an inlined call stands below its arguments, and the receiver of a
/// method below the callee; the result takes the lowest place.
pub proof fn inlined_operands_stand_in_order(site: InlineSite, region: FrameRegion)
    ensures
        site.function_index() + 1 + site.argc == site.depth,
        region.call_kind == InlineCallKind::Method ==> site.base(region) == site.function_index() - 1,
        region.call_kind != InlineCallKind::Method ==> site.base(region) == site.function_index(),
{
}

/// A frame that the runtime gave is used where it answered zero. A retired callee
/// sends control back to the call, and an exception to the place behind it.
#[verifier::rlimit(30)]
pub proof fn frames_are_used_where_they_were_given(
    env: OptEnv<'_>,
    api: InlineApi,
    region: FrameRegion,
    site: InlineSite,
    s: State,
    vars: Map<int, int>,
    trace: Seq<Event>,
    answer: int,
    w: World,
)
    requires
        api.guard_miss != 0,
    ensures
        ({
            let p = frame_given(env, api, region, site, s, vars, trace, answer, w);
            let n = trace.len() as int;
            let kind = |code: u32| Event::Store {
                ty: Ty::I32,
                address: wrap(Ty::I64, s.vals[env.sret as int]),
                value: wrap(Ty::I32, code as int),
            };
            &&& p.running <==> answer == 0
            &&& p.vars == vars
            &&& answer == 0 ==> p.trace == trace
            &&& answer == api.guard_miss ==> p.trace[n + 2] == kind(env.abi.exit_deopt)
            &&& answer != 0 && answer != api.guard_miss ==> p.trace[n + 2] == kind(env.abi.exit_exception)
        }),
{
}

/// A new frame is opened at the address that the runtime wrote, and its arguments,
/// locals and stack where it says.
pub proof fn frames_are_opened_where_they_are(abi: RuntimeAbi, trace: Seq<Event>, output: int, w: World)
    ensures
        ({
            let o = opened(abi, trace, output, w);
            let n = trace.len() as int;
            &&& o.trace.len() == n + 4
            &&& o.trace[n] == Event::Load { ty: Ty::I64, address: wrap(Ty::I64, output), value: o.frame }
            &&& o.trace[n + 1] == Event::Load { ty: Ty::I64, address: wrap(Ty::I64, o.frame + abi.arg_buf), value: o.arguments }
            &&& o.trace[n + 2] == Event::Load { ty: Ty::I64, address: wrap(Ty::I64, o.frame + abi.var_buf), value: o.locals }
            &&& o.trace[n + 3] == Event::Load { ty: Ty::I64, address: wrap(Ty::I64, o.frame + abi.stack_base), value: o.stack }
        }),
{
}

/// The code of a callee runs only in a frame of the function and generation that
/// it was made from.
#[verifier::rlimit(30)]
pub proof fn frames_belong_to_their_function(
    f: InlineFrame<'_>,
    a: InlineAddresses,
    caller_stack: int,
    function: int,
    trace: Seq<Event>,
    w: World,
)
    requires
        admitted(f, a, caller_stack, function, trace, w).end is On,
    ensures
        ({
            let after = admitted(f, a, caller_stack, function, trace, w).trace;
            let n = trace.len() as int;
            &&& after[n] == Event::Load {
                ty: Ty::I64,
                address: wrap(Ty::I64, a.frame + f.api.function_id),
                value: (f.body().function_id as i64) as int,
            }
            &&& after[n + 1] == Event::Load {
                ty: Ty::I64,
                address: wrap(Ty::I64, a.frame + f.api.generation),
                value: (f.body().generation as i64) as int,
            }
            &&& after.last() matches Event::Call { args, result, .. } && result == 0 && args == seq![a.frame]
        }),
{
}

/// A frame that is checked goes on where the runtime answers zero. One whose code
/// was retired executes its instruction again, any other answer is an exception.
pub proof fn checked_frames_go_on(f: InlineFrame<'_>, a: InlineAddresses, trace: Seq<Event>, pc: u32, w: World)
    ensures
        ({
            let turn = checked(f, a, trace, pc, w);
            let answer = wrap(Ty::I32, (w.observe)(trace.len() as int));
            let asked = call_event(f.api.check->Some_0, seq![a.frame], trace, w);
            &&& turn.end is On <==> answer == 0
            &&& turn.end is On ==> turn.trace == asked
            &&& answer != 0 ==> turn.end is Left && turn.trace == resumed(f, a, asked, pc, answer != f.api.guard_miss, w)
        }),
{
}

/// A callee leaves with the slot of its result, and the caller goes on behind the
/// call where the runtime answers zero.
pub proof fn callees_leave_with_their_result(
    f: InlineFrame<'_>,
    a: InlineAddresses,
    trace: Seq<Event>,
    result: int,
    next: usize,
    last_pc: u32,
    w: World,
)
    requires
        0 <= result,
        f.body().argument_count + f.body().local_count + result < 0x8000_0000,
    ensures
        ({
            let turn = leaves(f, a, trace, result, next, last_pc, w);
            let answer = wrap(Ty::I32, (w.observe)(trace.len() as int));
            &&& turn.end == End::At(next) <==> answer == 0
            &&& answer == 0 ==> turn.trace.len() == trace.len() + 1 && (turn.trace.last() matches Event::Call { args, .. } && args
                == seq![a.frame, f.body().argument_count + f.body().local_count + result])
            &&& answer != 0 ==> turn.end is Left
        }),
{
}

/// Behind an inlined call every slot is read again from its place in the frame.
pub proof fn slots_are_loaded_in_a_row(p: Progress, base: int, slots: Seq<OptVars>, k: nat, w: World, i: int)
    requires
        told_apart(slots),
        k <= slots.len(),
        0 <= i < k,
    ensures
        ({
            let r = slots_loaded(p, base, slots, k, w);
            let n = p.trace.len() as int;
            &&& r.trace.len() == n + 2 * k
            &&& r.trace[n + 2 * i] == Event::Load {
                ty: Ty::I64,
                address: wrap(Ty::I64, base + 16 * i),
                value: r.vars[slots[i].payload as int],
            }
            &&& r.trace[n + 2 * i + 1] == Event::Load {
                ty: Ty::I64,
                address: wrap(Ty::I64, base + 16 * i + 8),
                value: r.vars[slots[i].tag as int],
            }
        }),
    decreases k,
{
    loads_are_counted(p, base, slots, (k - 1) as nat, w);
    if i < k - 1 {
        slots_are_loaded_in_a_row(p, base, slots, (k - 1) as nat, w, i);
        assert(apart(slots[i], slots[k - 1]));
    }
}

proof fn loads_are_counted(p: Progress, base: int, slots: Seq<OptVars>, k: nat, w: World)
    ensures
        slots_loaded(p, base, slots, k, w).trace.len() == p.trace.len() + 2 * k,
    decreases k,
{
    if k > 0 {
        loads_are_counted(p, base, slots, (k - 1) as nat, w);
    }
}

/// Slots above the stack are emptied.
pub proof fn slots_above_are_undefined(vars: Map<int, int>, slots: Seq<OptVars>, from: int, to: int, i: int)
    requires
        told_apart(slots),
        0 <= from <= i < to <= slots.len(),
    ensures
        slots_undefined(vars, slots, from, to)[slots[i].payload as int] == 0,
        slots_undefined(vars, slots, from, to)[slots[i].tag as int] == 3,
    decreases to - from,
{
    if i < to - 1 {
        slots_above_are_undefined(vars, slots, from, to - 1, i);
        assert(apart(slots[i], slots[to - 1]));
    }
}

/// The caller goes on with its frame read again where the runtime answers zero;
/// otherwise it leaves, by a deoptimization where the callee was retired.
pub proof fn callers_go_on_behind_the_call(
    env: OptEnv<'_>,
    api: InlineApi,
    guard: u32,
    s: State,
    depth: int,
    w: World,
)
    requires
        api.guard_miss != 0,
    ensures
        ({
            let answer = wrap(Ty::I32, (w.observe)(s.trace.len() as int));
            let p = returned(env, api, guard, s, depth, w);
            answer != 0 ==> !p.running && p.vars == s.vars
        }),
{
}

/// Constants with the tag of a counted value are not pushed in place: those are the
/// negative tags.
pub proof fn counted_constants_are_not_pushed(value: TaggedValue)
    requires
        -9 <= value.tag <= 8,
    ensures
        pushable(value) <==> value.tag >= 0,
{
    let tag = value.tag;
    let low = #[verifier::truncate] (tag as u32);
    assert(low < 0xffff_fff7 <==> tag >= 0) by (bit_vector)
        requires
            low == tag as u32,
            -9 <= tag <= 8,
    ;
}

/// Function keys are in one order: by number, then by generation.
pub proof fn keys_are_in_one_order(a: FunctionKey, b: FunctionKey, c: FunctionKey)
    ensures
        !key_before(a, a),
        a == b || key_before(a, b) || key_before(b, a),
        !(key_before(a, b) && key_before(b, a)),
        key_before(a, b) && key_before(b, c) ==> key_before(a, c),
        a.id < b.id ==> key_before(a, b),
{
}

/// The place that a guard sends control back to is that of its last map.
pub proof fn guards_resume_at_their_last_map(maps: Seq<DeoptMap>, n: nat, guard: u32, i: int)
    requires
        n <= maps.len(),
        0 <= i < n,
        maps[i].guard == guard,
        forall|j: int| i < j < n ==> (#[trigger] maps[j]).guard != guard,
    ensures
        last_map(maps, n, guard) == Some(maps[i].resume_pc),
    decreases n,
{
    if i < n - 1 {
        assert(maps[n - 1].guard != guard);
        guards_resume_at_their_last_map(maps, (n - 1) as nat, guard, i);
    }
}

/// A site is reported with the first byte of the instruction that it belongs to.
pub proof fn sites_name_their_opcode(function: VerifiedFunction, pc: u32, i: int)
    requires
        0 <= i < function.instructions@.len(),
        function.instructions@[i].pc == pc,
        forall|j: int| 0 <= j < i ==> (#[trigger] function.instructions@[j]).pc != pc,
        function.instructions@[i].bytes@.len() > 0,
    ensures
        opcode_at(function, pc) == function.instructions@[i].bytes@[0],
{
    let f = |k: int| function.instructions@[k].pc == pc;
    assert(f(i));
    assert forall|j: int| 0 <= j < i implies !#[trigger] f(j) by {
        assert(function.instructions@[j].pc != pc);
    }
    crate::runtime::first_at_is(f, function.instructions@.len(), i);
}

/// The stages inside the lowering are told apart from those of a compilation.
pub proof fn inner_stages_are_those_of_lowering(stage: Tier2CompileStage)
    ensures
        !is_inner_stage(stage) <==> (stage is Admission || stage is FromFeedback || stage is RetainInlineCallees || stage is InitialTranslate
            || stage is FrameTranslateRetry || stage is IrBudget || stage is SidePathValidation || stage is DirectDependencies
            || stage is InitialLower || stage is InlineLowerRetryTranslate || stage is InlineLowerRetryBudget
            || stage is InlineLowerRetry || stage is DirectLower || stage is ArtifactBind || stage is DirectMetadata || stage is Complete),
{
}

} // verus!
