//! Calls that feedback has specialized: straight into compiled code where the
//! callee and its arguments are as observed, and through the runtime otherwise.
use crate::call_code::emit_generic_call;
use crate::call_code::generic_call;
use crate::call_code::progresses;
use crate::call_code::CallShape;
use crate::checks::read;
use crate::checks::require;
use crate::checks::seen;
use crate::checks::steers;
use crate::code::agree;
use crate::code::truth;
use crate::code::unsigned;
use crate::code::value;
use crate::code::waits_for_known_blocks;
use crate::code::wrap;
use crate::code::BinaryOp;
use crate::code::kept;
use crate::code::Code;
use crate::code::ConvertOp;
use crate::code::Event;
use crate::code::State;
use crate::code::Status;
use crate::code::Ty;
use crate::code::World;
use crate::control::CompileFailure;
use crate::exits::opt_own_stack_for_exit;
use crate::exits::own_flow;
use crate::exits::own_failure;
use crate::exits::pc_address;
use crate::exits::pc_store;
use crate::exits::same_own_flow;
use crate::exits::set_pc;
use crate::exits::spill;
use crate::exits::stack_ownable;
use crate::exits::store_slots;
use crate::frame::emit_opt_exit;
use crate::frame::exit_record;
use crate::frame::exits_with;
use crate::frame::helper_known;
use crate::frame::opt_set_stack_top;
use crate::frame::runs_on;
use crate::frame::top_store;
use crate::frame::OptEnv;
use crate::guard_code::callee_fits;
use crate::guard_code::callee_reads;
use crate::guard_code::emit_guarded_direct_callee_identity;
use crate::guard_code::DirectCalleeIdentity;
use crate::helpers::is_borrowed;
use crate::lower_values::group_truths;
use crate::lower_values::opt_define;
use crate::lower_values::opt_tag_is;
use crate::lower_values::opt_use;
use crate::lower_values::vars_after;
use crate::lower_values::OptPair;
use crate::property_cache::Steer;
use crate::provenance::OptProvenance;
use crate::qjs::JS_TAG_BOOL;
use crate::qjs::JS_TAG_FLOAT64;
use crate::qjs::JS_TAG_INT;
use crate::qjs::JS_TAG_OBJECT;
use crate::runtime::CallSpecializationKey;
use crate::runtime::FeedbackRepresentation;
use crate::stages::Refusal;
use crate::stages::Tier2CompileStage;
use crate::typing::steady;
use crate::typing::closing;
use crate::typing::calm;
use crate::assemble::Known;
use crate::frame_typing::pair_held;
use crate::frame_typing::slot_named;
use crate::frame_typing::slots_named;
use crate::frame_typing::cached_named;
use crate::frame_typing::cache_named;
use vstd::prelude::*;

verus! {

broadcast use {crate::typing::group_typing, crate::frame_typing::group_frame, crate::exits::own_failures};

/// Compiled code that a call site may enter directly.
#[derive(Debug)]
pub struct DirectCallSite {
    pub call: CallSpecializationKey,
    pub entry: u64,
}

pub open spec fn representation_tag(representation: FeedbackRepresentation) -> i32 {
    match representation {
        FeedbackRepresentation::Int32 => JS_TAG_INT,
        FeedbackRepresentation::Float64 => JS_TAG_FLOAT64,
        FeedbackRepresentation::Bool => JS_TAG_BOOL,
        FeedbackRepresentation::HeapRef => JS_TAG_OBJECT,
    }
}

fn tag_for(representation: FeedbackRepresentation) -> (r: i32)
    ensures
        r == representation_tag(representation),
{
    match representation {
        FeedbackRepresentation::Int32 => JS_TAG_INT,
        FeedbackRepresentation::Float64 => JS_TAG_FLOAT64,
        FeedbackRepresentation::Bool => JS_TAG_BOOL,
        FeedbackRepresentation::HeapRef => JS_TAG_OBJECT,
    }
}

/// How a value of the representation is passed.
pub open spec fn passed_type(representation: FeedbackRepresentation) -> Ty {
    match representation {
        FeedbackRepresentation::Int32 | FeedbackRepresentation::Bool => Ty::I32,
        FeedbackRepresentation::Float64 => Ty::F64,
        FeedbackRepresentation::HeapRef => Ty::I64,
    }
}

fn type_for(representation: FeedbackRepresentation) -> (r: Ty)
    ensures
        r == passed_type(representation),
{
    match representation {
        FeedbackRepresentation::Int32 | FeedbackRepresentation::Bool => Ty::I32,
        FeedbackRepresentation::Float64 => Ty::F64,
        FeedbackRepresentation::HeapRef => Ty::I64,
    }
}

pub open spec fn passed_value(representation: FeedbackRepresentation, payload: int) -> int {
    if passed_type(representation) == Ty::I32 {
        wrap(Ty::I32, payload)
    } else {
        payload
    }
}

/// The site's callee can be entered directly: it is a plain call of a known
/// function with the observed number of arguments, and whatever is passed by
/// reference is borrowed from the frame.
pub open spec fn enters_directly(
    direct: DirectCallSite,
    provenance: Seq<OptProvenance>,
    argc: usize,
    has_this: bool,
    function_index: int,
) -> bool {
    &&& !has_this
    &&& direct.call.arguments@.len() == argc
    &&& direct.call.object_identity != 0
    &&& direct.call.bytecode_identity != 0
    &&& is_borrowed(provenance[function_index])
    &&& forall|i: int|
        0 <= i < argc && #[trigger] direct.call.arguments@[i] == FeedbackRepresentation::HeapRef ==> is_borrowed(
            provenance[function_index + 1 + i],
        )
}

fn can_enter(
    direct: &DirectCallSite,
    provenance: &Vec<OptProvenance>,
    argc: usize,
    has_this: bool,
    function_index: usize,
) -> (r: bool)
    requires
        function_index + argc < provenance@.len() < crate::frame::MAX_SLOTS,
    ensures
        r == enters_directly(*direct, provenance@, argc, has_this, function_index as int),
{
    if has_this || direct.call.arguments.len() != argc || direct.call.object_identity == 0
        || direct.call.bytecode_identity == 0 {
        return false;
    }
    if !matches!(provenance[function_index], OptProvenance::Argument(_) | OptProvenance::Local(_)) {
        return false;
    }
    let mut i: usize = 0;
    while i < argc
        invariant
            i <= argc == direct.call.arguments@.len(),
            function_index + argc < provenance@.len() < crate::frame::MAX_SLOTS,
            forall|k: int|
                0 <= k < i && #[trigger] direct.call.arguments@[k] == FeedbackRepresentation::HeapRef ==> is_borrowed(
                    provenance@[function_index + 1 + k],
                ),
        decreases argc - i,
    {
        if matches!(direct.call.arguments[i], FeedbackRepresentation::HeapRef) {
            let argument: usize = function_index + 1 + i;
            if !matches!(provenance[argument], OptProvenance::Argument(_) | OptProvenance::Local(_)) {
                return false;
            }
        }
        i = i + 1;
    }
    true
}

/// The first `k` arguments have the observed tags.
pub open spec fn arguments_fit(
    env: OptEnv<'_>,
    vars: Map<int, int>,
    arguments: Seq<FeedbackRepresentation>,
    first: int,
    k: int,
) -> bool {
    forall|i: int|
        0 <= i < k ==> vars[env.stack@[first + i].tag as int] == representation_tag(#[trigger] arguments[i])
}

/// What the callee is passed.
pub open spec fn passed_values(
    env: OptEnv<'_>,
    vars: Map<int, int>,
    arguments: Seq<FeedbackRepresentation>,
    first: int,
) -> Seq<int> {
    Seq::new(
        arguments.len(),
        |i: int| passed_value(arguments[i], vars[env.stack@[first + i].payload as int]),
    )
}

/// The tagged form of what the callee answered.
pub open spec fn answered(result: FeedbackRepresentation, raw: int) -> int {
    if result == FeedbackRepresentation::Bool {
        wrap(Ty::I64, unsigned(Ty::I32, raw))
    } else {
        raw
    }
}

/// A direct call: the callee and its arguments are checked, it is entered, and
/// its result replaces it on the operand stack.
pub open spec fn direct_call(
    env: OptEnv<'_>,
    direct: DirectCallSite,
    vars: Map<int, int>,
    trace: Seq<Event>,
    function_index: int,
    w: World,
) -> Steer {
    let callee = env.stack@[function_index];
    let identity = DirectCalleeIdentity {
        object: direct.call.object_identity,
        bytecode: direct.call.bytecode_identity,
    };
    let payload = vars[callee.payload as int];
    let tag = vars[callee.tag as int];
    let t1 = callee_reads(*env.abi, identity, payload, tag, trace, w);
    let arguments = direct.call.arguments@;
    if !callee_fits(identity, payload, tag, trace, w) || !arguments_fit(
        env,
        vars,
        arguments,
        function_index + 1,
        arguments.len() as int,
    ) {
        Steer { ok: false, vars, trace: t1 }
    } else {
        let output = seen(t1, Ty::I64, w);
        let t2 = t1.push(Event::SlotAddr { slot: env.call_output as int, offset: 0, address: output });
        let status = seen(t2, Ty::I32, w);
        let t3 = t2.push(
            Event::Call {
                callee: wrap(Ty::I64, (direct.entry as i64) as int),
                args: seq![output] + passed_values(env, vars, arguments, function_index + 1),
                result: status,
            },
        );
        if status != 0 {
            Steer { ok: false, vars, trace: t3 }
        } else {
            let ty = passed_type(direct.call.result);
            Steer {
                ok: true,
                vars: vars_after(
                    vars,
                    callee,
                    answered(direct.call.result, seen(t3, ty, w)),
                    representation_tag(direct.call.result) as int,
                ),
                trace: read(t3, ty, output, w),
            }
        }
    }
}

/// Deoptimizing before a direct call: the operand stack counts as empty until
/// its slots are owners.
pub open spec fn call_deopt(
    env: OptEnv<'_>,
    s: State,
    vars: Map<int, int>,
    trace: Seq<Event>,
    provenance: Seq<OptProvenance>,
    depth: nat,
    pc: u32,
    guard: u32,
    w: World,
) -> Seq<Event> {
    let frame = s.vals[env.frame as int];
    let topped = top_store(
        spill(trace, env, s, vars, depth),
        *env.abi,
        frame,
        s.vals[env.stack_base as int],
        0,
    );
    let owned = own_flow(pc_store(topped, *env.abi, frame, pc, w), env, s, provenance, depth, w);
    if owned.running {
        exit_record(
            owned.trace,
            *env.abi,
            s.vals[env.sret as int],
            env.abi.exit_deopt,
            pc_address(topped, pc, w),
            guard,
        )
    } else {
        owned.trace
    }
}

proof fn same_call_deopt(
    env: OptEnv<'_>,
    s: State,
    t: State,
    vars: Map<int, int>,
    trace: Seq<Event>,
    provenance: Seq<OptProvenance>,
    depth: nat,
    pc: u32,
    guard: u32,
    w: World,
)
    requires
        t.vals[env.frame as int] == s.vals[env.frame as int],
        t.vals[env.stack_base as int] == s.vals[env.stack_base as int],
        t.vals[env.sret as int] == s.vals[env.sret as int],
        t.vals[env.arg_buf as int] == s.vals[env.arg_buf as int],
        t.vals[env.var_buf as int] == s.vals[env.var_buf as int],
    ensures
        call_deopt(env, s, vars, trace, provenance, depth, pc, guard, w) == call_deopt(
            env,
            t,
            vars,
            trace,
            provenance,
            depth,
            pc,
            guard,
            w,
        ),
{
    let topped = top_store(
        spill(trace, env, s, vars, depth),
        *env.abi,
        s.vals[env.frame as int],
        s.vals[env.stack_base as int],
        0,
    );
    same_own_flow(
        pc_store(topped, *env.abi, s.vals[env.frame as int], pc, w),
        env,
        s,
        t,
        provenance,
        depth,
        w,
    );
}

/// Deoptimizes before a call.
fn emit_call_deopt(
    code: &mut Code,
    env: &OptEnv<'_>,
    provenance: &Vec<OptProvenance>,
    depth: usize,
    pc: u32,
    guard: u32,
) -> (r: Result<(), CompileFailure>)
    requires
        env.wf(old(code).len()),
        depth <= env.stack@.len(),
        !env.int32_loop,
    ensures
        kept(*old(code), *final(code)),
        r is Ok && env.typed(*old(code)) ==> closing(*old(code), *final(code)),
        r is Ok <==> stack_ownable(*env, provenance@, depth as int),
        r matches Err(e) ==> e == own_failure(*env, provenance@, depth as int),
        final(code).len() >= old(code).len(),
        r is Ok ==> forall|w: World|
            #![trigger final(code).at(w)]
            match old(code).at(w) {
                Status::Run(s) => exits_with(
                    final(code).at(w),
                    call_deopt(*env, s, s.vars, s.trace, provenance@, depth as nat, pc, guard, w),
                ),
                st => final(code).at(w) == st,
            },
{
    store_slots(code, env.arg_buf, env.arguments, env.arguments.len(), Ty::I64);
    let ghost c2 = *code;
    store_slots(code, env.var_buf, env.locals, env.locals.len(), Ty::I64);
    let ghost c3 = *code;
    store_slots(code, env.stack_base, env.stack, depth, Ty::I64);
    let ghost c4 = *code;
    opt_set_stack_top(code, env, 0);
    let ghost c5 = *code;
    let resume = set_pc(code, env, pc);
    let ghost c6 = *code;
    if let Err(e) = opt_own_stack_for_exit(code, env, depth, provenance) {
        return Err(e);
    }
    let ghost c7 = *code;
    emit_opt_exit(code, env, env.abi.exit_deopt, Some(resume), guard);
    proof {
        assert forall|w: World|
            #![trigger code.at(w)]
            match old(code).at(w) {
                Status::Run(s) => exits_with(
                    code.at(w),
                    call_deopt(*env, s, s.vars, s.trace, provenance@, depth as nat, pc, guard, w),
                ),
                st => code.at(w) == st,
            } by {
            let a2 = c2.at(w);
            let a3 = c3.at(w);
            let a4 = c4.at(w);
            let a5 = c5.at(w);
            let a6 = c6.at(w);
            let a7 = c7.at(w);
            if let Status::Run(s) = old(code).at(w) {
                let t = a6->Run_0;
                same_own_flow(t.trace, *env, s, t, provenance@, depth as nat, w);
            }
        }
    }
    Ok(())
}

/// Checks the tags of the arguments; control leaves for `failed` where one is
/// another.
fn check_arguments(
    code: &mut Code,
    env: &OptEnv<'_>,
    arguments: &Vec<FeedbackRepresentation>,
    first: usize,
    failed: usize,
)
    requires
        env.wf(old(code).len()),
        first + arguments@.len() <= env.stack@.len(),
        failed < old(code).len(),
    ensures
        kept(*old(code), *final(code)),
        env.typed(*old(code)) && old(code).blocked(failed) ==> steady(*old(code), *final(code)),
        final(code).len() > old(code).len(),
        forall|w: World|
            #![trigger final(code).at(w)]
            match old(code).at(w) {
                Status::Run(s) => steers(
                    final(code).at(w),
                    s,
                    old(code).len(),
                    failed,
                    arguments_fit(*env, s.vars, arguments@, first as int, arguments@.len() as int),
                    s.vars,
                    s.trace,
                ),
                st => final(code).at(w) == st,
            },
{
    broadcast use group_truths;

    let mut fits = code.iconst(Ty::I8, 1);
    let mut i: usize = 0;
    while i < arguments.len()
        invariant
            kept(*old(code), *code),
            env.typed(*old(code)) && old(code).blocked(failed) ==> steady(*old(code), *code),
            env.typed(*old(code)) ==> env.typed(*code),
            code.holds(fits, Ty::I8),
            i <= arguments@.len(),
            env.wf(old(code).len()),
            first + arguments@.len() <= env.stack@.len(),
            old(code).len() < code.len(),
            fits < code.len(),
            forall|w: World|
                #![trigger code.at(w)]
                match old(code).at(w) {
                    Status::Run(s) => runs_on(code.at(w), s, old(code).len(), s.vars, s.trace) && value(code.at(w), fits)
                        == truth(arguments_fit(*env, s.vars, arguments@, first as int, i as int)),
                    st => code.at(w) == st,
                },
        decreases arguments@.len() - i,
    {
        let ghost before = *code;
        let ghost fits0 = fits;
        let argument = opt_use(code, env.stack[first + i], Ty::I64);
        let typed = opt_tag_is(code, argument.tag, tag_for(arguments[i]));
        let ghost tested = *code;
        fits = code.binary(BinaryOp::And, Ty::I8, fits, typed);
        proof {
            assert forall|w: World|
                #![trigger code.at(w)]
                match old(code).at(w) {
                    Status::Run(s) => runs_on(code.at(w), s, old(code).len(), s.vars, s.trace) && value(code.at(w), fits)
                        == truth(arguments_fit(*env, s.vars, arguments@, first as int, i + 1)),
                    st => code.at(w) == st,
                } by {
                let b = before.at(w);
                let t = tested.at(w);
                if let Status::Run(s) = old(code).at(w) {
                    let here = s.vars[env.stack@[first + i].tag as int] == representation_tag(arguments@[i as int]);
                    let fitted = arguments_fit(*env, s.vars, arguments@, first as int, i as int);
                    assert(t->Run_0.vals[fits0 as int] == truth(fitted));
                    assert(t->Run_0.vals[typed as int] == truth(here));
                    assert(arguments_fit(*env, s.vars, arguments@, first as int, i + 1) == (fitted && here));
                    crate::lower_values::and_of_truths(Ty::I8, fitted, here);
                }
            }
        }
        i = i + 1;
    }
    let ghost ready = *code;
    require(code, fits, failed);
    proof {
        assert forall|w: World|
            #![trigger code.at(w)]
            match old(code).at(w) {
                Status::Run(s) => steers(
                    code.at(w),
                    s,
                    old(code).len(),
                    failed,
                    arguments_fit(*env, s.vars, arguments@, first as int, arguments@.len() as int),
                    s.vars,
                    s.trace,
                ),
                st => code.at(w) == st,
            } by {
            let a = ready.at(w);
        }
    }
}

/// Prepares the arguments behind `output`.
fn pass_arguments(
    code: &mut Code,
    env: &OptEnv<'_>,
    arguments: &Vec<FeedbackRepresentation>,
    first: usize,
    output: usize,
) -> (r: Vec<usize>)
    requires
        env.wf(old(code).len()),
        first + arguments@.len() <= env.stack@.len(),
        output < old(code).len(),
    ensures
        kept(*old(code), *final(code)),
        env.typed(*old(code)) ==> steady(*old(code), *final(code)),
        r@[0] == output && r@.len() == arguments@.len() + 1,
        env.typed(*old(code))
            ==> forall|k: int| 0 <= k < arguments@.len() ==> final(code).holds(#[trigger] r@[k + 1], passed_type(arguments@[k])),
        final(code).len() >= old(code).len(),
        forall|w: World|
            #![trigger final(code).at(w)]
            match old(code).at(w) {
                Status::Run(s) => runs_on(final(code).at(w), s, old(code).len(), s.vars, s.trace) && final(code).at(w)->Run_0.get(r@) == seq![s.vals[output as int]] + passed_values(
                    *env,
                    s.vars,
                    arguments@,
                    first as int,
                ),
                st => final(code).at(w) == st,
            },
{
    let mut params: Vec<usize> = Vec::new();
    params.push(output);
    let mut i: usize = 0;
    while i < arguments.len()
        invariant
            kept(*old(code), *code),
            env.typed(*old(code)) ==> steady(*old(code), *code),
            env.typed(*old(code)) ==> env.typed(*code),
            params@.len() == i + 1 && params@[0] == output,
            env.typed(*old(code))
                ==> forall|k: int| 0 <= k < i ==> code.holds(#[trigger] params@[k + 1], passed_type(arguments@[k])),
            i <= arguments@.len(),
            env.wf(old(code).len()),
            first + arguments@.len() <= env.stack@.len(),
            output < old(code).len() <= code.len(),
            params@.len() == i + 1,
            params@[0] == output,
            forall|k: int| 0 <= k < params@.len() ==> #[trigger] params@[k] < code.len(),
            forall|w: World|
                #![trigger code.at(w)]
                match old(code).at(w) {
                    Status::Run(s) => {
                        &&& runs_on(code.at(w), s, old(code).len(), s.vars, s.trace)
                        &&& forall|k: int|
                            0 <= k < i ==> value(code.at(w), #[trigger] params@[k + 1]) == passed_values(
                                *env,
                                s.vars,
                                arguments@,
                                first as int,
                            )[k]
                    },
                    st => code.at(w) == st,
                },
        decreases arguments@.len() - i,
    {
        let ghost before = *code;
        let ghost params0 = params@;
        let argument = opt_use(code, env.stack[first + i], Ty::I64);
        let passed = match arguments[i] {
            FeedbackRepresentation::Int32 | FeedbackRepresentation::Bool => code.convert(
                ConvertOp::Reduce,
                Ty::I64,
                Ty::I32,
                argument.payload,
            ),
            FeedbackRepresentation::Float64 => code.convert(ConvertOp::Bitcast, Ty::I64, Ty::F64, argument.payload),
            FeedbackRepresentation::HeapRef => argument.payload,
        };
        params.push(passed);
        proof {
            assert forall|w: World|
                #![trigger code.at(w)]
                match old(code).at(w) {
                    Status::Run(s) => {
                        &&& runs_on(code.at(w), s, old(code).len(), s.vars, s.trace)
                        &&& forall|k: int|
                            0 <= k < i + 1 ==> value(code.at(w), #[trigger] params@[k + 1]) == passed_values(
                                *env,
                                s.vars,
                                arguments@,
                                first as int,
                            )[k]
                    },
                    st => code.at(w) == st,
                } by {
                let b = before.at(w);
                if let Status::Run(s) = old(code).at(w) {
                    assert forall|k: int| 0 <= k < i + 1 implies value(code.at(w), #[trigger] params@[k + 1])
                        == passed_values(*env, s.vars, arguments@, first as int)[k] by {
                        if k < i {
                            assert(params@[k + 1] == params0[k + 1]);
                            assert(params0[k + 1] < before.len());
                        }
                    }
                }
            }
        }
        i = i + 1;
    }
    proof {
        assert forall|w: World|
            #![trigger code.at(w)]
            match old(code).at(w) {
                Status::Run(s) => runs_on(code.at(w), s, old(code).len(), s.vars, s.trace) && code.at(w)->Run_0.get(
                    params@,
                ) == seq![s.vals[output as int]] + passed_values(*env, s.vars, arguments@, first as int),
                st => code.at(w) == st,
            } by {
            if let Status::Run(s) = old(code).at(w) {
                let q = code.at(w)->Run_0;
                let expected = seq![s.vals[output as int]] + passed_values(*env, s.vars, arguments@, first as int);
                assert(q.get(params@) =~= expected) by {
                    assert forall|k: int| 0 <= k < params@.len() implies q.vals[params@[k] as int] == expected[k] by {
                        if k > 0 {
                            assert(value(code.at(w), params@[(k - 1) + 1]) == passed_values(
                                *env,
                                s.vars,
                                arguments@,
                                first as int,
                            )[k - 1]);
                        }
                    }
                }
            }
        }
    }
    params
}

fn signature_types(arguments: &Vec<FeedbackRepresentation>) -> (r: Vec<Ty>)
    ensures
        r@ == seq![Ty::I64] + arguments@.map_values(|a: FeedbackRepresentation| passed_type(a)),
{
    let mut types: Vec<Ty> = Vec::new();
    types.push(Ty::I64);
    let mut i: usize = 0;
    while i < arguments.len()
        invariant
            i <= arguments@.len(),
            types@ == seq![Ty::I64] + arguments@.take(i as int).map_values(|a: FeedbackRepresentation| passed_type(a)),
        decreases arguments@.len() - i,
    {
        types.push(type_for(arguments[i]));
        i = i + 1;
    }
    assert(arguments@.take(arguments@.len() as int) =~= arguments@);
    types
}

/// Enters the callee; control leaves for `failed` where it refuses. Answers
/// where the callee wrote its result.
fn enter_callee(
    code: &mut Code,
    env: &OptEnv<'_>,
    direct: &DirectCallSite,
    first: usize,
    failed: usize,
) -> (r: usize)
    requires
        env.wf(old(code).len()),
        first + direct.call.arguments@.len() <= env.stack@.len(),
        failed < old(code).len(),
    ensures
        kept(*old(code), *final(code)),
        env.typed(*old(code)) && old(code).blocked(failed) ==> steady(*old(code), *final(code)),
        final(code).kind(r as int) == Known::Value(Ty::I64),
        old(code).len() <= r < final(code).len(),
        forall|w: World|
            #![trigger final(code).at(w)]
            match old(code).at(w) {
                Status::Run(s) => {
                    let output = seen(s.trace, Ty::I64, w);
                    let t2 = s.trace.push(
                        Event::SlotAddr { slot: env.call_output as int, offset: 0, address: output },
                    );
                    let status = seen(t2, Ty::I32, w);
                    let t3 = t2.push(
                        Event::Call {
                            callee: wrap(Ty::I64, (direct.entry as i64) as int),
                            args: seq![output] + passed_values(*env, s.vars, direct.call.arguments@, first as int),
                            result: status,
                        },
                    );
                    &&& steers(final(code).at(w), s, old(code).len(), failed, status == 0, s.vars, t3)
                    &&& status == 0 ==> value(final(code).at(w), r) == output
                },
                st => final(code).at(w) == st,
            },
{
    broadcast use group_truths;

    let types = signature_types(&direct.call.arguments);
    let signature = code.new_signature(types, Some(Ty::I32));
    let target = code.iconst(Ty::I64, direct.entry as i64);
    let output = code.slot_addr(env.call_output, 0);
    let ghost c1 = *code;
    let params = pass_arguments(code, env, &direct.call.arguments, first, output);
    let ghost c2 = *code;
    proof {
        if env.typed(*old(code)) {
            let arguments = direct.call.arguments@;
            let types = seq![Ty::I64] + arguments.map_values(|a: FeedbackRepresentation| passed_type(a));
            assert forall|k: int| 0 <= k < params@.len() implies code.holds(#[trigger] params@[k], types[k]) by {
                if k > 0 {
                    assert(code.holds(params@[(k - 1) + 1], passed_type(arguments[k - 1])));
                }
            }
        }
    }
    let status = code.call(signature, Ty::I32, target, params);
    let success = code.compare_imm(crate::code::IntCc::Equal, Ty::I32, status, 0);
    let ghost c3 = *code;
    require(code, success, failed);
    proof {
        assert forall|w: World|
            #![trigger code.at(w)]
            match old(code).at(w) {
                Status::Run(s) => {
                    let address = seen(s.trace, Ty::I64, w);
                    let t2 = s.trace.push(
                        Event::SlotAddr { slot: env.call_output as int, offset: 0, address },
                    );
                    let status = seen(t2, Ty::I32, w);
                    let t3 = t2.push(
                        Event::Call {
                            callee: wrap(Ty::I64, (direct.entry as i64) as int),
                            args: seq![address] + passed_values(*env, s.vars, direct.call.arguments@, first as int),
                            result: status,
                        },
                    );
                    &&& steers(code.at(w), s, old(code).len(), failed, status == 0, s.vars, t3)
                    &&& status == 0 ==> value(code.at(w), output) == address
                },
                st => code.at(w) == st,
            } by {
            let a1 = c1.at(w);
            let a2 = c2.at(w);
            let a3 = c3.at(w);
        }
    }
    output
}

/// Loads the callee's result and puts it in the callee's place.
fn take_result(code: &mut Code, env: &OptEnv<'_>, result: FeedbackRepresentation, output: usize, index: usize)
    requires
        env.wf(old(code).len()),
        output < old(code).len(),
        index < env.stack@.len(),
        result != FeedbackRepresentation::HeapRef,
    ensures
        kept(*old(code), *final(code)),
        env.typed(*old(code)) && old(code).holds(output, Ty::I64) && result != FeedbackRepresentation::HeapRef
            ==> steady(*old(code), *final(code)),
        final(code).len() > old(code).len(),
        forall|w: World|
            #![trigger final(code).at(w)]
            match old(code).at(w) {
                Status::Run(s) => {
                    let ty = passed_type(result);
                    runs_on(
                        final(code).at(w),
                        s,
                        old(code).len(),
                        vars_after(
                            s.vars,
                            env.stack@[index as int],
                            answered(result, seen(s.trace, ty, w)),
                            representation_tag(result) as int,
                        ),
                        read(s.trace, ty, s.vals[output as int], w),
                    )
                },
                st => final(code).at(w) == st,
            },
{
    let raw = code.load(type_for(result), output, 0);
    let payload = match result {
        FeedbackRepresentation::Int32 => code.convert(ConvertOp::SignExtend, Ty::I32, Ty::I64, raw),
        FeedbackRepresentation::Bool => code.convert(ConvertOp::ZeroExtend, Ty::I32, Ty::I64, raw),
        _ => code.convert(ConvertOp::Bitcast, Ty::F64, Ty::I64, raw),
    };
    let tag = code.iconst(Ty::I64, tag_for(result) as i64);
    opt_define(code, env.stack[index], OptPair { payload, tag });
}

pub open spec fn direct_post(
    env: OptEnv<'_>,
    direct: DirectCallSite,
    st: Status,
    st2: Status,
    n: int,
    function_index: int,
    provenance: Seq<OptProvenance>,
    depth: int,
    pc: u32,
    guard: u32,
    w: World,
) -> bool {
    match st {
        Status::Run(s) => {
            let called = direct_call(env, direct, s.vars, s.trace, function_index, w);
            if called.ok {
                runs_on(st2, s, n, called.vars, called.trace)
            } else {
                exits_with(
                    st2,
                    call_deopt(env, s, called.vars, called.trace, provenance, depth as nat, pc, guard, w),
                )
            }
        },
        st => st2 == st,
    }
}

#[verifier::rlimit(40)]
fn emit_direct_call(
    code: &mut Code,
    env: &OptEnv<'_>,
    direct: &DirectCallSite,
    function_index: usize,
    provenance: &Vec<OptProvenance>,
    depth: usize,
    pc: u32,
    guard: u32,
) -> (r: Result<(), CompileFailure>)
    requires
        env.wf(old(code).len()),
        depth <= env.stack@.len(),
        function_index + 1 + direct.call.arguments@.len() <= env.stack@.len(),
        direct.call.result != FeedbackRepresentation::HeapRef,
        !env.int32_loop,
    ensures
        kept(*old(code), *final(code)),
        r is Ok && env.typed(*old(code)) && direct.call.result != FeedbackRepresentation::HeapRef
            ==> steady(*old(code), *final(code)),
        r is Ok <==> stack_ownable(*env, provenance@, depth as int),
        r matches Err(e) ==> e == own_failure(*env, provenance@, depth as int),
        final(code).len() >= old(code).len(),
        r is Ok ==> forall|w: World|
            #![trigger final(code).at(w)]
            direct_post(
                *env,
                *direct,
                old(code).at(w),
                final(code).at(w),
                old(code).len(),
                function_index as int,
                provenance@,
                depth as int,
                pc,
                guard,
                w,
            ),
{
    let failed = code.new_block();
    let callee = opt_use(code, env.stack[function_index], Ty::I64);
    let ghost c1 = *code;
    emit_guarded_direct_callee_identity(
        code,
        env.abi,
        callee,
        DirectCalleeIdentity { object: direct.call.object_identity, bytecode: direct.call.bytecode_identity },
        failed,
    );
    let ghost c2 = *code;
    check_arguments(code, env, &direct.call.arguments, function_index + 1, failed);
    let ghost c3 = *code;
    let output = enter_callee(code, env, direct, function_index + 1, failed);
    let ghost c4 = *code;
    take_result(code, env, direct.call.result, output, function_index);
    let ghost c5 = *code;
    let continuation = code.new_block();
    code.jump(continuation);
    let _ = code.switch_to(failed);
    let ghost c6 = *code;
    if let Err(e) = emit_call_deopt(code, env, provenance, depth, pc, guard) {
        return Err(e);
    }
    let ghost c7 = *code;
    let _ = code.switch_to(continuation);
    proof {
        assert forall|w: World|
            #![trigger code.at(w)]
            direct_post(
                *env,
                *direct,
                old(code).at(w),
                code.at(w),
                old(code).len(),
                function_index as int,
                provenance@,
                depth as int,
                pc,
                guard,
                w,
            ) by {
            waits_for_known_blocks(old(code).insts@, w);
            let a1 = c1.at(w);
            let a2 = c2.at(w);
            let a3 = c3.at(w);
            let a4 = c4.at(w);
            let a5 = c5.at(w);
            let a6 = c6.at(w);
            let a7 = c7.at(w);
            if let Status::Run(s) = old(code).at(w) {
                let called = direct_call(*env, *direct, s.vars, s.trace, function_index as int, w);
                if !called.ok {
                    let t = a6->Run_0;
                    same_call_deopt(*env, s, t, t.vars, t.trace, provenance@, depth as nat, pc, guard, w);
                }
            }
        }
    }
    Ok(())
}

/// The operands of the call do not fit on the stack, something below them has
/// no known owner, or there is no room for the result.
pub open spec fn call_refusal(slots: int, provenance: Seq<OptProvenance>, depth: usize, argc: usize, has_this: bool) -> Option<
    Refusal,
> {
    let pop = argc + 1 + (if has_this {
        1int
    } else {
        0int
    });
    if depth < pop {
        Some(
            Refusal {
                failure: CompileFailure::InvalidArtifact,
                stage: Some(Tier2CompileStage::GenericCallBaseUnderflow),
            },
        )
    } else if exists|i: int| 0 <= i < depth - pop && #[trigger] provenance[i] == OptProvenance::Unknown {
        Some(
            Refusal {
                failure: CompileFailure::InvalidArtifact,
                stage: Some(Tier2CompileStage::GenericCallPrefixUnknown),
            },
        )
    } else if depth + 1 >= slots {
        Some(
            Refusal {
                failure: CompileFailure::ResourceLimit,
                stage: Some(Tier2CompileStage::GenericCallOutputCapacity),
            },
        )
    } else {
        None
    }
}

fn call_shape(slots: usize, provenance: &Vec<OptProvenance>, depth: usize, argc: usize, has_this: bool) -> (r: Result<
    CallShape,
    Refusal,
>)
    requires
        depth <= provenance@.len(),
        argc <= 0xffff,
        depth <= slots < crate::frame::MAX_SLOTS,
    ensures
        match r {
            Ok(shape) => call_refusal(slots as int, provenance@, depth, argc, has_this) is None && shape.wf(slots as int)
                && shape.depth == depth && shape.argc == argc && shape.has_this == has_this,
            Err(e) => call_refusal(slots as int, provenance@, depth, argc, has_this) == Some(e),
        },
{
    let pop: usize = argc + 1 + if has_this {
        1
    } else {
        0
    };
    if depth < pop {
        return Err(
            Refusal {
                failure: CompileFailure::InvalidArtifact,
                stage: Some(Tier2CompileStage::GenericCallBaseUnderflow),
            },
        );
    }
    let base: usize = depth - pop;
    let mut i: usize = 0;
    while i < base
        invariant
            i <= base <= depth <= provenance@.len(),
            base == depth - pop,
            pop == argc + 1 + (if has_this {
                1int
            } else {
                0int
            }),
            forall|k: int| 0 <= k < i ==> #[trigger] provenance@[k] != OptProvenance::Unknown,
        decreases base - i,
    {
        // The entry states keep what lies below only where all incoming paths
        // agree on its ownership; nothing is guessed here.
        if matches!(provenance[i], OptProvenance::Unknown) {
            assert(provenance@[i as int] == OptProvenance::Unknown);
            return Err(
                Refusal {
                    failure: CompileFailure::InvalidArtifact,
                    stage: Some(Tier2CompileStage::GenericCallPrefixUnknown),
                },
            );
        }
        i = i + 1;
    }
    if depth + 1 >= slots {
        return Err(
            Refusal {
                failure: CompileFailure::ResourceLimit,
                stage: Some(Tier2CompileStage::GenericCallOutputCapacity),
            },
        );
    }
    Ok(CallShape { argc, has_this, base, depth })
}

/// What the stack slots hold after a call: the result on top of what lay
/// below, and nothing known above it.
pub open spec fn provenance_after_call(
    provenance: Seq<OptProvenance>,
    shape: CallShape,
    direct: bool,
    scalar_result: bool,
) -> Seq<OptProvenance> {
    if direct {
        provenance.update(shape.base as int, OptProvenance::ImmediatePrimitive)
    } else {
        Seq::new(
            provenance.len(),
            |i: int|
                if i == shape.base {
                    if scalar_result {
                        OptProvenance::ImmediatePrimitive
                    } else {
                        OptProvenance::OwnedSlot
                    }
                } else if shape.base < i <= shape.output_index() {
                    OptProvenance::Unknown
                } else {
                    provenance[i]
                },
        )
    }
}

pub open spec fn shape_of(depth: usize, argc: usize, has_this: bool) -> CallShape {
    CallShape {
        argc,
        has_this,
        base: (depth - argc - 1 - (if has_this {
            1int
        } else {
            0int
        })) as usize,
        depth,
    }
}

/// Emits a call whose operands lie on top of the operand stack, and answers
/// the depth behind it.
pub fn emit_opt_specialized_call(
    code: &mut Code,
    env: &OptEnv<'_>,
    provenance: &mut Vec<OptProvenance>,
    depth: usize,
    argc: usize,
    has_this: bool,
    pc: u32,
    direct: Option<&DirectCallSite>,
    guard: u32,
    scalar_result: bool,
) -> (r: Result<usize, Refusal>)
    requires
        env.wf(old(code).len()),
        !env.int32_loop,
        depth <= env.stack@.len(),
        old(provenance)@.len() == env.stack@.len(),
        argc <= 0xffff,
        direct matches Some(d) ==> d.call.result != FeedbackRepresentation::HeapRef,
    ensures
        kept(*old(code), *final(code)),
        r is Ok && env.typed(*old(code))
            && (direct matches Some(site) ==> site.call.result != FeedbackRepresentation::HeapRef)
            ==> steady(*old(code), *final(code)),
        final(code).len() >= old(code).len(),
        final(provenance)@.len() == old(provenance)@.len(),
        match call_refusal(env.stack@.len() as int, old(provenance)@, depth, argc, has_this) {
            Some(refusal) => r == Err::<usize, Refusal>(refusal) && final(code).insts@ == old(code).insts@,
            None => {
                let shape = shape_of(depth, argc, has_this);
                let directly = direct is Some && enters_directly(
                    *direct->Some_0,
                    old(provenance)@,
                    argc,
                    has_this,
                    shape.function_index(),
                );
                &&& r is Ok <==> stack_ownable(*env, old(provenance)@, depth as int) && (directly || (helper_known(
                    *env,
                    env.abi.helper_call,
                ) && helper_known(*env, env.abi.helper_free)))
                &&& r matches Err(refusal) ==> refusal.failure == own_failure(*env, old(provenance)@, depth as int) && refusal.stage is None
                &&& r matches Ok(after) ==> {
                    &&& after == shape.base + 1
                    &&& final(provenance)@ == provenance_after_call(old(provenance)@, shape, directly, scalar_result)
                    &&& directly ==> forall|w: World|
                        #![trigger final(code).at(w)]
                        direct_post(
                            *env,
                            *direct->Some_0,
                            old(code).at(w),
                            final(code).at(w),
                            old(code).len(),
                            shape.function_index(),
                            old(provenance)@,
                            depth as int,
                            pc,
                            guard,
                            w,
                        )
                    &&& !directly ==> forall|w: World|
                        #![trigger final(code).at(w)]
                        match old(code).at(w) {
                            Status::Run(s) => progresses(
                                final(code).at(w),
                                s,
                                old(code).len(),
                                generic_call(*env, s, shape, old(provenance)@, pc, w),
                            ),
                            st => final(code).at(w) == st,
                        }
                }
            },
        },
{
    let shape = match call_shape(env.stack.len(), provenance, depth, argc, has_this) {
        Ok(shape) => shape,
        Err(refusal) => {
            return Err(refusal);
        },
    };
    assert(shape == shape_of(depth, argc, has_this));
    if let Some(site) = direct {
        let function_index: usize = if has_this {
            shape.base + 1
        } else {
            shape.base
        };
        if can_enter(site, provenance, argc, has_this, function_index) {
            if let Err(failure) = emit_direct_call(
                code,
                env,
                site,
                function_index,
                provenance,
                depth,
                pc,
                guard,
            ) {
                return Err(Refusal { failure, stage: None });
            }
            provenance.set(shape.base, OptProvenance::ImmediatePrimitive);
            return Ok(shape.base + 1);
        }
    }
    if let Err(failure) = emit_generic_call(code, env, shape, provenance, pc) {
        return Err(Refusal { failure, stage: None });
    }
    let ghost before = provenance@;
    provenance.set(
        shape.base,
        if scalar_result {
            OptProvenance::ImmediatePrimitive
        } else {
            OptProvenance::OwnedSlot
        },
    );
    let end: usize = if has_this {
        depth + 1
    } else {
        depth + 2
    };
    let mut i: usize = shape.base + 1;
    while i < end
        invariant
            kept(*old(code), *code),
            shape.base < i <= end,
            end == shape.output_index() + 1,
            end <= provenance@.len(),
            provenance@.len() == before.len(),
            forall|k: int|
                0 <= k < before.len() ==> #[trigger] provenance@[k] == if k == shape.base {
                    if scalar_result {
                        OptProvenance::ImmediatePrimitive
                    } else {
                        OptProvenance::OwnedSlot
                    }
                } else if shape.base < k < i {
                    OptProvenance::Unknown
                } else {
                    before[k]
                },
        decreases end - i,
    {
        provenance.set(i, OptProvenance::Unknown);
        i = i + 1;
    }
    assert(provenance@ =~= provenance_after_call(before, shape, false, scalar_result));
    Ok(shape.base + 1)
}

} // verus!
