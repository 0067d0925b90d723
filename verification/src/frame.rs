//! The interpreter frame: how emitted code spills it, calls helpers and leaves.
use crate::code::agree;
use crate::code::value;
use crate::code::waits_for_known_blocks;
use crate::code::wrap;
use crate::code::BinaryOp;
use crate::code::kept;
use crate::code::Code;
use crate::code::Event;
use crate::code::IntCc;
use crate::code::State;
use crate::code::Status;
use crate::code::Ty;
use crate::code::World;
use crate::control::CompileFailure;
use crate::lower_values::OptVars;
use crate::typing::steady;
use crate::typing::closing;
use crate::typing::calm;
use crate::assemble::Known;
use crate::frame_typing::pair_held;
use crate::frame_typing::slot_named;
use crate::frame_typing::slots_named;
use crate::frame_typing::word_types;
use vstd::prelude::*;

verus! {

broadcast use {crate::typing::group_typing, crate::frame_typing::group_frame};

/// Where the runtime keeps things, and the numbers that it and emitted code
/// agree on.
#[derive(Debug)]
pub struct RuntimeAbi {
    /// Offsets into the frame.
    pub runtime_api: i32,
    pub stack_top: i32,
    pub pc: i32,
    pub bytecode_start: i32,
    pub flags: i32,
    /// Offsets of the helpers in the runtime's table, by helper number.
    pub helper_offsets: Vec<i32>,
    pub helper_free: usize,
    pub helper_materialize_owner: usize,
    pub helper_get_property: usize,
    pub helper_poll: usize,
    /// What the helper that makes a stack slot an owner answers.
    pub materialized: i64,
    pub owner_source_argument: u32,
    pub owner_source_local: u32,
    pub exit_exception: u32,
    pub exit_deopt: u32,
    pub exit_interrupt: u32,
    pub exit_done: u32,
    /// The frame flag that records a taken side path.
    pub side_path_hit: u32,
    /// More offsets into the frame.
    pub arg_buf: i32,
    pub var_buf: i32,
    pub stack_base: i32,
    pub result: i32,
    pub ctx: i32,
    pub helper_shape_guard: usize,
    pub helper_call: usize,
    pub helper_get_global: usize,
    pub helper_dup: usize,
    pub helper_set_property: usize,
    pub helper_to_bool: usize,
    /// What the helper that compares shapes answers.
    pub shape_matches: i64,
    pub shape_differs: i64,
    pub length_atom: u32,
    /// The frame flags under which every consumed value goes through the runtime.
    pub release_flags: i64,
    /// Where a function object keeps its bytecode.
    pub function_bytecode: i32,
    pub property: PropertyLayout,
    pub elements: ElementLayout,
}

/// Where an object keeps its shape and its properties.
#[derive(Clone, Copy, Debug, PartialEq, Eq, Structural)]
pub struct PropertyLayout {
    pub object_shape: i32,
    pub shape_generation: i32,
    pub object_properties: i32,
}

/// Where arrays and typed arrays keep their elements, and how they are told apart.
#[derive(Clone, Copy, Debug, PartialEq, Eq, Structural)]
pub struct ElementLayout {
    pub object_flags: i32,
    pub fast_array_mask: i64,
    pub object_class_id: i32,
    pub array_class_id: i64,
    pub int32_array_class_id: i64,
    pub float64_array_class_id: i64,
    pub array_count: i32,
    pub array_data: i32,
    pub typed_array_ptr: i32,
    pub typed_array_track_rab: i32,
    pub typed_array_buffer: i32,
    pub object_union: i32,
    pub array_buffer_detached: i32,
    pub array_buffer_immutable: i32,
    /// The runtime's query for a typed array's storage, and its conventions.
    pub array_query: i64,
    pub metadata_size: u32,
    pub query_length: i64,
    pub query_ok: i64,
    pub mode_int32: i64,
    pub mode_float64: i64,
}

/// More slots than a frame can have are not addressed.
pub const MAX_SLOTS: usize = 0x7ff_fff0;

/// A promoted field: the variables that hold its value, its address, and
/// whether they are valid and not yet written back.
#[derive(Clone, Copy, Debug, PartialEq, Eq, Structural)]
pub struct CachedVars {
    pub value: OptVars,
    pub data: usize,
    pub valid: usize,
    pub dirty: usize,
}

/// Frame-level values and variable tables that every guarded lowering needs to
/// spill state and to leave through an exact exit.
pub struct OptEnv<'a> {
    pub frame: usize,
    pub sret: usize,
    pub arg_buf: usize,
    pub var_buf: usize,
    pub stack_base: usize,
    pub payload_type: Ty,
    pub int32_loop: bool,
    pub arguments: &'a Vec<OptVars>,
    pub locals: &'a Vec<OptVars>,
    pub stack: &'a Vec<OptVars>,
    pub helper_signatures: &'a Vec<usize>,
    pub abi: &'a RuntimeAbi,
    pub cache: &'a Vec<CachedVars>,
    /// The stack slots through which typed arrays are queried.
    pub query_receiver: usize,
    pub query_metadata: usize,
    /// The stack slot through which directly called code answers.
    pub call_output: usize,
}

impl<'a> OptEnv<'a> {
    /// The frame's values are in the code, and its slots can be addressed.
    pub open spec fn wf(&self, n: int) -> bool {
        &&& self.frame < n
        &&& self.sret < n
        &&& self.arg_buf < n
        &&& self.var_buf < n
        &&& self.stack_base < n
        &&& self.arguments@.len() < MAX_SLOTS
        &&& self.locals@.len() < MAX_SLOTS
        &&& self.stack@.len() < MAX_SLOTS
        &&& forall|i: int| 0 <= i < self.stack@.len() ==> (#[trigger] self.stack@[i]).payload != self.stack@[i].tag
        &&& self.payload_type == if self.int32_loop {
            Ty::I32
        } else {
            Ty::I64
        }
    }
}

/// Whether control goes on, and what was observed.
pub struct Flow {
    pub running: bool,
    pub trace: Seq<Event>,
}

pub open spec fn runs_on(st: Status, s: State, n: int, vars: Map<int, int>, trace: Seq<Event>) -> bool {
    st matches Status::Run(t) && t.vars == vars && t.trace == trace && agree(s, t, n)
}

pub open spec fn exits_with(st: Status, trace: Seq<Event>) -> bool {
    st matches Status::Done { values, state } && values.len() == 0 && state.trace == trace
}

/// Control goes on with these variables, or has left; either way this is what
/// was observed.
pub open spec fn flows(st: Status, s: State, n: int, vars: Map<int, int>, flow: Flow) -> bool {
    if flow.running {
        runs_on(st, s, n, vars, flow.trace)
    } else {
        exits_with(st, flow.trace)
    }
}

pub open spec fn top_store(trace: Seq<Event>, abi: RuntimeAbi, frame: int, stack_base: int, depth: int) -> Seq<Event> {
    trace.push(
        Event::Store {
            ty: Ty::I64,
            address: wrap(Ty::I64, frame + abi.stack_top),
            value: wrap(Ty::I64, stack_base + depth * 16),
        },
    )
}

/// Publishes the depth of the operand stack.
pub fn opt_set_stack_top(code: &mut Code, env: &OptEnv<'_>, depth: usize)
    requires
        env.wf(old(code).len()),
        depth <= MAX_SLOTS,
    ensures
        kept(*old(code), *final(code)),
        env.typed(*old(code)) ==> steady(*old(code), *final(code)),
        final(code).len() == old(code).len() + 2,
        forall|w: World|
            #![trigger final(code).at(w)]
            match old(code).at(w) {
                Status::Run(s) => runs_on(
                    final(code).at(w),
                    s,
                    old(code).len(),
                    s.vars,
                    top_store(s.trace, *env.abi, s.vals[env.frame as int], s.vals[env.stack_base as int], depth as int),
                ),
                st => final(code).at(w) == st,
            },
{
    let top = code.binary_imm(BinaryOp::Add, Ty::I64, env.stack_base, depth as i64 * 16);
    code.store(Ty::I64, top, env.frame, env.abi.stack_top);
}

/// The number of the map from which a deoptimization exit recovers; other
/// exits have none.
pub open spec fn map_identity(abi: RuntimeAbi, kind: u32, guard: u32) -> int {
    if kind == abi.exit_deopt {
        if guard < u32::MAX {
            guard + 1
        } else {
            u32::MAX as int
        }
    } else {
        0
    }
}

/// A deoptimization exit names its guard: the records of different guards
/// differ, and none looks like that of another exit. The last guard number is
/// left out: it shares its record with the one before.
pub proof fn deopt_records_name_their_guard(abi: RuntimeAbi, a: u32, b: u32, kind: u32)
    requires
        a < u32::MAX,
        b < u32::MAX,
        kind != abi.exit_deopt,
    ensures
        map_identity(abi, abi.exit_deopt, a) == map_identity(abi, abi.exit_deopt, b) <==> a == b,
        map_identity(abi, abi.exit_deopt, a) != map_identity(abi, kind, b),
{
}

/// The record that an exit leaves behind.
pub open spec fn exit_record(trace: Seq<Event>, abi: RuntimeAbi, sret: int, kind: u32, resume: int, guard: u32) -> Seq<Event> {
    trace.push(Event::Store { ty: Ty::I32, address: wrap(Ty::I64, sret), value: wrap(Ty::I32, kind as int) }).push(
        Event::Store { ty: Ty::I32, address: wrap(Ty::I64, sret + 4), value: wrap(Ty::I32, map_identity(abi, kind, guard)) },
    ).push(Event::Store { ty: Ty::I64, address: wrap(Ty::I64, sret + 8), value: resume }).push(
        Event::Store { ty: Ty::I64, address: wrap(Ty::I64, sret + 16), value: 0 },
    )
}

/// Leaves the function with a record of the exit.
pub fn emit_opt_exit(code: &mut Code, env: &OptEnv<'_>, kind: u32, resume: Option<usize>, guard: u32)
    requires
        env.wf(old(code).len()),
        resume matches Some(id) ==> id < old(code).len(),
    ensures
        kept(*old(code), *final(code)),
        env.typed(*old(code)) && (resume matches Some(id) ==> old(code).holds(id, Ty::I64))
            ==> closing(*old(code), *final(code)),
        final(code).len() > old(code).len(),
        forall|w: World|
            #![trigger final(code).at(w)]
            match old(code).at(w) {
                Status::Run(s) => exits_with(
                    final(code).at(w),
                    exit_record(
                        s.trace,
                        *env.abi,
                        s.vals[env.sret as int],
                        kind,
                        if resume is Some {
                            s.vals[resume->Some_0 as int]
                        } else {
                            0
                        },
                        guard,
                    ),
                ),
                st => final(code).at(w) == st,
            },
{
    let zero = code.iconst(Ty::I64, 0);
    let map: u32 = if kind == env.abi.exit_deopt {
        if guard < u32::MAX {
            guard + 1
        } else {
            u32::MAX
        }
    } else {
        0
    };
    let kind_value = code.iconst(Ty::I32, kind as i64);
    let map_value = code.iconst(Ty::I32, map as i64);
    code.store(Ty::I32, kind_value, env.sret, 0);
    code.store(Ty::I32, map_value, env.sret, 4);
    let target: usize = match resume {
        Some(id) => id,
        None => zero,
    };
    code.store(Ty::I64, target, env.sret, 8);
    code.store(Ty::I64, zero, env.sret, 16);
    code.ret(Vec::new());
    proof {
        assert forall|w: World|
            #![trigger code.at(w)]
            match old(code).at(w) {
                Status::Run(s) => exits_with(
                    code.at(w),
                    exit_record(
                        s.trace,
                        *env.abi,
                        s.vals[env.sret as int],
                        kind,
                        if resume is Some {
                            s.vals[resume->Some_0 as int]
                        } else {
                            0
                        },
                        guard,
                    ),
                ),
                st => code.at(w) == st,
            } by {
            if let Status::Run(s) = old(code).at(w) {
                let t = code.at(w);
                assert(t is Done);
                assert(t->values.len() == 0);
            }
        }
    }
}

/// The loads that find a helper.
pub open spec fn pointer_reads(trace: Seq<Event>, abi: RuntimeAbi, frame: int, helper: int, w: World) -> Seq<Event> {
    let api = wrap(Ty::I64, (w.observe)(trace.len() as int));
    let pointer = wrap(Ty::I64, (w.observe)(trace.len() + 1int));
    trace.push(Event::Load { ty: Ty::I64, address: wrap(Ty::I64, frame + abi.runtime_api), value: api }).push(
        Event::Load { ty: Ty::I64, address: wrap(Ty::I64, api + abi.helper_offsets@[helper]), value: pointer },
    )
}

/// The loads that find a helper, and its call.
pub open spec fn helper_call(trace: Seq<Event>, abi: RuntimeAbi, frame: int, helper: int, args: Seq<int>, w: World) -> Seq<Event> {
    let pointer = wrap(Ty::I64, (w.observe)(trace.len() + 1int));
    pointer_reads(trace, abi, frame, helper, w).push(
        Event::Call { callee: pointer, args: seq![frame] + args, result: helper_status(trace, w) },
    )
}

/// What the helper that is called after `trace` answers.
pub open spec fn helper_status(trace: Seq<Event>, w: World) -> int {
    wrap(Ty::I32, (w.observe)(trace.len() + 2int))
}

/// The integers as 32-bit arguments.
pub open spec fn as_arguments(values: Seq<u32>) -> Seq<int> {
    values.map_values(|v: u32| wrap(Ty::I32, v as int))
}

/// The helper exists, and its signature was declared.
pub open spec fn helper_known(env: OptEnv<'_>, helper: usize) -> bool {
    helper < env.helper_signatures@.len() && helper < env.abi.helper_offsets@.len()
}

/// Calls an address with the frame and 32-bit constants; answers its status.
pub fn call_through(code: &mut Code, env: &OptEnv<'_>, signature: usize, pointer: usize, arguments: &Vec<u32>) -> (r: usize)
    requires
        env.wf(old(code).len()),
        pointer < old(code).len(),
    ensures
        kept(*old(code), *final(code)),
        env.typed(*old(code)) && old(code).holds(pointer, Ty::I64)
            && (signature < old(code).len() && old(code).kind(signature as int) == Known::Signature(word_types(arguments@.len()), Some(Ty::I32)))
            ==> steady(*old(code), *final(code)),
        final(code).kind(r as int) == Known::Value(Ty::I32),
        r < final(code).len(),
        old(code).len() < final(code).len(),
        forall|w: World|
            #![trigger final(code).at(w)]
            match old(code).at(w) {
                Status::Run(s) => {
                    let status = wrap(Ty::I32, (w.observe)(s.trace.len() as int));
                    &&& runs_on(
                        final(code).at(w),
                        s,
                        old(code).len(),
                        s.vars,
                        s.trace.push(
                            Event::Call {
                                callee: s.vals[pointer as int],
                                args: seq![s.vals[env.frame as int]] + as_arguments(arguments@),
                                result: status,
                            },
                        ),
                    )
                    &&& value(final(code).at(w), r) == status
                },
                st => final(code).at(w) == st,
            },
{
    let mut params: Vec<usize> = Vec::new();
    params.push(env.frame);
    let ghost loaded = *code;
    let mut i: usize = 0;
    while i < arguments.len()
        invariant
            kept(*old(code), *code),
            env.typed(*old(code)) && old(code).holds(pointer, Ty::I64)
                && (signature < old(code).len() && old(code).kind(signature as int) == Known::Signature(word_types(arguments@.len()), Some(Ty::I32)))
                ==> steady(*old(code), *code),
            env.typed(*old(code))
                ==> env.typed(*code) && (forall|k: int| 0 <= k < i ==> code.holds(#[trigger] params@[k + 1], Ty::I32)),
            i <= arguments@.len(),
            env.frame < loaded.len() <= code.len(),
            pointer < loaded.len(),
            params@.len() == i + 1,
            params@[0] == env.frame,
            forall|w: World|
                #![trigger code.at(w)]
                match loaded.at(w) {
                    Status::Run(s) => {
                        &&& runs_on(code.at(w), s, loaded.len(), s.vars, s.trace)
                        &&& forall|k: int|
                            0 <= k < i ==> value(code.at(w), #[trigger] params@[k + 1]) == wrap(Ty::I32, arguments@[k] as int)
                    },
                    st => code.at(w) == st,
                },
            forall|k: int| 0 <= k < params@.len() ==> #[trigger] params@[k] < code.len(),
        decreases arguments@.len() - i,
    {
        let ghost before = *code;
        let ghost params0 = params@;
        let constant = code.iconst(Ty::I32, arguments[i] as i64);
        params.push(constant);
        proof {
            assert forall|w: World|
                #![trigger code.at(w)]
                match loaded.at(w) {
                    Status::Run(s) => {
                        &&& runs_on(code.at(w), s, loaded.len(), s.vars, s.trace)
                        &&& forall|k: int|
                            0 <= k < i + 1 ==> value(code.at(w), #[trigger] params@[k + 1]) == wrap(
                                Ty::I32,
                                arguments@[k] as int,
                            )
                    },
                    st => code.at(w) == st,
                } by {
                let b = before.at(w);
                if let Status::Run(s) = loaded.at(w) {
                    assert forall|k: int| 0 <= k < i + 1 implies value(code.at(w), #[trigger] params@[k + 1]) == wrap(
                        Ty::I32,
                        arguments@[k] as int,
                    ) by {
                        if k < i {
                            assert(params@[k + 1] == params0[k + 1]);
                            assert(params0[k + 1] < before.len());
                        }
                    }
                }
            }
        }
        i = i + 1;
    }
    let ghost ready = *code;
    let ghost list = params@;
    proof {
        if env.typed(*old(code)) {
            assert forall|k: int| 0 <= k < list.len() implies code.holds(
                #[trigger] list[k],
                word_types(arguments@.len())[k],
            ) by {
                if k > 0 {
                    assert(code.holds(list[(k - 1) + 1], Ty::I32));
                }
            }
        }
    }
    let r = code.call(signature, Ty::I32, pointer, params);
    proof {
        assert forall|w: World|
            #![trigger code.at(w)]
            match old(code).at(w) {
                Status::Run(s) => {
                    let status = wrap(Ty::I32, (w.observe)(s.trace.len() as int));
                    &&& runs_on(
                        code.at(w),
                        s,
                        old(code).len(),
                        s.vars,
                        s.trace.push(
                            Event::Call {
                                callee: s.vals[pointer as int],
                                args: seq![s.vals[env.frame as int]] + as_arguments(arguments@),
                                result: status,
                            },
                        ),
                    )
                    &&& value(code.at(w), r) == status
                },
                st => code.at(w) == st,
            } by {
            let m = ready.at(w);
            if let Status::Run(s) = old(code).at(w) {
                let q = m->Run_0;
                assert(q.get(list) =~= seq![s.vals[env.frame as int]] + as_arguments(arguments@)) by {
                    assert forall|k: int| 0 <= k < list.len() implies q.vals[list[k] as int] == (seq![s.vals[env.frame as int]]
                        + as_arguments(arguments@))[k] by {
                        if k > 0 {
                            assert(value(m, list[(k - 1) + 1]) == wrap(Ty::I32, arguments@[k - 1] as int));
                        }
                    }
                }
            }
        }
    }
    r
}

/// Finds a helper; answers its address.
pub fn helper_pointer(code: &mut Code, env: &OptEnv<'_>, helper: usize) -> (r: usize)
    requires
        env.wf(old(code).len()),
        helper_known(*env, helper),
    ensures
        kept(*old(code), *final(code)),
        env.typed(*old(code)) ==> steady(*old(code), *final(code)),
        final(code).kind(r as int) == Known::Value(Ty::I64),
        r == old(code).len() + 1,
        final(code).len() == old(code).len() + 2,
        forall|w: World|
            #![trigger final(code).at(w)]
            match old(code).at(w) {
                Status::Run(s) => runs_on(
                    final(code).at(w),
                    s,
                    old(code).len(),
                    s.vars,
                    pointer_reads(s.trace, *env.abi, s.vals[env.frame as int], helper as int, w),
                ) && value(final(code).at(w), r) == wrap(Ty::I64, (w.observe)(s.trace.len() + 1int)),
                st => final(code).at(w) == st,
            },
{
    let api = code.load(Ty::I64, env.frame, env.abi.runtime_api);
    code.load(Ty::I64, api, env.abi.helper_offsets[helper])
}

/// Calls a helper; answers its status.
pub fn call_helper(code: &mut Code, env: &OptEnv<'_>, helper: usize, arguments: &Vec<u32>) -> (r: usize)
    requires
        env.wf(old(code).len()),
        helper_known(*env, helper),
    ensures
        kept(*old(code), *final(code)),
        env.typed(*old(code)) && env.takes(*old(code), helper, arguments@.len()) ==> steady(*old(code), *final(code)),
        final(code).kind(r as int) == Known::Value(Ty::I32),
        r < final(code).len(),
        old(code).len() < final(code).len(),
        forall|w: World|
            #![trigger final(code).at(w)]
            match old(code).at(w) {
                Status::Run(s) => {
                    &&& runs_on(
                        final(code).at(w),
                        s,
                        old(code).len(),
                        s.vars,
                        helper_call(
                            s.trace,
                            *env.abi,
                            s.vals[env.frame as int],
                            helper as int,
                            as_arguments(arguments@),
                            w,
                        ),
                    )
                    &&& value(final(code).at(w), r) == helper_status(s.trace, w)
                },
                st => final(code).at(w) == st,
            },
{
    let pointer = helper_pointer(code, env, helper);
    let ghost c1 = *code;
    let r = call_through(code, env, env.helper_signatures[helper], pointer, arguments);
    proof {
        assert forall|w: World|
            #![trigger code.at(w)]
            match old(code).at(w) {
                Status::Run(s) => {
                    &&& runs_on(
                        code.at(w),
                        s,
                        old(code).len(),
                        s.vars,
                        helper_call(
                            s.trace,
                            *env.abi,
                            s.vals[env.frame as int],
                            helper as int,
                            as_arguments(arguments@),
                            w,
                        ),
                    )
                    &&& value(code.at(w), r) == helper_status(s.trace, w)
                },
                st => code.at(w) == st,
            } by {
            let a1 = c1.at(w);
        }
    }
    r
}

/// What calling a helper does that raises an exception unless it answers zero.
pub open spec fn helper_flow(
    trace: Seq<Event>,
    env: OptEnv<'_>,
    s: State,
    exception_depth: int,
    helper: int,
    args: Seq<int>,
    w: World,
) -> Flow {
    let called = helper_call(trace, *env.abi, s.vals[env.frame as int], helper, args, w);
    if helper_status(trace, w) == 0 {
        Flow { running: true, trace: called }
    } else {
        Flow {
            running: false,
            trace: exit_record(
                top_store(called, *env.abi, s.vals[env.frame as int], s.vals[env.stack_base as int], exception_depth),
                *env.abi,
                s.vals[env.sret as int],
                env.abi.exit_exception,
                0,
                0,
            ),
        }
    }
}

/// Calls a helper that may raise an exception; then the frame's operand stack
/// is `exception_depth` deep.
pub fn emit_opt_helper(code: &mut Code, env: &OptEnv<'_>, exception_depth: usize, helper: usize, arguments: &Vec<u32>) -> (r: Result<
    (),
    CompileFailure,
>)
    requires
        env.wf(old(code).len()),
        exception_depth <= MAX_SLOTS,
    ensures
        kept(*old(code), *final(code)),
        r is Ok && env.typed(*old(code)) && env.takes(*old(code), helper, arguments@.len())
            ==> steady(*old(code), *final(code)),
        r is Ok <==> helper_known(*env, helper),
        r is Err ==> r == Err::<(), CompileFailure>(CompileFailure::InvalidArtifact),
        final(code).len() >= old(code).len(),
        r is Ok ==> forall|w: World|
            #![trigger final(code).at(w)]
            match old(code).at(w) {
                Status::Run(s) => flows(
                    final(code).at(w),
                    s,
                    old(code).len(),
                    s.vars,
                    helper_flow(s.trace, *env, s, exception_depth as int, helper as int, as_arguments(arguments@), w),
                ),
                st => final(code).at(w) == st,
            },
{
    if helper >= env.helper_signatures.len() || helper >= env.abi.helper_offsets.len() {
        return Err(CompileFailure::InvalidArtifact);
    }
    let status = call_helper(code, env, helper, arguments);
    let ghost called = *code;
    let succeeded = code.compare_imm(IntCc::Equal, Ty::I32, status, 0);
    let continuation = code.new_block();
    let exception = code.new_block();
    code.branch(succeeded, continuation, exception);
    let _ = code.switch_to(exception);
    let ghost failing = *code;
    opt_set_stack_top(code, env, exception_depth);
    let ghost topped = *code;
    emit_opt_exit(code, env, env.abi.exit_exception, None, 0);
    let ghost left = *code;
    let _ = code.switch_to(continuation);
    proof {
        assert forall|w: World|
            #![trigger code.at(w)]
            match old(code).at(w) {
                Status::Run(s) => flows(
                    code.at(w),
                    s,
                    old(code).len(),
                    s.vars,
                    helper_flow(s.trace, *env, s, exception_depth as int, helper as int, as_arguments(arguments@), w),
                ),
                st => code.at(w) == st,
            } by {
            waits_for_known_blocks(old(code).insts@, w);
            let a = called.at(w);
            let b = failing.at(w);
            let c = topped.at(w);
            let d = left.at(w);
        }
    }
    Ok(())
}

} // verus!
