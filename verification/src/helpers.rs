//! Emitted calls of the runtime: releasing and producing owned values, polling,
//! and the checks at entry.
use crate::code::value;
use crate::code::waits_for_known_blocks;
use crate::code::wrap;
use crate::code::BinaryOp;
use crate::code::kept;
use crate::code::Code;
use crate::code::Event;
use crate::code::IntCc;
use crate::code::State;
use crate::code::Status;
use crate::code::Ty;
use crate::code::World;
use crate::control::CompileFailure;
use crate::exits::emit_opt_guard_branch;
use crate::exits::opt_own_stack_for_exit;
use crate::exits::own_flow;
use crate::exits::own_failure;
use crate::exits::own_failures;
use crate::exits::placed_failure;
use crate::exits::pc_store;
use crate::exits::same_own_flow;
use crate::exits::set_pc;
use crate::exits::spill;
use crate::exits::stack_ownable;
use crate::exits::store_slots;
use crate::exits::deopt_trace;
use crate::frame::as_arguments;
use crate::frame::call_helper;
use crate::frame::emit_opt_exit;
use crate::frame::emit_opt_helper;
use crate::frame::exit_record;
use crate::frame::exits_with;
use crate::frame::flows;
use crate::frame::helper_call;
use crate::frame::helper_flow;
use crate::frame::helper_known;
use crate::frame::helper_status;
use crate::frame::opt_set_stack_top;
use crate::frame::runs_on;
use crate::frame::top_store;
use crate::frame::Flow;
use crate::frame::OptEnv;
use crate::frame::MAX_SLOTS;
use crate::lower_values::opt_define;
use crate::lower_values::opt_load;
use crate::lower_values::opt_store;
use crate::lower_values::opt_use;
use crate::lower_values::pair_loads;
use crate::lower_values::pair_stores;
use crate::lower_values::undefined;
use crate::lower_values::vars_after;
use crate::ownership::alias_store;
use crate::ownership::opt_alias_store;
use crate::ownership::AliasStore;
use crate::provenance::OptProvenance;
use crate::qjs::JS_TAG_UNDEFINED;
use crate::specialization::NumericSpecialization;
use crate::typing::steady;
use crate::typing::closing;
use crate::typing::calm;
use crate::assemble::Known;
use crate::frame_typing::pair_held;
use crate::frame_typing::slot_named;
use crate::frame_typing::slots_named;
use crate::frame_typing::cached_named;
use crate::frame_typing::cache_named;
use crate::frame_typing::word_types;
use vstd::prelude::*;

verus! {

broadcast use {crate::typing::group_typing, crate::frame_typing::group_frame};

/// The number of a stack slot among all slots of the frame: arguments, locals,
/// then the stack.
pub open spec fn flat_stack_slot(env: OptEnv<'_>, index: int) -> int {
    env.arguments@.len() + env.locals@.len() + index
}

pub fn opt_flat_stack_slot(env: &OptEnv<'_>, index: usize) -> (r: Result<u32, CompileFailure>)
    ensures
        flat_stack_slot(*env, index as int) <= u32::MAX ==> r == Ok::<u32, CompileFailure>(
            flat_stack_slot(*env, index as int) as u32,
        ),
        flat_stack_slot(*env, index as int) > u32::MAX
            ==> r == Err::<u32, CompileFailure>(CompileFailure::ResourceLimit),
{
    let slot: u128 = env.arguments.len() as u128 + env.locals.len() as u128 + index as u128;
    if slot <= 0xffff_ffff {
        Ok(slot as u32)
    } else {
        Err(CompileFailure::ResourceLimit)
    }
}

pub fn opt_flat_local_slot(env: &OptEnv<'_>, index: usize) -> (r: Result<u32, CompileFailure>)
    ensures
        env.arguments@.len() + index <= u32::MAX
            ==> r == Ok::<u32, CompileFailure>((env.arguments@.len() + index) as u32),
        env.arguments@.len() + index > u32::MAX ==> r == Err::<u32, CompileFailure>(CompileFailure::ResourceLimit),
{
    let slot: u128 = env.arguments.len() as u128 + index as u128;
    if slot <= 0xffff_ffff {
        Ok(slot as u32)
    } else {
        Err(CompileFailure::ResourceLimit)
    }
}

/// Releases what the slots own, one after the other.
pub open spec fn free_flow(trace: Seq<Event>, env: OptEnv<'_>, s: State, slots: Seq<u32>, depth: int, w: World) -> Flow
    decreases slots.len(),
{
    if slots.len() == 0 {
        Flow { running: true, trace }
    } else {
        let before = free_flow(trace, env, s, slots.drop_last(), depth, w);
        if before.running {
            helper_flow(
                before.trace,
                env,
                s,
                depth,
                env.abi.helper_free as int,
                as_arguments(seq![0, slots.last()]),
                w,
            )
        } else {
            before
        }
    }
}

/// Calls the runtime to release every slot in `slots`; an exception leaves the
/// operand stack `exception_depth` deep.
pub fn free_slots(code: &mut Code, env: &OptEnv<'_>, slots: &Vec<u32>, exception_depth: usize) -> (r: Result<(), CompileFailure>)
    requires
        env.wf(old(code).len()),
        exception_depth <= MAX_SLOTS,
    ensures
        kept(*old(code), *final(code)),
        r is Ok && env.typed(*old(code)) ==> steady(*old(code), *final(code)),
        r is Ok <==> slots@.len() == 0 || helper_known(*env, env.abi.helper_free),
        r is Err ==> r == Err::<(), CompileFailure>(CompileFailure::InvalidArtifact),
        final(code).len() >= old(code).len(),
        r is Ok ==> forall|w: World|
            #![trigger final(code).at(w)]
            match old(code).at(w) {
                Status::Run(s) => flows(
                    final(code).at(w),
                    s,
                    old(code).len(),
                    s.vars,
                    free_flow(s.trace, *env, s, slots@, exception_depth as int, w),
                ),
                st => final(code).at(w) == st,
            },
{
    let mut i: usize = 0;
    assert(slots@.take(0) =~= Seq::<u32>::empty());
    while i < slots.len()
        invariant
            kept(*old(code), *code),
            env.typed(*old(code)) ==> steady(*old(code), *code),
            env.typed(*old(code)) ==> env.typed(*code),
            i <= slots@.len(),
            env.wf(old(code).len()),
            exception_depth <= MAX_SLOTS,
            old(code).len() <= code.len(),
            i > 0 ==> helper_known(*env, env.abi.helper_free),
            forall|w: World|
                #![trigger code.at(w)]
                match old(code).at(w) {
                    Status::Run(s) => flows(
                        code.at(w),
                        s,
                        old(code).len(),
                        s.vars,
                        free_flow(s.trace, *env, s, slots@.take(i as int), exception_depth as int, w),
                    ),
                    st => code.at(w) == st,
                },
        decreases slots@.len() - i,
    {
        let ghost before = *code;
        let mut arguments: Vec<u32> = Vec::new();
        arguments.push(0);
        arguments.push(slots[i]);
        assert(arguments@ =~= seq![0, slots@[i as int]]);
        if let Err(e) = emit_opt_helper(code, env, exception_depth, env.abi.helper_free, &arguments) {
            return Err(e);
        }
        proof {
            assert(slots@.take(i + 1).drop_last() =~= slots@.take(i as int));
            assert forall|w: World|
                #![trigger code.at(w)]
                match old(code).at(w) {
                    Status::Run(s) => flows(
                        code.at(w),
                        s,
                        old(code).len(),
                        s.vars,
                        free_flow(s.trace, *env, s, slots@.take(i + 1), exception_depth as int, w),
                    ),
                    st => code.at(w) == st,
                } by {
                let a = before.at(w);
            }
        }
        i = i + 1;
    }
    assert(slots@.take(i as int) =~= slots@);
    Ok(())
}

pub open spec fn is_borrowed(p: OptProvenance) -> bool {
    p is Argument || p is Local
}

/// The flat numbers of the borrowed slots from `from` to `to`.
pub open spec fn alias_slots(env: OptEnv<'_>, provenance: Seq<OptProvenance>, from: int, to: int) -> Seq<u32>
    decreases to - from,
{
    if to <= from {
        Seq::empty()
    } else {
        let before = alias_slots(env, provenance, from, to - 1);
        if to - 1 < provenance.len() && is_borrowed(provenance[to - 1]) {
            before.push(flat_stack_slot(env, to - 1) as u32)
        } else {
            before
        }
    }
}

/// Releases the owned duplicates that were made of borrowed argument and local
/// aliases below an operation's operands, once that operation goes on natively.
/// The aliases keep their origin: the value still borrows from the argument or
/// local, and the interpreter slot must not own a reference that nobody
/// consumes.
pub fn opt_release_materialized_aliases(
    code: &mut Code,
    env: &OptEnv<'_>,
    provenance: &Vec<OptProvenance>,
    from: usize,
    to: usize,
    exception_depth: usize,
) -> (r: Result<(), CompileFailure>)
    requires
        env.wf(old(code).len()),
        exception_depth <= MAX_SLOTS,
        from <= to <= MAX_SLOTS,
    ensures
        kept(*old(code), *final(code)),
        r is Ok && env.typed(*old(code)) ==> steady(*old(code), *final(code)),
        r is Ok <==> alias_slots(*env, provenance@, from as int, to as int).len() == 0 || helper_known(
            *env,
            env.abi.helper_free,
        ),
        r is Err ==> r == Err::<(), CompileFailure>(CompileFailure::InvalidArtifact),
        final(code).len() >= old(code).len(),
        r is Ok ==> forall|w: World|
            #![trigger final(code).at(w)]
            match old(code).at(w) {
                Status::Run(s) => flows(
                    final(code).at(w),
                    s,
                    old(code).len(),
                    s.vars,
                    free_flow(
                        s.trace,
                        *env,
                        s,
                        alias_slots(*env, provenance@, from as int, to as int),
                        exception_depth as int,
                        w,
                    ),
                ),
                st => final(code).at(w) == st,
            },
{
    let mut slots: Vec<u32> = Vec::new();
    let mut i: usize = from;
    while i < to
        invariant
            kept(*old(code), *code),
            env.typed(*old(code)) ==> steady(*old(code), *code),
            from <= i <= to <= MAX_SLOTS,
            env.arguments@.len() < MAX_SLOTS,
            env.locals@.len() < MAX_SLOTS,
            slots@ == alias_slots(*env, provenance@, from as int, i as int),
        decreases to - i,
    {
        if i < provenance.len() {
            match provenance[i] {
                OptProvenance::Argument(_) | OptProvenance::Local(_) => {
                    let slot: usize = env.arguments.len() + env.locals.len() + i;
                    slots.push(slot as u32);
                },
                _ => {},
            }
        }
        i = i + 1;
    }
    free_slots(code, env, &slots, exception_depth)
}

/// The flat numbers of the slots from `from` to `to`.
pub open spec fn stack_slots(env: OptEnv<'_>, from: int, to: int) -> Seq<u32> {
    Seq::new((to - from) as nat, |k: int| flat_stack_slot(env, from + k) as u32)
}

/// Releases the stack slots from `from` to `to` and drops them.
pub fn opt_release_owned_stack(code: &mut Code, env: &OptEnv<'_>, from: usize, to: usize) -> (r: Result<(), CompileFailure>)
    requires
        env.wf(old(code).len()),
        from <= to <= MAX_SLOTS,
    ensures
        kept(*old(code), *final(code)),
        r is Ok && env.typed(*old(code)) ==> steady(*old(code), *final(code)),
        r is Ok <==> from == to || helper_known(*env, env.abi.helper_free),
        r is Err ==> r == Err::<(), CompileFailure>(CompileFailure::InvalidArtifact),
        final(code).len() >= old(code).len(),
        r is Ok ==> forall|w: World|
            #![trigger final(code).at(w)]
            match old(code).at(w) {
                Status::Run(s) => {
                    let freed = free_flow(s.trace, *env, s, stack_slots(*env, from as int, to as int), to as int, w);
                    flows(
                        final(code).at(w),
                        s,
                        old(code).len(),
                        s.vars,
                        if freed.running {
                            Flow {
                                running: true,
                                trace: top_store(
                                    freed.trace,
                                    *env.abi,
                                    s.vals[env.frame as int],
                                    s.vals[env.stack_base as int],
                                    from as int,
                                ),
                            }
                        } else {
                            freed
                        },
                    )
                },
                st => final(code).at(w) == st,
            },
{
    let mut slots: Vec<u32> = Vec::new();
    let mut i: usize = from;
    while i < to
        invariant
            kept(*old(code), *code),
            env.typed(*old(code)) ==> steady(*old(code), *code),
            from <= i <= to <= MAX_SLOTS,
            env.arguments@.len() < MAX_SLOTS,
            env.locals@.len() < MAX_SLOTS,
            slots@.len() == i - from,
            forall|k: int| 0 <= k < i - from ==> #[trigger] slots@[k] == flat_stack_slot(*env, from + k) as u32,
        decreases to - i,
    {
        let slot: usize = env.arguments.len() + env.locals.len() + i;
        slots.push(slot as u32);
        i = i + 1;
    }
    assert(slots@ =~= stack_slots(*env, from as int, to as int));
    if let Err(e) = free_slots(code, env, &slots, to) {
        return Err(e);
    }
    let ghost freed = *code;
    opt_set_stack_top(code, env, from);
    proof {
        assert forall|w: World|
            #![trigger code.at(w)]
            match old(code).at(w) {
                Status::Run(s) => {
                    let freed = free_flow(s.trace, *env, s, stack_slots(*env, from as int, to as int), to as int, w);
                    flows(
                        code.at(w),
                        s,
                        old(code).len(),
                        s.vars,
                        if freed.running {
                            Flow {
                                running: true,
                                trace: top_store(
                                    freed.trace,
                                    *env.abi,
                                    s.vals[env.frame as int],
                                    s.vals[env.stack_base as int],
                                    from as int,
                                ),
                            }
                        } else {
                            freed
                        },
                    )
                },
                st => code.at(w) == st,
            } by {
            let a = freed.at(w);
        }
    }
    Ok(())
}

/// Writes a stack slot back, and releases what it owns.
pub fn emit_opt_free_stack_slot(code: &mut Code, env: &OptEnv<'_>, index: usize) -> (r: Result<(), CompileFailure>)
    requires
        env.wf(old(code).len()),
        index < env.stack@.len(),
        !env.int32_loop,
    ensures
        kept(*old(code), *final(code)),
        r is Ok && env.typed(*old(code)) ==> steady(*old(code), *final(code)),
        r is Ok <==> helper_known(*env, env.abi.helper_free),
        r is Err ==> r == Err::<(), CompileFailure>(CompileFailure::InvalidArtifact),
        final(code).len() >= old(code).len(),
        r is Ok ==> forall|w: World|
            #![trigger final(code).at(w)]
            match old(code).at(w) {
                Status::Run(s) => flows(
                    final(code).at(w),
                    s,
                    old(code).len(),
                    s.vars,
                    helper_flow(
                        top_store(
                            pair_stores(
                                s.trace,
                                s.vals[env.stack_base as int] + index * 16,
                                s.vars[env.stack@[index as int].payload as int],
                                s.vars[env.stack@[index as int].tag as int],
                            ),
                            *env.abi,
                            s.vals[env.frame as int],
                            s.vals[env.stack_base as int],
                            index + 1,
                        ),
                        *env,
                        s,
                        index + 1,
                        env.abi.helper_free as int,
                        as_arguments(seq![0, flat_stack_slot(*env, index as int) as u32]),
                        w,
                    ),
                ),
                st => final(code).at(w) == st,
            },
{
    let pair = opt_use(code, env.stack[index], env.payload_type);
    let ghost c1 = *code;
    opt_store(code, env.stack_base, index, pair, env.payload_type);
    let ghost c2 = *code;
    opt_set_stack_top(code, env, index + 1);
    let ghost c3 = *code;
    let slot: usize = env.arguments.len() + env.locals.len() + index;
    let mut arguments: Vec<u32> = Vec::new();
    arguments.push(0);
    arguments.push(slot as u32);
    assert(arguments@ =~= seq![0, flat_stack_slot(*env, index as int) as u32]);
    let r = emit_opt_helper(code, env, index + 1, env.abi.helper_free, &arguments);
    proof {
        if r is Ok {
            assert forall|w: World|
                #![trigger code.at(w)]
                match old(code).at(w) {
                    Status::Run(s) => flows(
                        code.at(w),
                        s,
                        old(code).len(),
                        s.vars,
                        helper_flow(
                            top_store(
                                pair_stores(
                                    s.trace,
                                    s.vals[env.stack_base as int] + index * 16,
                                    s.vars[env.stack@[index as int].payload as int],
                                    s.vars[env.stack@[index as int].tag as int],
                                ),
                                *env.abi,
                                s.vals[env.frame as int],
                                s.vals[env.stack_base as int],
                                index + 1,
                            ),
                            *env,
                            s,
                            index + 1,
                            env.abi.helper_free as int,
                            as_arguments(seq![0, flat_stack_slot(*env, index as int) as u32]),
                            w,
                        ),
                    ),
                    st => code.at(w) == st,
                } by {
                let a = c1.at(w);
                let b = c2.at(w);
                let c = c3.at(w);
            }
        }
    }
    r
}

/// Writes a local back, and releases what it owns, before it is redefined.
pub fn emit_opt_free_local_slot(code: &mut Code, env: &OptEnv<'_>, index: usize) -> (r: Result<(), CompileFailure>)
    requires
        env.wf(old(code).len()),
        index < env.locals@.len(),
    ensures
        kept(*old(code), *final(code)),
        r is Ok && env.typed(*old(code)) ==> steady(*old(code), *final(code)),
        r is Ok <==> !env.int32_loop && helper_known(*env, env.abi.helper_free),
        r == Err::<(), CompileFailure>(CompileFailure::UnsupportedOpcode) <==> env.int32_loop,
        r is Err && !env.int32_loop ==> r == Err::<(), CompileFailure>(CompileFailure::InvalidArtifact),
        final(code).len() >= old(code).len(),
        r is Ok ==> forall|w: World|
            #![trigger final(code).at(w)]
            match old(code).at(w) {
                Status::Run(s) => flows(
                    final(code).at(w),
                    s,
                    old(code).len(),
                    s.vars,
                    helper_flow(
                        pair_stores(
                            s.trace,
                            s.vals[env.var_buf as int] + index * 16,
                            s.vars[env.locals@[index as int].payload as int],
                            s.vars[env.locals@[index as int].tag as int],
                        ),
                        *env,
                        s,
                        0,
                        env.abi.helper_free as int,
                        as_arguments(seq![0, (env.arguments@.len() + index) as u32]),
                        w,
                    ),
                ),
                st => final(code).at(w) == st,
            },
{
    if env.int32_loop {
        return Err(CompileFailure::UnsupportedOpcode);
    }
    let pair = opt_use(code, env.locals[index], env.payload_type);
    let ghost c1 = *code;
    opt_store(code, env.var_buf, index, pair, env.payload_type);
    let ghost c2 = *code;
    let slot: usize = env.arguments.len() + index;
    let mut arguments: Vec<u32> = Vec::new();
    arguments.push(0);
    arguments.push(slot as u32);
    assert(arguments@ =~= seq![0, (env.arguments@.len() + index) as u32]);
    let r = emit_opt_helper(code, env, 0, env.abi.helper_free, &arguments);
    proof {
        if r is Ok {
            assert forall|w: World|
                #![trigger code.at(w)]
                match old(code).at(w) {
                    Status::Run(s) => flows(
                        code.at(w),
                        s,
                        old(code).len(),
                        s.vars,
                        helper_flow(
                            pair_stores(
                                s.trace,
                                s.vals[env.var_buf as int] + index * 16,
                                s.vars[env.locals@[index as int].payload as int],
                                s.vars[env.locals@[index as int].tag as int],
                            ),
                            *env,
                            s,
                            0,
                            env.abi.helper_free as int,
                            as_arguments(seq![0, (env.arguments@.len() + index) as u32]),
                            w,
                        ),
                    ),
                    st => code.at(w) == st,
                } by {
                let a = c1.at(w);
                let b = c2.at(w);
            }
        }
    }
    r
}

/// What happens before a helper writes an owned value into the stack slot at
/// `depth`: the slot is blank, the frame is spilled, the program counter is
/// published, and every live slot below is an owner.
pub open spec fn publish_flow(
    env: OptEnv<'_>,
    s: State,
    vars: Map<int, int>,
    provenance: Seq<OptProvenance>,
    depth: nat,
    pc: u32,
    w: World,
) -> Flow {
    let spilled = spill(s.trace, env, s, vars, depth + 1);
    own_flow(
        pc_store(spilled, *env.abi, s.vals[env.frame as int], pc, w),
        env,
        s,
        provenance,
        depth,
        w,
    )
}

pub open spec fn blank_vars(env: OptEnv<'_>, vars: Map<int, int>, depth: int) -> Map<int, int> {
    vars_after(vars, env.stack@[depth], 0, JS_TAG_UNDEFINED as int)
}

pub open spec fn push_flow(
    env: OptEnv<'_>,
    s: State,
    provenance: Seq<OptProvenance>,
    depth: nat,
    pc: u32,
    helper: int,
    extra: Seq<u32>,
    w: World,
) -> Flow {
    let published = publish_flow(env, s, blank_vars(env, s.vars, depth as int), provenance, depth, pc, w);
    if published.running {
        helper_flow(
            top_store(
                published.trace,
                *env.abi,
                s.vals[env.frame as int],
                s.vals[env.stack_base as int],
                depth + 1int,
            ),
            env,
            s,
            depth as int,
            helper,
            as_arguments(seq![0, flat_stack_slot(env, depth as int) as u32] + extra),
            w,
        )
    } else {
        published
    }
}

/// The slot at `depth` then holds what the helper wrote.
pub open spec fn loaded_slot(env: OptEnv<'_>, s: State, vars: Map<int, int>, trace: Seq<Event>, depth: int, st: Status, n: int, w: World) -> bool {
    let payload = wrap(Ty::I64, (w.observe)(trace.len() as int));
    let tag = wrap(Ty::I64, (w.observe)(trace.len() + 1int));
    runs_on(
        st,
        s,
        n,
        vars_after(vars, env.stack@[depth], payload, tag),
        pair_loads(trace, s.vals[env.stack_base as int] + depth * 16, payload, tag),
    )
}

pub open spec fn push_post(
    env: OptEnv<'_>,
    st: Status,
    st2: Status,
    n: int,
    provenance: Seq<OptProvenance>,
    depth: nat,
    pc: u32,
    helper: int,
    extra: Seq<u32>,
    w: World,
) -> bool {
    match st {
        Status::Run(s) => {
            let flow = push_flow(env, s, provenance, depth, pc, helper, extra, w);
            if flow.running {
                loaded_slot(env, s, blank_vars(env, s.vars, depth as int), flow.trace, depth as int, st2, n, w)
            } else {
                exits_with(st2, flow.trace)
            }
        },
        st => st2 == st,
    }
}

/// Borrowed slots below `depth` have become owners.
pub open spec fn owned_below(provenance: Seq<OptProvenance>, depth: int) -> Seq<OptProvenance> {
    Seq::new(
        provenance.len(),
        |k: int|
            if k < depth && is_borrowed(provenance[k]) {
                OptProvenance::OwnedSlot
            } else {
                provenance[k]
            },
    )
}

/// Borrowed slots below `depth` have become owners.
pub fn mark_owned(provenance: &mut Vec<OptProvenance>, depth: usize)
    ensures
        final(provenance)@ == owned_below(old(provenance)@, depth as int),
{
    let n: usize = provenance.len();
    let mut i: usize = 0;
    while i < n && i < depth
        invariant
            n == provenance@.len() == old(provenance)@.len(),
            i <= n,
            i <= depth,
            forall|k: int| 0 <= k < i ==> provenance@[k] == owned_below(old(provenance)@, depth as int)[k],
            forall|k: int| i <= k < n ==> provenance@[k] == old(provenance)@[k],
        decreases n - i,
    {
        match provenance[i] {
            OptProvenance::Argument(_) | OptProvenance::Local(_) => {
                provenance.set(i, OptProvenance::OwnedSlot);
            },
            _ => {},
        }
        i = i + 1;
    }
    assert(provenance@ =~= owned_below(old(provenance)@, depth as int));
}

/// Why an owned value cannot be pushed.
pub open spec fn push_failure(env: OptEnv<'_>, depth: int) -> Option<CompileFailure> {
    if env.int32_loop {
        Some(CompileFailure::UnsupportedOpcode)
    } else if depth >= env.stack@.len() {
        Some(CompileFailure::ResourceLimit)
    } else {
        None
    }
}

/// The failure of code that pushes an owned value.
pub open spec fn owned_push_failure(env: OptEnv<'_>, provenance: Seq<OptProvenance>, depth: int) -> CompileFailure {
    match push_failure(env, depth) {
        Some(e) => e,
        None => own_failure(env, provenance, depth),
    }
}

/// Calls a helper that writes an owned value into the pushed stack slot. Every
/// live stack slot is turned into a real interpreter owner first, so an
/// exception unwinds the frame correctly and the helper sees a consistent
/// stack; `helper_arguments` follow the output slot.
pub fn emit_opt_owned_helper_push(
    code: &mut Code,
    env: &OptEnv<'_>,
    provenance: &mut Vec<OptProvenance>,
    depth: usize,
    pc: u32,
    helper: usize,
    helper_arguments: &Vec<u32>,
) -> (r: Result<usize, CompileFailure>)
    requires
        env.wf(old(code).len()),
        depth < old(provenance)@.len(),
    ensures
        kept(*old(code), *final(code)),
        r is Ok && env.typed(*old(code)) && env.takes(*old(code), helper, helper_arguments@.len() + 2)
            ==> steady(*old(code), *final(code)),
        r is Ok <==> push_failure(*env, depth as int) is None && stack_ownable(
            *env,
            old(provenance)@,
            depth as int,
        ) && helper_known(*env, helper),
        r matches Err(e) ==> e == owned_push_failure(*env, old(provenance)@, depth as int),
        final(code).len() >= old(code).len(),
        r matches Ok(d) ==> d == depth + 1 && final(provenance)@ == owned_below(old(provenance)@, depth as int).update(
            depth as int,
            OptProvenance::OwnedSlot,
        ),
        r is Ok ==> forall|w: World|
            #![trigger final(code).at(w)]
            push_post(
                *env,
                old(code).at(w),
                final(code).at(w),
                old(code).len(),
                old(provenance)@,
                depth as nat,
                pc,
                helper as int,
                helper_arguments@,
                w,
            ),
{
    proof {
        own_failures(*env, provenance@, depth as int);
    }
    if env.int32_loop {
        return Err(CompileFailure::UnsupportedOpcode);
    }
    if depth >= env.stack.len() {
        return Err(CompileFailure::ResourceLimit);
    }
    let ghost origins = provenance@;
    let blank = undefined(code);
    let ghost c0 = *code;
    opt_define(code, env.stack[depth], blank);
    let ghost c1 = *code;
    store_slots(code, env.arg_buf, env.arguments, env.arguments.len(), env.payload_type);
    let ghost c2 = *code;
    store_slots(code, env.var_buf, env.locals, env.locals.len(), env.payload_type);
    let ghost c3 = *code;
    store_slots(code, env.stack_base, env.stack, depth + 1, env.payload_type);
    let ghost c4 = *code;
    let _ = set_pc(code, env, pc);
    let ghost c5 = *code;
    if let Err(e) = opt_own_stack_for_exit(code, env, depth, provenance) {
        return Err(e);
    }
    let ghost c6 = *code;
    mark_owned(provenance, depth);
    opt_set_stack_top(code, env, depth + 1);
    let ghost c7 = *code;
    let slot: usize = env.arguments.len() + env.locals.len() + depth;
    let mut arguments: Vec<u32> = Vec::new();
    arguments.push(0);
    arguments.push(slot as u32);
    let mut i: usize = 0;
    while i < helper_arguments.len()
        invariant
            kept(*old(code), *code),
            env.typed(*old(code)) && env.takes(*old(code), helper, helper_arguments@.len() + 2)
                ==> steady(*old(code), *code),
            i <= helper_arguments@.len(),
            arguments@ =~= seq![0, flat_stack_slot(*env, depth as int) as u32] + helper_arguments@.take(i as int),
        decreases helper_arguments@.len() - i,
    {
        arguments.push(helper_arguments[i]);
        i = i + 1;
    }
    assert(helper_arguments@.take(i as int) =~= helper_arguments@);
    if let Err(e) = emit_opt_helper(code, env, depth, helper, &arguments) {
        return Err(e);
    }
    let ghost c8 = *code;
    let result = opt_load(code, env.stack_base, depth);
    let ghost c9 = *code;
    opt_define(code, env.stack[depth], result);
    provenance.set(depth, OptProvenance::OwnedSlot);
    proof {
        assert forall|w: World|
            #![trigger code.at(w)]
            push_post(
                *env,
                old(code).at(w),
                code.at(w),
                old(code).len(),
                origins,
                depth as nat,
                pc,
                helper as int,
                helper_arguments@,
                w,
            ) by {
            let a0 = c0.at(w);
            let a1 = c1.at(w);
            let a2 = c2.at(w);
            let a3 = c3.at(w);
            let a4 = c4.at(w);
            let a5 = c5.at(w);
            let a6 = c6.at(w);
            let a7 = c7.at(w);
            let a8 = c8.at(w);
            let a9 = c9.at(w);
            if let Status::Run(s) = old(code).at(w) {
                let t = a5->Run_0;
                assert(t.vals[env.frame as int] == s.vals[env.frame as int]);
                assert(t.vals[env.stack_base as int] == s.vals[env.stack_base as int]);
                assert(t.vals[env.sret as int] == s.vals[env.sret as int]);
                same_own_flow(t.trace, *env, s, t, origins, depth as nat, w);
            }
        }
    }
    Ok(depth + 1)
}

/// What replacing a receiver by its owned property does after the property was
/// pushed: the receiver is released, and the property moves into its slot.
pub open spec fn replace_post(
    env: OptEnv<'_>,
    st: Status,
    st2: Status,
    n: int,
    provenance: Seq<OptProvenance>,
    depth: nat,
    pc: u32,
    atom: u32,
    w: World,
) -> bool {
    match st {
        Status::Run(s) => {
            let receiver = depth - 1;
            let slot = flat_stack_slot(env, receiver) as u32;
            let pushed = push_flow(
                env,
                s,
                provenance,
                depth,
                pc,
                env.abi.helper_get_property as int,
                seq![slot, atom],
                w,
            );
            if !pushed.running {
                exits_with(st2, pushed.trace)
            } else {
                let stack_base = s.vals[env.stack_base as int];
                let p1 = wrap(Ty::I64, (w.observe)(pushed.trace.len() as int));
                let t1 = wrap(Ty::I64, (w.observe)(pushed.trace.len() + 1int));
                let first = pair_loads(pushed.trace, stack_base + depth * 16, p1, t1);
                let vars1 = vars_after(blank_vars(env, s.vars, depth as int), env.stack@[depth as int], p1, t1);
                let freed = helper_flow(
                    first,
                    env,
                    s,
                    depth + 1int,
                    env.abi.helper_free as int,
                    as_arguments(seq![0, slot]),
                    w,
                );
                if !freed.running {
                    exits_with(st2, freed.trace)
                } else {
                    let p2 = wrap(Ty::I64, (w.observe)(freed.trace.len() as int));
                    let t2 = wrap(Ty::I64, (w.observe)(freed.trace.len() + 1int));
                    let moved = pair_stores(
                        pair_stores(
                            pair_loads(freed.trace, stack_base + depth * 16, p2, t2),
                            stack_base + receiver * 16,
                            p2,
                            t2,
                        ),
                        stack_base + depth * 16,
                        0,
                        JS_TAG_UNDEFINED as int,
                    );
                    runs_on(
                        st2,
                        s,
                        n,
                        blank_vars(env, vars_after(vars1, env.stack@[receiver], p2, t2), depth as int),
                        top_store(moved, *env.abi, s.vals[env.frame as int], stack_base, depth as int),
                    )
                }
            }
        },
        st => st2 == st,
    }
}

/// Reads a property that is a heap object through the owning helper. The helper
/// keeps the receiver, so it is released after the owned result has been
/// published, and the result moves into its slot. Both exception edges expose
/// only genuine owners to the interpreter.
pub fn emit_opt_owned_property_replace(
    code: &mut Code,
    env: &OptEnv<'_>,
    provenance: &mut Vec<OptProvenance>,
    depth: usize,
    pc: u32,
    atom: u32,
) -> (r: Result<usize, CompileFailure>)
    requires
        env.wf(old(code).len()),
        depth < old(provenance)@.len(),
    ensures
        kept(*old(code), *final(code)),
        r is Ok && env.typed(*old(code)) ==> steady(*old(code), *final(code)),
        r is Ok <==> depth > 0 && push_failure(*env, depth as int) is None
            && stack_ownable(*env, old(provenance)@, depth as int) && helper_known(*env, env.abi.helper_get_property)
            && helper_known(*env, env.abi.helper_free),
        r matches Err(e) ==> e == (if depth == 0 {
            CompileFailure::InvalidArtifact
        } else if flat_stack_slot(*env, depth - 1) > u32::MAX {
            CompileFailure::ResourceLimit
        } else {
            owned_push_failure(*env, old(provenance)@, depth as int)
        }),
        final(code).len() >= old(code).len(),
        r matches Ok(d) ==> d == depth && final(provenance)@ == owned_below(old(provenance)@, depth as int).update(
            depth - 1,
            OptProvenance::OwnedSlot,
        ).update(depth as int, OptProvenance::Unknown),
        r is Ok ==> forall|w: World|
            #![trigger final(code).at(w)]
            replace_post(
                *env,
                old(code).at(w),
                final(code).at(w),
                old(code).len(),
                old(provenance)@,
                depth as nat,
                pc,
                atom,
                w,
            ),
{
    proof {
        own_failures(*env, provenance@, depth as int);
    }
    if depth == 0 {
        return Err(CompileFailure::InvalidArtifact);
    }
    let ghost origins = provenance@;
    let receiver: usize = depth - 1;
    let receiver_slot: u32 = match opt_flat_stack_slot(env, receiver) {
        Ok(slot) => slot,
        Err(e) => return Err(e),
    };
    let mut extra: Vec<u32> = Vec::new();
    extra.push(receiver_slot);
    extra.push(atom);
    assert(extra@ =~= seq![flat_stack_slot(*env, receiver as int) as u32, atom]);
    let pushed = match emit_opt_owned_helper_push(code, env, provenance, depth, pc, env.abi.helper_get_property, &extra) {
        Ok(d) => d,
        Err(e) => return Err(e),
    };
    let ghost c1 = *code;
    let mut arguments: Vec<u32> = Vec::new();
    arguments.push(0);
    arguments.push(receiver_slot);
    assert(arguments@ =~= seq![0, flat_stack_slot(*env, receiver as int) as u32]);
    if let Err(e) = emit_opt_helper(code, env, pushed, env.abi.helper_free, &arguments) {
        return Err(e);
    }
    let ghost c2 = *code;
    let result = opt_load(code, env.stack_base, depth);
    let ghost c3 = *code;
    let blank = undefined(code);
    let ghost c4 = *code;
    opt_store(code, env.stack_base, receiver, result, Ty::I64);
    let ghost c5 = *code;
    opt_store(code, env.stack_base, depth, blank, Ty::I64);
    let ghost c6 = *code;
    opt_define(code, env.stack[receiver], result);
    let ghost c7 = *code;
    opt_define(code, env.stack[depth], blank);
    let ghost c8 = *code;
    provenance.set(receiver, OptProvenance::OwnedSlot);
    provenance.set(depth, OptProvenance::Unknown);
    assert(provenance@ =~= owned_below(origins, depth as int).update(depth - 1, OptProvenance::OwnedSlot).update(
        depth as int,
        OptProvenance::Unknown,
    ));
    opt_set_stack_top(code, env, depth);
    proof {
        assert forall|w: World|
            #![trigger code.at(w)]
            replace_post(*env, old(code).at(w), code.at(w), old(code).len(), origins, depth as nat, pc, atom, w) by {
            let a1 = c1.at(w);
            let a2 = c2.at(w);
            let a3 = c3.at(w);
            let a4 = c4.at(w);
            let a5 = c5.at(w);
            let a6 = c6.at(w);
            let a7 = c7.at(w);
            let a8 = c8.at(w);
        }
    }
    Ok(depth)
}

/// Checks, where it is not known, that the value at `source_index` is no heap
/// reference before it is stored into another slot.
pub fn emit_opt_alias_store_guard(
    code: &mut Code,
    env: &OptEnv<'_>,
    specialization: &NumericSpecialization,
    provenance: &Vec<OptProvenance>,
    depth: usize,
    source_index: usize,
    destination: OptProvenance,
    pc: u32,
    guard: Option<u32>,
) -> (r: Result<(), CompileFailure>)
    requires
        env.wf(old(code).len()),
        depth <= env.stack@.len(),
        source_index < provenance@.len(),
        source_index < env.stack@.len(),
        provenance@[source_index as int] matches OptProvenance::Local(slot) ==> env.arguments@.len() + slot <= usize::MAX,
    ensures
        kept(*old(code), *final(code)),
        r is Ok && env.typed(*old(code)) ==> steady(*old(code), *final(code)),
        final(code).len() >= old(code).len(),
        ({
            let kind = alias_store(
                *specialization,
                env.arguments@.len() as int,
                provenance@[source_index as int],
                destination,
            );
            if env.int32_loop || kind == AliasStore::Safe {
                r is Ok && final(code).insts@ == old(code).insts@
            } else if kind == AliasStore::Reject {
                r == Err::<(), CompileFailure>(CompileFailure::UnsupportedOpcode)
            } else {
                &&& r is Ok <==> guard is Some && stack_ownable(*env, provenance@, depth as int)
                &&& r matches Err(e) ==> e == placed_failure(guard is Some, *env, provenance@, depth as int)
                &&& r is Ok ==> forall|w: World|
                    #![trigger final(code).at(w)]
                    match old(code).at(w) {
                        Status::Run(s) => if s.vars[env.stack@[source_index as int].tag as int] >= 0 {
                            runs_on(final(code).at(w), s, old(code).len(), s.vars, s.trace)
                        } else {
                            exits_with(
                                final(code).at(w),
                                deopt_trace(
                                    *env,
                                    s,
                                    s.vars,
                                    s.trace,
                                    provenance@,
                                    depth as nat,
                                    pc,
                                    guard->Some_0,
                                    w,
                                ),
                            )
                        },
                        st => final(code).at(w) == st,
                    }
            }
        }),
{
    if env.int32_loop {
        return Ok(());
    }
    match opt_alias_store(specialization, env.arguments.len(), provenance[source_index], destination) {
        AliasStore::Safe => Ok(()),
        AliasStore::Reject => Err(CompileFailure::UnsupportedOpcode),
        AliasStore::GuardHeap => {
            // Reference-counted tags are the negative ones.
            let pair = opt_use(code, env.stack[source_index], env.payload_type);
            let ghost c1 = *code;
            let scalar = code.compare_imm(IntCc::SignedGreaterThanOrEqual, Ty::I64, pair.tag, 0);
            let ghost c2 = *code;
            let guard = match guard {
                Some(guard) => guard,
                None => return Err(CompileFailure::InvalidArtifact),
            };
            if let Err(e) = emit_opt_guard_branch(code, env, provenance, depth, pc, guard, scalar) {
                return Err(e);
            }
            proof {
                assert forall|w: World|
                    #![trigger code.at(w)]
                    match old(code).at(w) {
                        Status::Run(s) => if s.vars[env.stack@[source_index as int].tag as int] >= 0 {
                            runs_on(code.at(w), s, old(code).len(), s.vars, s.trace)
                        } else {
                            exits_with(
                                code.at(w),
                                deopt_trace(*env, s, s.vars, s.trace, provenance@, depth as nat, pc, guard, w),
                            )
                        },
                        st => code.at(w) == st,
                    } by {
                    let a1 = c1.at(w);
                    let a2 = c2.at(w);
                    if let Status::Run(s) = old(code).at(w) {
                        crate::exits::same_deopt(*env, s, a2->Run_0, provenance@, depth as nat, pc, guard, w);
                    }
                }
            }
            Ok(())
        },
    }
}

/// Asks the runtime whether to go on; an interruption leaves the function.
pub open spec fn poll_flow(env: OptEnv<'_>, s: State, trace: Seq<Event>, pc: u32, w: World) -> Flow {
    let frame = s.vals[env.frame as int];
    let polled = helper_call(trace, *env.abi, frame, env.abi.helper_poll as int, Seq::empty(), w);
    if helper_status(trace, w) == 0 {
        Flow { running: true, trace: polled }
    } else {
        let start = wrap(Ty::I64, (w.observe)(polled.len() as int));
        Flow {
            running: false,
            trace: exit_record(
                polled.push(
                    Event::Load { ty: Ty::I64, address: wrap(Ty::I64, frame + env.abi.bytecode_start), value: start },
                ),
                *env.abi,
                s.vals[env.sret as int],
                env.abi.exit_interrupt,
                wrap(Ty::I64, start + pc),
                0,
            ),
        }
    }
}

pub fn emit_opt_poll(code: &mut Code, env: &OptEnv<'_>, pc: u32)
    requires
        env.wf(old(code).len()),
        helper_known(*env, env.abi.helper_poll),
    ensures
        kept(*old(code), *final(code)),
        env.typed(*old(code)) ==> steady(*old(code), *final(code)),
        final(code).len() >= old(code).len(),
        forall|w: World|
            #![trigger final(code).at(w)]
            match old(code).at(w) {
                Status::Run(s) => flows(
                    final(code).at(w),
                    s,
                    old(code).len(),
                    s.vars,
                    poll_flow(*env, s, s.trace, pc, w),
                ),
                st => final(code).at(w) == st,
            },
{
    let none: Vec<u32> = Vec::new();
    let answer = call_helper(code, env, env.abi.helper_poll, &none);
    let ghost c1 = *code;
    let interrupted = code.compare_imm(IntCc::NotEqual, Ty::I32, answer, 0);
    let interrupt = code.new_block();
    let continuation = code.new_block();
    code.branch(interrupted, interrupt, continuation);
    let _ = code.switch_to(interrupt);
    let ghost c2 = *code;
    let start = code.load(Ty::I64, env.frame, env.abi.bytecode_start);
    let resume = code.binary_imm(BinaryOp::Add, Ty::I64, start, pc as i64);
    let ghost c3 = *code;
    emit_opt_exit(code, env, env.abi.exit_interrupt, Some(resume), 0);
    let ghost c4 = *code;
    let _ = code.switch_to(continuation);
    proof {
        assert forall|w: World|
            #![trigger code.at(w)]
            match old(code).at(w) {
                Status::Run(s) => flows(code.at(w), s, old(code).len(), s.vars, poll_flow(*env, s, s.trace, pc, w)),
                st => code.at(w) == st,
            } by {
            waits_for_known_blocks(old(code).insts@, w);
            assert(as_arguments(none@) =~= Seq::<int>::empty());
            let a1 = c1.at(w);
            let a2 = c2.at(w);
            let a3 = c3.at(w);
            let a4 = c4.at(w);
        }
    }
}

pub proof fn same_free(trace: Seq<Event>, env: OptEnv<'_>, s: State, t: State, slots: Seq<u32>, depth: int, w: World)
    requires
        t.vals[env.frame as int] == s.vals[env.frame as int],
        t.vals[env.stack_base as int] == s.vals[env.stack_base as int],
        t.vals[env.sret as int] == s.vals[env.sret as int],
    ensures
        free_flow(trace, env, s, slots, depth, w) == free_flow(trace, env, t, slots, depth, w),
    decreases slots.len(),
{
    if slots.len() > 0 {
        same_free(trace, env, s, t, slots.drop_last(), depth, w);
    }
}

} // verus!
