//! Lowering of branches, returns and polls.
use crate::arithmetic::double_truthy;
use crate::arithmetic::f64_bits_truthy;
use crate::call_code::emit_cleanup_dispatch;
use crate::call_code::owns_nothing;
use crate::checks::waits_at;
use crate::code::truth;
use crate::code::value;
use crate::code::waits_for_known_blocks;
use crate::code::wrap;
use crate::code::BinaryOp;
use crate::code::kept;
use crate::code::Code;
use crate::code::ConvertOp;
use crate::code::Event;
use crate::code::IntCc;
use crate::code::State;
use crate::code::Status;
use crate::code::Ty;
use crate::code::World;
use crate::control::CompileFailure;
use crate::checks::read;
use crate::exits::flush;
use crate::exits::flush_trace;
use crate::exits::flush_vars;
use crate::exits::opt_own_stack_for_exit;
use crate::exits::own_flow;
use crate::exits::own_failure;
use crate::exits::placed_failure;
use crate::exits::pc_address;
use crate::exits::pc_store;
use crate::exits::same_own_flow;
use crate::exits::set_pc;
use crate::exits::spill;
use crate::exits::stack_ownable;
use crate::exits::store_slots;
use crate::frame::emit_opt_exit;
use crate::frame::exit_record;
use crate::frame::exits_with;
use crate::frame::opt_set_stack_top;
use crate::frame::runs_on;
use crate::frame::top_store;
use crate::frame::OptEnv;
use crate::helpers::is_borrowed;
use crate::lower_values::group_truths;
use crate::lower_values::opt_define;
use crate::lower_values::opt_load;
use crate::lower_values::opt_store_at;
use crate::lower_values::opt_tag_is;
use crate::lower_values::opt_use;
use crate::lower_values::pair_loads;
use crate::lower_values::pair_stores;
use crate::lower_values::undefined;
use crate::lowering::LowerState;
use crate::lowering::Lowered;
use crate::provenance::OptProvenance;
use crate::qjs::JS_TAG_BOOL;
use crate::qjs::JS_TAG_FLOAT64;
use crate::qjs::JS_TAG_INT;
use crate::qjs::JS_TAG_NULL;
use crate::qjs::JS_TAG_UNDEFINED;
use crate::typing::steady;
use crate::typing::closing;
use crate::typing::calm;
use crate::assemble::Known;
use crate::frame_typing::pair_held;
use crate::frame_typing::slot_named;
use crate::frame_typing::slots_named;
use crate::frame_typing::cached_named;
use crate::frame_typing::cache_named;
use vstd::prelude::*;

verus! {

broadcast use {crate::typing::group_typing, crate::frame_typing::group_frame, crate::exits::own_failures};

/// Whether a value counts as true, where that needs no code to run.
pub open spec fn condition_of(int32_loop: bool, payload: int, tag: int) -> Option<bool> {
    if int32_loop {
        Some(payload != 0)
    } else if tag == JS_TAG_NULL || tag == JS_TAG_UNDEFINED {
        Some(false)
    } else if tag == JS_TAG_FLOAT64 {
        Some(double_truthy(payload))
    } else if tag == JS_TAG_INT || tag == JS_TAG_BOOL {
        Some(wrap(Ty::I32, payload) != 0)
    } else {
        None
    }
}

/// The exit of a branch whose condition only the interpreter can decide: the
/// branch is executed again, with its condition on the stack.
pub open spec fn branch_exit(
    env: OptEnv<'_>,
    s: State,
    provenance: Seq<OptProvenance>,
    depth: nat,
    pc: u32,
    guard: u32,
    w: World,
) -> Seq<Event> {
    let clean = flush_vars(s.vars, env.cache@, env.cache@.len());
    let spilled = spill(flush_trace(s.vars, s.trace, env.cache@, env.cache@.len()), env, s, clean, depth);
    let owned = own_flow(pc_store(spilled, *env.abi, s.vals[env.frame as int], pc, w), env, s, provenance, depth, w);
    if owned.running {
        exit_record(
            owned.trace,
            *env.abi,
            s.vals[env.sret as int],
            env.abi.exit_deopt,
            pc_address(spilled, pc, w),
            guard,
        )
    } else {
        owned.trace
    }
}

/// Leaves the function before a branch.
fn emit_branch_exit(code: &mut Code, env: &OptEnv<'_>, provenance: &Vec<OptProvenance>, depth: usize, pc: u32, guard: u32) -> (r: Result<
    (),
    CompileFailure,
>)
    requires
        env.wf(old(code).len()),
        depth <= env.stack@.len(),
    ensures
        kept(*old(code), *final(code)),
        r is Ok && env.typed(*old(code)) ==> closing(*old(code), *final(code)),
        r is Ok <==> stack_ownable(*env, provenance@, depth as int),
        r matches Err(e) ==> e == own_failure(*env, provenance@, depth as int),
        final(code).len() >= old(code).len(),
        r is Ok ==> forall|w: World|
            #![trigger final(code).at(w)]
            match old(code).at(w) {
                Status::Run(s) => exits_with(
                    final(code).at(w),
                    branch_exit(*env, s, provenance@, depth as nat, pc, guard, w),
                ),
                st => final(code).at(w) == st,
            },
{
    let ghost c0 = *code;
    flush(code, env.cache);
    let ghost c1 = *code;
    store_slots(code, env.arg_buf, env.arguments, env.arguments.len(), env.payload_type);
    let ghost c2 = *code;
    store_slots(code, env.var_buf, env.locals, env.locals.len(), env.payload_type);
    let ghost c3 = *code;
    store_slots(code, env.stack_base, env.stack, depth, env.payload_type);
    let ghost c4 = *code;
    let resume = set_pc(code, env, pc);
    let ghost c5 = *code;
    if let Err(e) = opt_own_stack_for_exit(code, env, depth, provenance) {
        return Err(e);
    }
    let ghost c6 = *code;
    emit_opt_exit(code, env, env.abi.exit_deopt, Some(resume), guard);
    proof {
        assert forall|w: World|
            #![trigger code.at(w)]
            match c0.at(w) {
                Status::Run(s) => exits_with(code.at(w), branch_exit(*env, s, provenance@, depth as nat, pc, guard, w)),
                st => code.at(w) == st,
            } by {
            let a1 = c1.at(w);
            let a2 = c2.at(w);
            let a3 = c3.at(w);
            let a4 = c4.at(w);
            let a5 = c5.at(w);
            let a6 = c6.at(w);
            if let Status::Run(s) = c0.at(w) {
                let t = a5->Run_0;
                assert(t.vals[env.frame as int] == s.vals[env.frame as int]);
                assert(t.vals[env.stack_base as int] == s.vals[env.stack_base as int]);
                assert(t.vals[env.sret as int] == s.vals[env.sret as int]);
                same_own_flow(t.trace, *env, s, t, provenance@, depth as nat, w);
            }
        }
    }
    Ok(())
}

pub open spec fn branch_ready(env: OptEnv<'_>, guard: Option<u32>, m: Lowered) -> bool {
    m.depth > 0 && (env.int32_loop || guard is Some && stack_ownable(env, m.provenance, m.depth))
}

/// Control leaves for one of two blocks, by the stack top.
pub open spec fn branched(
    env: OptEnv<'_>,
    on_true: bool,
    target: usize,
    fallthrough: usize,
    pc: u32,
    guard: Option<u32>,
    a: Code,
    m: Lowered,
    b: Code,
    m2: Lowered,
) -> bool {
    let top = m.depth - 1;
    &&& a.len() <= b.len()
    &&& m2 == m.pop(1)
    &&& forall|w: World|
        #![trigger b.at(w)]
        match a.at(w) {
            Status::Run(s) => match condition_of(
                env.int32_loop,
                s.vars[env.stack@[top].payload as int],
                s.vars[env.stack@[top].tag as int],
            ) {
                Some(holds) => waits_at(
                    b.at(w),
                    s,
                    a.len(),
                    if holds == on_true {
                        target
                    } else {
                        fallthrough
                    },
                    s.vars,
                    s.trace,
                ),
                None => exits_with(
                    b.at(w),
                    branch_exit(env, s, m.provenance, m.depth as nat, pc, guard->Some_0, w),
                ),
            },
            st => b.at(w) == st,
        }
}

/// The tags of a condition.
struct ConditionTags {
    allowed: usize,
    float: usize,
    empty: usize,
}

fn condition_tags(code: &mut Code, tag: usize) -> (r: ConditionTags)
    requires
        tag < old(code).len(),
    ensures
        kept(*old(code), *final(code)),
        old(code).holds(tag, Ty::I64) ==> steady(*old(code), *final(code)),
        final(code).kind(r.allowed as int) == Known::Value(Ty::I8),
        final(code).kind(r.float as int) == Known::Value(Ty::I8),
        final(code).kind(r.empty as int) == Known::Value(Ty::I8),
        final(code).len() >= old(code).len(),
        r.allowed < final(code).len(),
        r.float < final(code).len(),
        r.empty < final(code).len(),
        forall|w: World|
            #![trigger final(code).at(w)]
            match old(code).at(w) {
                Status::Run(s) => {
                    let t = s.vals[tag as int];
                    &&& runs_on(final(code).at(w), s, old(code).len(), s.vars, s.trace)
                    &&& value(final(code).at(w), r.allowed) == truth(
                        t == JS_TAG_INT || t == JS_TAG_BOOL || t == JS_TAG_FLOAT64 || t == JS_TAG_NULL || t == JS_TAG_UNDEFINED,
                    )
                    &&& value(final(code).at(w), r.float) == truth(t == JS_TAG_FLOAT64)
                    &&& value(final(code).at(w), r.empty) == truth(t == JS_TAG_NULL || t == JS_TAG_UNDEFINED)
                },
                st => final(code).at(w) == st,
            },
{
    broadcast use group_truths;

    let is_int = opt_tag_is(code, tag, JS_TAG_INT);
    let ghost c1 = *code;
    let is_bool = opt_tag_is(code, tag, JS_TAG_BOOL);
    let ghost c2 = *code;
    let float = opt_tag_is(code, tag, JS_TAG_FLOAT64);
    let ghost c3 = *code;
    let is_null = opt_tag_is(code, tag, JS_TAG_NULL);
    let ghost c4 = *code;
    let is_undefined = opt_tag_is(code, tag, JS_TAG_UNDEFINED);
    let ghost c5 = *code;
    let scalar = code.binary(BinaryOp::Or, Ty::I8, is_int, is_bool);
    let empty = code.binary(BinaryOp::Or, Ty::I8, is_null, is_undefined);
    let numeric = code.binary(BinaryOp::Or, Ty::I8, scalar, float);
    let allowed = code.binary(BinaryOp::Or, Ty::I8, numeric, empty);
    proof {
        assert forall|w: World| #[trigger] code.at(w) == code.at(w) by {
            let a = c1.at(w);
            let b = c2.at(w);
            let c = c3.at(w);
            let d = c4.at(w);
            let e = c5.at(w);
        }
    }
    ConditionTags { allowed, float, empty }
}

/// `if_true` and `if_false`.
#[verifier::rlimit(60)]
pub fn lower_branch(
    code: &mut Code,
    env: &OptEnv<'_>,
    ls: &mut LowerState,
    on_true: bool,
    target: usize,
    fallthrough: usize,
    pc: u32,
    guard: Option<u32>,
) -> (r: Result<(), CompileFailure>)
    requires
        env.wf(old(code).len()),
        old(ls)@.wf(*env, old(code).len()),
        target < old(code).len(),
        fallthrough < old(code).len(),
    ensures
        kept(*old(code), *final(code)),
        final(ls).source == old(ls).source,
        r is Ok && env.typed(*old(code)) && old(code).blocked(target) && old(code).blocked(fallthrough)
            ==> closing(*old(code), *final(code)),
        r is Ok <==> branch_ready(*env, guard, old(ls)@),
        r matches Err(e) ==> e == placed_failure(guard is Some, *env, old(ls)@.provenance, old(ls)@.depth),
        r is Ok ==> final(ls)@.wf(*env, final(code).len()) && branched(
            *env,
            on_true,
            target,
            fallthrough,
            pc,
            guard,
            *old(code),
            old(ls)@,
            *final(code),
            final(ls)@,
        ),
{
    if ls.depth == 0 {
        return Err(CompileFailure::InvalidArtifact);
    }
    let ghost c0 = *code;
    let depth = ls.depth;
    let top: usize = depth - 1;
    ls.depth = top;
    let (yes, no) = if on_true {
        (target, fallthrough)
    } else {
        (fallthrough, target)
    };
    let condition = opt_use(code, env.stack[top], env.payload_type);
    let ghost c1 = *code;
    if env.int32_loop {
        let flag = code.compare_imm(IntCc::NotEqual, Ty::I32, condition.payload, 0);
        let ghost c2 = *code;
        code.branch(flag, yes, no);
        proof {
            assert forall|w: World| #[trigger] code.at(w) == code.at(w) by {
                let a = c1.at(w);
                let b = c2.at(w);
            }
        }
        return Ok(());
    }
    let guard = match guard {
        Some(guard) => guard,
        None => {
            return Err(CompileFailure::InvalidArtifact);
        },
    };
    let tags = condition_tags(code, condition.tag);
    let ghost c2 = *code;
    let decide = code.new_block();
    let leave = code.new_block();
    code.branch(tags.allowed, decide, leave);
    let ghost c3 = *code;
    let _ = code.switch_to(leave);
    let ghost c4 = *code;
    if let Err(e) = emit_branch_exit(code, env, &ls.provenance, depth, pc, guard) {
        return Err(e);
    }
    let ghost c5 = *code;
    let _ = code.switch_to(decide);
    let ghost c6 = *code;
    let integer = code.convert(ConvertOp::Reduce, Ty::I64, Ty::I32, condition.payload);
    let integer_truth = code.compare_imm(IntCc::NotEqual, Ty::I32, integer, 0);
    let ghost c7 = *code;
    let float_truth = f64_bits_truthy(code, condition.payload);
    let ghost c8 = *code;
    let numeric_truth = code.select(Ty::I8, tags.float, float_truth, integer_truth);
    let zero = code.iconst(Ty::I8, 0);
    let flag = code.select(Ty::I8, tags.empty, zero, numeric_truth);
    let ghost c9 = *code;
    code.branch(flag, yes, no);
    proof {
        let m = old(ls)@;
        assert forall|w: World|
            #![trigger code.at(w)]
            match c0.at(w) {
                Status::Run(s) => match condition_of(
                    env.int32_loop,
                    s.vars[env.stack@[top as int].payload as int],
                    s.vars[env.stack@[top as int].tag as int],
                ) {
                    Some(holds) => waits_at(
                        code.at(w),
                        s,
                        c0.len(),
                        if holds == on_true {
                            target
                        } else {
                            fallthrough
                        },
                        s.vars,
                        s.trace,
                    ),
                    None => exits_with(
                        code.at(w),
                        branch_exit(*env, s, m.provenance, m.depth as nat, pc, guard, w),
                    ),
                },
                st => code.at(w) == st,
            } by {
            waits_for_known_blocks(c0.insts@, w);
            let a1 = c1.at(w);
            let a2 = c2.at(w);
            let a3 = c3.at(w);
            let a4 = c4.at(w);
            let a5 = c5.at(w);
            let a6 = c6.at(w);
            let a7 = c7.at(w);
            let a8 = c8.at(w);
            let a9 = c9.at(w);
            if let Status::Run(s) = c0.at(w) {
                if let Status::Run(t) = a4 {
                    same_branch_exit(*env, s, t, m.provenance, m.depth as nat, pc, guard, w);
                }
            }
        }
    }
    Ok(())
}

/// What the exit does depends on the state through the frame's addresses, the
/// variables and what was observed.
proof fn same_branch_exit(
    env: OptEnv<'_>,
    s: State,
    t: State,
    provenance: Seq<OptProvenance>,
    depth: nat,
    pc: u32,
    guard: u32,
    w: World,
)
    requires
        t.vals[env.frame as int] == s.vals[env.frame as int],
        t.vals[env.stack_base as int] == s.vals[env.stack_base as int],
        t.vals[env.sret as int] == s.vals[env.sret as int],
        t.vals[env.arg_buf as int] == s.vals[env.arg_buf as int],
        t.vals[env.var_buf as int] == s.vals[env.var_buf as int],
        t.vars == s.vars,
        t.trace == s.trace,
    ensures
        branch_exit(env, s, provenance, depth, pc, guard, w) == branch_exit(env, t, provenance, depth, pc, guard, w),
{
    let clean = flush_vars(s.vars, env.cache@, env.cache@.len());
    let spilled = spill(flush_trace(s.vars, s.trace, env.cache@, env.cache@.len()), env, s, clean, depth);
    same_own_flow(pc_store(spilled, *env.abi, s.vals[env.frame as int], pc, w), env, s, t, provenance, depth, w);
}

/// Control leaves for a block.
pub open spec fn jumped(target: usize, a: Code, m: Lowered, b: Code, m2: Lowered) -> bool {
    &&& a.len() <= b.len()
    &&& m2 == m
    &&& forall|w: World|
        #![trigger b.at(w)]
        match a.at(w) {
            Status::Run(s) => waits_at(b.at(w), s, a.len(), target, s.vars, s.trace),
            st => b.at(w) == st,
        }
}

/// The result is published, and the function has left.
pub open spec fn done_trace(env: OptEnv<'_>, s: State, trace: Seq<Event>, payload: int, tag: int, depth: int) -> Seq<Event> {
    exit_record(
        top_store(
            pair_stores(trace, s.vals[env.frame as int] + env.abi.result, payload, tag),
            *env.abi,
            s.vals[env.frame as int],
            s.vals[env.stack_base as int],
            depth,
        ),
        *env.abi,
        s.vals[env.sret as int],
        env.abi.exit_done,
        0,
        0,
    )
}

/// What returning the stack top does. A borrowed value cannot be moved out of
/// its slot: where it may own something, it becomes an owner first.
pub open spec fn return_trace(env: OptEnv<'_>, s: State, provenance: Seq<OptProvenance>, depth: nat, pc: u32, w: World) -> Seq<Event> {
    let top = depth - 1;
    let payload = s.vars[env.stack@[top].payload as int];
    let tag = s.vars[env.stack@[top].tag as int];
    if env.int32_loop || !is_borrowed(provenance[top]) {
        done_trace(env, s, s.trace, payload, tag, top)
    } else {
        let asked = read(s.trace, Ty::I32, s.vals[env.frame as int] + env.abi.flags, w);
        if owns_nothing(env, tag, s.trace, w) {
            done_trace(env, s, asked, payload, tag, top)
        } else {
            let spilled = spill(asked, env, s, s.vars, depth);
            let owned = own_flow(
                pc_store(spilled, *env.abi, s.vals[env.frame as int], pc, w),
                env,
                s,
                provenance,
                depth,
                w,
            );
            if owned.running {
                let p = wrap(Ty::I64, (w.observe)(owned.trace.len() as int));
                let t = wrap(Ty::I64, (w.observe)(owned.trace.len() + 1int));
                done_trace(
                    env,
                    s,
                    pair_loads(owned.trace, s.vals[env.stack_base as int] + top * 16, p, t),
                    p,
                    t,
                    top,
                )
            } else {
                owned.trace
            }
        }
    }
}

pub open spec fn result_addressable(env: OptEnv<'_>) -> bool {
    0 <= env.abi.result <= 0x7fff_fff0
}

pub open spec fn return_ready(env: OptEnv<'_>, m: Lowered) -> bool {
    &&& m.depth > 0
    &&& result_addressable(env)
    &&& env.int32_loop || !is_borrowed(m.provenance[m.depth - 1]) || stack_ownable(env, m.provenance, m.depth)
}

pub open spec fn returned(env: OptEnv<'_>, pc: u32, a: Code, m: Lowered, b: Code, m2: Lowered) -> bool {
    &&& a.len() <= b.len()
    &&& m2 == m.pop(1)
    &&& forall|w: World|
        #![trigger b.at(w)]
        match a.at(w) {
            Status::Run(s) => exits_with(b.at(w), return_trace(env, s, m.provenance, m.depth as nat, pc, w)),
            st => b.at(w) == st,
        }
}

/// Publishes the result in the variables of the stack slot, and leaves.
fn emit_done(code: &mut Code, env: &OptEnv<'_>, top: usize)
    requires
        env.wf(old(code).len()),
        top < env.stack@.len(),
        result_addressable(*env),
    ensures
        kept(*old(code), *final(code)),
        env.typed(*old(code)) ==> closing(*old(code), *final(code)),
        final(code).len() >= old(code).len(),
        forall|w: World|
            #![trigger final(code).at(w)]
            match old(code).at(w) {
                Status::Run(s) => exits_with(
                    final(code).at(w),
                    done_trace(
                        *env,
                        s,
                        s.trace,
                        s.vars[env.stack@[top as int].payload as int],
                        s.vars[env.stack@[top as int].tag as int],
                        top as int,
                    ),
                ),
                st => final(code).at(w) == st,
            },
{
    let ghost c0 = *code;
    let result = opt_use(code, env.stack[top], env.payload_type);
    let ghost c1 = *code;
    opt_store_at(code, env.frame, env.abi.result, result, env.payload_type);
    let ghost c2 = *code;
    opt_set_stack_top(code, env, top);
    let ghost c3 = *code;
    emit_opt_exit(code, env, env.abi.exit_done, None, 0);
    proof {
        assert forall|w: World|
            #![trigger code.at(w)]
            match c0.at(w) {
                Status::Run(s) => exits_with(
                    code.at(w),
                    done_trace(
                        *env,
                        s,
                        s.trace,
                        s.vars[env.stack@[top as int].payload as int],
                        s.vars[env.stack@[top as int].tag as int],
                        top as int,
                    ),
                ),
                st => code.at(w) == st,
            } by {
            let a = c1.at(w);
            let b = c2.at(w);
            let c = c3.at(w);
        }
    }
}

/// Makes the borrowed stack top an owner, and its slot hold what that made of
/// it.
fn own_result(code: &mut Code, env: &OptEnv<'_>, provenance: &Vec<OptProvenance>, depth: usize, pc: u32) -> (r: Result<
    (),
    CompileFailure,
>)
    requires
        env.wf(old(code).len()),
        0 < depth <= env.stack@.len(),
    ensures
        kept(*old(code), *final(code)),
        r is Ok && env.typed(*old(code)) ==> steady(*old(code), *final(code)),
        r is Ok <==> stack_ownable(*env, provenance@, depth as int),
        r matches Err(e) ==> e == own_failure(*env, provenance@, depth as int),
        final(code).len() >= old(code).len(),
        r is Ok ==> forall|w: World|
            #![trigger final(code).at(w)]
            match old(code).at(w) {
                Status::Run(s) => {
                    let spilled = spill(s.trace, *env, s, s.vars, depth as nat);
                    let owned = own_flow(
                        pc_store(spilled, *env.abi, s.vals[env.frame as int], pc, w),
                        *env,
                        s,
                        provenance@,
                        depth as nat,
                        w,
                    );
                    if owned.running {
                        let p = wrap(Ty::I64, (w.observe)(owned.trace.len() as int));
                        let t = wrap(Ty::I64, (w.observe)(owned.trace.len() + 1int));
                        runs_on(
                            final(code).at(w),
                            s,
                            old(code).len(),
                            crate::lower_values::vars_after(s.vars, env.stack@[depth - 1], p, t),
                            pair_loads(owned.trace, s.vals[env.stack_base as int] + (depth - 1) * 16, p, t),
                        )
                    } else {
                        exits_with(final(code).at(w), owned.trace)
                    }
                },
                st => final(code).at(w) == st,
            },
{
    let ghost c0 = *code;
    store_slots(code, env.arg_buf, env.arguments, env.arguments.len(), env.payload_type);
    let ghost c1 = *code;
    store_slots(code, env.var_buf, env.locals, env.locals.len(), env.payload_type);
    let ghost c2 = *code;
    store_slots(code, env.stack_base, env.stack, depth, env.payload_type);
    let ghost c3 = *code;
    let _ = set_pc(code, env, pc);
    let ghost c4 = *code;
    if let Err(e) = opt_own_stack_for_exit(code, env, depth, provenance) {
        return Err(e);
    }
    let ghost c5 = *code;
    let top: usize = depth - 1;
    let result = opt_load(code, env.stack_base, top);
    let ghost c6 = *code;
    opt_define(code, env.stack[top], result);
    proof {
        assert forall|w: World|
            #![trigger code.at(w)]
            match c0.at(w) {
                Status::Run(s) => {
                    let spilled = spill(s.trace, *env, s, s.vars, depth as nat);
                    let owned = own_flow(
                        pc_store(spilled, *env.abi, s.vals[env.frame as int], pc, w),
                        *env,
                        s,
                        provenance@,
                        depth as nat,
                        w,
                    );
                    if owned.running {
                        let p = wrap(Ty::I64, (w.observe)(owned.trace.len() as int));
                        let t = wrap(Ty::I64, (w.observe)(owned.trace.len() + 1int));
                        runs_on(
                            code.at(w),
                            s,
                            c0.len(),
                            crate::lower_values::vars_after(s.vars, env.stack@[depth - 1], p, t),
                            pair_loads(owned.trace, s.vals[env.stack_base as int] + (depth - 1) * 16, p, t),
                        )
                    } else {
                        exits_with(code.at(w), owned.trace)
                    }
                },
                st => code.at(w) == st,
            } by {
            let a1 = c1.at(w);
            let a2 = c2.at(w);
            let a3 = c3.at(w);
            let a4 = c4.at(w);
            let a5 = c5.at(w);
            let a6 = c6.at(w);
            if let Status::Run(s) = c0.at(w) {
                let t = a4->Run_0;
                assert(t.vals[env.frame as int] == s.vals[env.frame as int]);
                assert(t.vals[env.stack_base as int] == s.vals[env.stack_base as int]);
                assert(t.vals[env.sret as int] == s.vals[env.sret as int]);
                same_own_flow(t.trace, *env, s, t, provenance@, depth as nat, w);
            }
        }
    }
    Ok(())
}

/// `return`.
#[verifier::rlimit(60)]
pub fn lower_return(code: &mut Code, env: &OptEnv<'_>, ls: &mut LowerState, pc: u32) -> (r: Result<(), CompileFailure>)
    requires
        env.wf(old(code).len()),
        old(ls)@.wf(*env, old(code).len()),
    ensures
        kept(*old(code), *final(code)),
        final(ls).source == old(ls).source,
        r is Ok && env.typed(*old(code)) ==> closing(*old(code), *final(code)),
        r is Ok <==> return_ready(*env, old(ls)@),
        r matches Err(e) ==> e == placed_failure(
            0 <= env.abi.result <= 0x7fff_fff0,
            *env,
            old(ls)@.provenance,
            old(ls)@.depth,
        ),
        r is Ok ==> final(ls)@.wf(*env, final(code).len()) && returned(
            *env,
            pc,
            *old(code),
            old(ls)@,
            *final(code),
            final(ls)@,
        ),
{
    if ls.depth == 0 || env.abi.result < 0 || env.abi.result > 0x7fff_fff0 {
        return Err(CompileFailure::InvalidArtifact);
    }
    let ghost c0 = *code;
    let depth = ls.depth;
    let top: usize = depth - 1;
    ls.depth = top;
    if env.int32_loop || !matches!(ls.provenance[top], OptProvenance::Argument(_) | OptProvenance::Local(_)) {
        emit_done(code, env, top);
        return Ok(());
    }
    let borrowed = opt_use(code, env.stack[top], env.payload_type);
    let ghost c1 = *code;
    let primitive = code.new_block();
    let materialize = code.new_cold_block();
    let ready = code.new_block();
    let ghost c2 = *code;
    emit_cleanup_dispatch(code, env, borrowed.tag, primitive, materialize);
    let ghost c3 = *code;
    let _ = code.switch_to(primitive);
    code.jump(ready);
    let ghost c4 = *code;
    let _ = code.switch_to(materialize);
    let ghost c5 = *code;
    if let Err(e) = own_result(code, env, &ls.provenance, depth, pc) {
        return Err(e);
    }
    let ghost c6 = *code;
    code.jump(ready);
    let _ = code.switch_to(ready);
    let ghost c7 = *code;
    emit_done(code, env, top);
    proof {
        let m = old(ls)@;
        assert forall|w: World|
            #![trigger code.at(w)]
            match c0.at(w) {
                Status::Run(s) => exits_with(code.at(w), return_trace(*env, s, m.provenance, m.depth as nat, pc, w)),
                st => code.at(w) == st,
            } by {
            waits_for_known_blocks(c0.insts@, w);
            let a1 = c1.at(w);
            let a2 = c2.at(w);
            let a3 = c3.at(w);
            let a4 = c4.at(w);
            let a5 = c5.at(w);
            let a6 = c6.at(w);
            let a7 = c7.at(w);
            if let Status::Run(s) = c0.at(w) {
                if let Status::Run(t) = a5 {
                    assert(t.vals[env.frame as int] == s.vals[env.frame as int]);
                    assert(t.vals[env.stack_base as int] == s.vals[env.stack_base as int]);
                    assert(t.vals[env.sret as int] == s.vals[env.sret as int]);
                    let spilled = spill(t.trace, *env, s, t.vars, depth as nat);
                    same_own_flow(
                        pc_store(spilled, *env.abi, s.vals[env.frame as int], pc, w),
                        *env,
                        s,
                        t,
                        m.provenance,
                        depth as nat,
                        w,
                    );
                }
            }
        }
    }
    Ok(())
}

pub open spec fn returned_undefined(env: OptEnv<'_>, a: Code, m: Lowered, b: Code, m2: Lowered) -> bool {
    &&& a.len() <= b.len()
    &&& m2 == m
    &&& forall|w: World|
        #![trigger b.at(w)]
        match a.at(w) {
            Status::Run(s) => exits_with(
                b.at(w),
                exit_record(
                    pair_stores(s.trace, s.vals[env.frame as int] + env.abi.result, 0, JS_TAG_UNDEFINED as int),
                    *env.abi,
                    s.vals[env.sret as int],
                    env.abi.exit_done,
                    0,
                    0,
                ),
            ),
            st => b.at(w) == st,
        }
}

/// `return_undef`.
pub fn lower_return_undefined(code: &mut Code, env: &OptEnv<'_>, ls: &LowerState) -> (r: Result<(), CompileFailure>)
    requires
        env.wf(old(code).len()),
    ensures
        kept(*old(code), *final(code)),
        r is Ok && env.typed(*old(code)) ==> closing(*old(code), *final(code)),
        r is Ok <==> result_addressable(*env),
        r is Err ==> r == Err::<(), CompileFailure>(CompileFailure::InvalidArtifact),
        r is Ok ==> returned_undefined(*env, *old(code), ls@, *final(code), ls@),
{
    if env.abi.result < 0 || env.abi.result > 0x7fff_fff0 {
        return Err(CompileFailure::InvalidArtifact);
    }
    let blank = undefined(code);
    let ghost c1 = *code;
    opt_store_at(code, env.frame, env.abi.result, blank, Ty::I64);
    let ghost c2 = *code;
    emit_opt_exit(code, env, env.abi.exit_done, None, 0);
    proof {
        assert forall|w: World| #[trigger] code.at(w) == code.at(w) by {
            let a = c1.at(w);
            let b = c2.at(w);
        }
    }
    Ok(())
}

} // verus!
