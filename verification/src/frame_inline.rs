//! Calls whose callee's bytecode is inlined, from the function that is compiled.
use crate::call_code::at_start;
use crate::call_code::progresses;
use crate::call_code::Progress;
use crate::checks::read;
use crate::checks::rejoin;
use crate::checks::seen;
use crate::code::status;
use crate::code::step;
use crate::code::value;
use crate::code::waits_for_known_blocks;
use crate::code::kept;
use crate::code::Code;
use crate::code::Event;
use crate::code::Inst;
use crate::code::IntCc;
use crate::code::State;
use crate::code::Status;
use crate::code::Ty;
use crate::code::World;
use crate::control::CompileFailure;
use crate::elements::checked_chain;
use crate::elements::publish_frame;
use crate::elements::published;
use crate::exits::deopt_depends_on_frame;
use crate::exits::deopt_trace;
use crate::exits::flush;
use crate::exits::flush_trace;
use crate::exits::flush_vars;
use crate::exits::own_flow;
use crate::exits::own_failure;
use crate::exits::own_failures;
use crate::exits::placed_failure;
use crate::exits::pc_address;
use crate::exits::pc_store;
use crate::exits::same_own_flow;
use crate::exits::set_pc;
use crate::exits::spill;
use crate::exits::stack_ownable;
use crate::frame::emit_opt_exit;
use crate::frame::exit_record;
use crate::frame::exits_with;
use crate::frame::runs_on;
use crate::frame::OptEnv;
use crate::guard_code::callee_fits;
use crate::guard_code::callee_reads;
use crate::guard_code::emit_guarded_direct_callee_identity;
use crate::guard_code::DirectCalleeIdentity;
use crate::inline_calls::admitted;
use crate::inline_calls::ask_frame;
use crate::inline_calls::callee_of;
use crate::inline_calls::enter_args;
use crate::inline_calls::open_frame;
use crate::inline_calls::opened;
use crate::inline_calls::MAX_INLINE_BLOCKS;
use crate::inline_frames::call_event;
use crate::inline_frames::runtime_call;
use crate::inline_frames::FrameRegion;
use crate::inline_frames::InlineAddresses;
use crate::inline_frames::InlineApi;
use crate::inline_frames::InlineCallKind;
use crate::inline_frames::InlineFrame;
use crate::inline_frames::InlineIds;
use crate::inline_ops::loaded;
use crate::inline_regions::blocks_ok;
use crate::inline_regions::body_code;
use crate::inline_regions::regions_wf;
use crate::lower_values::opt_define;
use crate::lower_values::opt_load;
use crate::lower_values::opt_use;
use crate::lower_values::undefined;
use crate::lower_values::vars_after;
use crate::lower_values::OptVars;
use crate::property_cache::invalid_entries;
use crate::property_cache::invalidate;
use crate::provenance::OptProvenance;
use crate::qjs::JS_TAG_UNDEFINED;
use crate::inline_frames::offered;
use crate::inline_frames::Offers;
use crate::typing::steady;
use crate::typing::closing;
use crate::typing::calm;
use crate::assemble::Known;
use crate::frame_typing::pair_held;
use crate::frame_typing::slot_named;
use crate::frame_typing::slots_named;
use crate::frame_typing::cached_named;
use crate::frame_typing::cache_named;
use crate::frame_typing::args_held;
use crate::frame_typing::ids_held;
use crate::typing::begun;
use vstd::prelude::*;

verus! {

broadcast use {crate::typing::group_typing, crate::frame_typing::group_frame};

/// Slots are read from memory.
pub open spec fn slots_loaded(p: Progress, base: int, slots: Seq<OptVars>, k: nat, w: World) -> Progress
    decreases k,
{
    if k == 0 {
        p
    } else {
        let before = slots_loaded(p, base, slots, (k - 1) as nat, w);
        let pair = loaded(before.trace, base + (k - 1) * 16, w);
        Progress {
            running: true,
            vars: vars_after(before.vars, slots[k - 1], pair.payload, pair.tag),
            trace: pair.trace,
        }
    }
}

fn load_slots(code: &mut Code, base: usize, slots: &Vec<OptVars>, count: usize)
    requires
        base < old(code).len(),
        count <= slots@.len() < crate::frame::MAX_SLOTS,
    ensures
        kept(*old(code), *final(code)),
        old(code).holds(base, Ty::I64) && slots_named(*old(code), slots@, Ty::I64) ==> steady(*old(code), *final(code)),
        final(code).len() >= old(code).len(),
        forall|w: World|
            #![trigger final(code).at(w)]
            match old(code).at(w) {
                Status::Run(s) => {
                    let p = slots_loaded(at_start(s), s.vals[base as int], slots@, count as nat, w);
                    runs_on(final(code).at(w), s, old(code).len(), p.vars, p.trace)
                },
                st => final(code).at(w) == st,
            },
{
    let mut i: usize = 0;
    while i < count
        invariant
            kept(*old(code), *code),
            old(code).holds(base, Ty::I64) && slots_named(*old(code), slots@, Ty::I64) ==> steady(*old(code), *code),
            old(code).holds(base, Ty::I64) && slots_named(*old(code), slots@, Ty::I64)
                ==> slots_named(*code, slots@, Ty::I64) && code.holds(base, Ty::I64),
            i <= count <= slots@.len() < crate::frame::MAX_SLOTS,
            base < old(code).len() <= code.len(),
            forall|w: World|
                #![trigger code.at(w)]
                match old(code).at(w) {
                    Status::Run(s) => {
                        let p = slots_loaded(at_start(s), s.vals[base as int], slots@, i as nat, w);
                        runs_on(code.at(w), s, old(code).len(), p.vars, p.trace)
                    },
                    st => code.at(w) == st,
                },
        decreases count - i,
    {
        let ghost before = *code;
        let pair = opt_load(code, base, i);
        opt_define(code, slots[i], pair);
        proof {
            assert forall|w: World|
                #![trigger code.at(w)]
                match old(code).at(w) {
                    Status::Run(s) => {
                        let p = slots_loaded(at_start(s), s.vals[base as int], slots@, (i + 1) as nat, w);
                        runs_on(code.at(w), s, old(code).len(), p.vars, p.trace)
                    },
                    st => code.at(w) == st,
                } by {
                let b = before.at(w);
            }
        }
        i = i + 1;
    }
}

/// Slots become undefined.
pub open spec fn slots_undefined(vars: Map<int, int>, slots: Seq<OptVars>, from: int, to: int) -> Map<int, int>
    decreases to - from,
{
    if to <= from {
        vars
    } else {
        vars_after(slots_undefined(vars, slots, from, to - 1), slots[to - 1], 0, JS_TAG_UNDEFINED as int)
    }
}

fn undefine_slots(code: &mut Code, slots: &Vec<OptVars>, from: usize)
    requires
        from <= slots@.len(),
    ensures
        kept(*old(code), *final(code)),
        slots_named(*old(code), slots@, Ty::I64) ==> steady(*old(code), *final(code)),
        final(code).len() >= old(code).len(),
        forall|w: World|
            #![trigger final(code).at(w)]
            match old(code).at(w) {
                Status::Run(s) => runs_on(
                    final(code).at(w),
                    s,
                    old(code).len(),
                    slots_undefined(s.vars, slots@, from as int, slots@.len() as int),
                    s.trace,
                ),
                st => final(code).at(w) == st,
            },
{
    let mut i: usize = from;
    while i < slots.len()
        invariant
            kept(*old(code), *code),
            slots_named(*old(code), slots@, Ty::I64) ==> steady(*old(code), *code),
            slots_named(*old(code), slots@, Ty::I64) ==> slots_named(*code, slots@, Ty::I64),
            from <= i <= slots@.len(),
            old(code).len() <= code.len(),
            forall|w: World|
                #![trigger code.at(w)]
                match old(code).at(w) {
                    Status::Run(s) => runs_on(
                        code.at(w),
                        s,
                        old(code).len(),
                        slots_undefined(s.vars, slots@, from as int, i as int),
                        s.trace,
                    ),
                    st => code.at(w) == st,
                },
        decreases slots@.len() - i,
    {
        let ghost before = *code;
        let blank = undefined(code);
        let ghost c1 = *code;
        opt_define(code, slots[i], blank);
        proof {
            assert forall|w: World|
                #![trigger code.at(w)]
                match old(code).at(w) {
                    Status::Run(s) => runs_on(
                        code.at(w),
                        s,
                        old(code).len(),
                        slots_undefined(s.vars, slots@, from as int, i + 1),
                        s.trace,
                    ),
                    st => code.at(w) == st,
                } by {
                let b = before.at(w);
                let a1 = c1.at(w);
            }
        }
        i = i + 1;
    }
}

/// The whole frame as the interpreter left it; what lies above the operand
/// stack is undefined.
pub open spec fn frame_reloaded(env: OptEnv<'_>, s: State, p: Progress, depth: int, w: World) -> Progress {
    let arguments = slots_loaded(p, s.vals[env.arg_buf as int], env.arguments@, env.arguments@.len(), w);
    let locals = slots_loaded(arguments, s.vals[env.var_buf as int], env.locals@, env.locals@.len(), w);
    let stack = slots_loaded(locals, s.vals[env.stack_base as int], env.stack@, depth as nat, w);
    Progress {
        vars: slots_undefined(stack.vars, env.stack@, depth, env.stack@.len() as int),
        ..stack
    }
}

fn reload_frame(code: &mut Code, env: &OptEnv<'_>, depth: usize)
    requires
        env.wf(old(code).len()),
        depth <= env.stack@.len(),
    ensures
        kept(*old(code), *final(code)),
        env.typed(*old(code)) ==> steady(*old(code), *final(code)),
        final(code).len() >= old(code).len(),
        forall|w: World|
            #![trigger final(code).at(w)]
            match old(code).at(w) {
                Status::Run(s) => {
                    let p = frame_reloaded(*env, s, at_start(s), depth as int, w);
                    runs_on(final(code).at(w), s, old(code).len(), p.vars, p.trace)
                },
                st => final(code).at(w) == st,
            },
{
    load_slots(code, env.arg_buf, env.arguments, env.arguments.len());
    let ghost c1 = *code;
    load_slots(code, env.var_buf, env.locals, env.locals.len());
    let ghost c2 = *code;
    load_slots(code, env.stack_base, env.stack, depth);
    let ghost c3 = *code;
    undefine_slots(code, env.stack, depth);
    proof {
        assert forall|w: World|
            #![trigger code.at(w)]
            match old(code).at(w) {
                Status::Run(s) => {
                    let p = frame_reloaded(*env, s, at_start(s), depth as int, w);
                    runs_on(code.at(w), s, old(code).len(), p.vars, p.trace)
                },
                st => code.at(w) == st,
            } by {
            let a1 = c1.at(w);
            let a2 = c2.at(w);
            let a3 = c3.at(w);
            if let Status::Run(s) = old(code).at(w) {
                let t1 = a1->Run_0;
                let p1 = slots_loaded(at_start(s), s.vals[env.arg_buf as int], env.arguments@, env.arguments@.len(), w);
                loaded_from(at_start(t1), p1, s.vals[env.var_buf as int], env.locals@, env.locals@.len(), w);
                let t2 = a2->Run_0;
                let p2 = slots_loaded(p1, s.vals[env.var_buf as int], env.locals@, env.locals@.len(), w);
                loaded_from(at_start(t2), p2, s.vals[env.stack_base as int], env.stack@, depth as nat, w);
            }
        }
    }
}

/// Reading slots depends on the variables and on what was observed alone.
proof fn loaded_from(p: Progress, q: Progress, base: int, slots: Seq<OptVars>, k: nat, w: World)
    requires
        p.vars == q.vars,
        p.trace == q.trace,
    ensures
        slots_loaded(p, base, slots, k, w).vars == slots_loaded(q, base, slots, k, w).vars,
        slots_loaded(p, base, slots, k, w).trace == slots_loaded(q, base, slots, k, w).trace,
    decreases k,
{
    if k > 0 {
        loaded_from(p, q, base, slots, (k - 1) as nat, w);
    }
}

/// A call of an inlined callee, as the function around it sees it.
#[derive(Clone, Copy, Debug, PartialEq, Eq, Structural)]
pub struct InlineSite {
    pub node: u32,
    pub pc: u32,
    pub argc: u16,
    pub depth: usize,
    pub guard: u32,
}

pub open spec fn method_operand(region: FrameRegion) -> int {
    if region.call_kind == InlineCallKind::Method {
        1
    } else {
        0
    }
}

impl InlineSite {
    pub open spec fn base(&self, region: FrameRegion) -> int {
        self.depth - self.argc - 1 - method_operand(region)
    }

    pub open spec fn function_index(&self) -> int {
        self.depth - self.argc - 1
    }

    /// The region was made for this call, and for this frame.
    pub open spec fn fits(&self, env: OptEnv<'_>, region: FrameRegion) -> bool {
        &&& self.base(region) >= 0
        &&& 0 < region.blocks@.len() <= MAX_INLINE_BLOCKS
        &&& region.call_node == self.node
        &&& region.call_pc == self.pc
        &&& region.shape.arguments == env.arguments@.len()
        &&& region.shape.locals == env.locals@.len()
        &&& region.shape.stack == self.base(region) + 1
    }
}

/// How far a call got before the callee's frame was looked at.
pub struct RootEntry {
    pub progress: Progress,
    pub output: int,
}

/// The callee is checked, the caller's frame published, and a frame asked for.
pub open spec fn root_entry(
    env: OptEnv<'_>,
    api: InlineApi,
    region: FrameRegion,
    site: InlineSite,
    s: State,
    provenance: Seq<OptProvenance>,
    w: World,
) -> RootEntry {
    let abi = *env.abi;
    let frame = s.vals[env.frame as int];
    let depth = site.depth as nat;
    let vars = invalid_entries(flush_vars(s.vars, env.cache@, env.cache@.len()), env.cache@, env.cache@.len());
    let flushed = flush_trace(s.vars, s.trace, env.cache@, env.cache@.len());
    let callee = env.stack@[site.function_index()];
    let payload = vars[callee.payload as int];
    let tag = vars[callee.tag as int];
    let t1 = callee_reads(abi, callee_of(region), payload, tag, flushed, w);
    if !callee_fits(callee_of(region), payload, tag, flushed, w) {
        RootEntry {
            progress: Progress {
                running: false,
                vars,
                trace: deopt_trace(env, s, vars, t1, provenance, depth, site.pc, site.guard, w),
            },
            output: 0,
        }
    } else {
        let ready = own_flow(
            pc_store(spill(t1, env, s, vars, depth), abi, frame, site.pc, w),
            env,
            s,
            provenance,
            depth,
            w,
        );
        if !ready.running {
            RootEntry { progress: Progress { running: false, vars, trace: ready.trace }, output: 0 }
        } else {
            let output = seen(ready.trace, Ty::I64, w);
            let t2 = ready.trace.push(Event::SlotAddr { slot: env.call_output as int, offset: 0, address: output });
            let answer = seen(t2, Ty::I32, w);
            let t3 = call_event(
                api.enter->Some_0,
                enter_args(frame, site.pc, region.resume_pc, region.abi_kind, site.argc as int, output),
                t2,
                w,
            );
            RootEntry { progress: frame_given(env, api, region, site, s, vars, t3, answer, w), output }
        }
    }
}

/// The runtime's answer: a frame, a call that the interpreter has to make, or
/// an exception.
pub open spec fn frame_given(
    env: OptEnv<'_>,
    api: InlineApi,
    region: FrameRegion,
    site: InlineSite,
    s: State,
    vars: Map<int, int>,
    trace: Seq<Event>,
    answer: int,
    w: World,
) -> Progress {
    let abi = *env.abi;
    let frame = s.vals[env.frame as int];
    let sret = s.vals[env.sret as int];
    if answer == 0 {
        Progress { running: true, vars, trace }
    } else if answer == api.guard_miss {
        Progress {
            running: false,
            vars,
            trace: exit_record(
                pc_store(trace, abi, frame, site.pc, w),
                abi,
                sret,
                abi.exit_deopt,
                pc_address(trace, site.pc, w),
                site.guard,
            ),
        }
    } else {
        Progress {
            running: false,
            vars,
            trace: exit_record(
                pc_store(trace, abi, frame, region.resume_pc, w),
                abi,
                sret,
                abi.exit_exception,
                0,
                0,
            ),
        }
    }
}

/// Emits `frame_given`.
fn expect_frame(
    code: &mut Code,
    env: &OptEnv<'_>,
    api: &InlineApi,
    region: &FrameRegion,
    site: InlineSite,
    answer: usize,
)
    requires
        env.wf(old(code).len()),
        answer < old(code).len(),
    ensures
        kept(*old(code), *final(code)),
        env.typed(*old(code)) && old(code).holds(answer, Ty::I32) ==> steady(*old(code), *final(code)),
        final(code).len() > old(code).len(),
        forall|w: World|
            #![trigger final(code).at(w)]
            match old(code).at(w) {
                Status::Run(s) => progresses(
                    final(code).at(w),
                    s,
                    old(code).len(),
                    frame_given(*env, *api, *region, site, s, s.vars, s.trace, s.vals[answer as int], w),
                ),
                st => final(code).at(w) == st,
            },
{
    let okay = code.compare_imm(IntCc::Equal, Ty::I32, answer, 0);
    let entered = code.new_block();
    let declined = code.new_block();
    code.branch(okay, entered, declined);
    let _ = code.switch_to(declined);
    let miss = code.compare_imm(IntCc::Equal, Ty::I32, answer, api.guard_miss);
    let missed = code.new_block();
    let exception = code.new_block();
    code.branch(miss, missed, exception);
    let ghost c1 = *code;
    let _ = code.switch_to(exception);
    let ghost c2 = *code;
    let _ = set_pc(code, env, region.resume_pc);
    let ghost c3 = *code;
    emit_opt_exit(code, env, env.abi.exit_exception, None, 0);
    let ghost c4 = *code;
    let _ = code.switch_to(missed);
    let ghost c5 = *code;
    let pc = set_pc(code, env, site.pc);
    let ghost c6 = *code;
    emit_opt_exit(code, env, env.abi.exit_deopt, Some(pc), site.guard);
    let ghost c7 = *code;
    let _ = code.switch_to(entered);
    proof {
        assert forall|w: World|
            #![trigger code.at(w)]
            match old(code).at(w) {
                Status::Run(s) => progresses(
                    code.at(w),
                    s,
                    old(code).len(),
                    frame_given(*env, *api, *region, site, s, s.vars, s.trace, s.vals[answer as int], w),
                ),
                st => code.at(w) == st,
            } by {
            waits_for_known_blocks(old(code).insts@, w);
            let a1 = c1.at(w);
            let a2 = c2.at(w);
            let a3 = c3.at(w);
            let a4 = c4.at(w);
            let a5 = c5.at(w);
            let a6 = c6.at(w);
            let a7 = c7.at(w);
        }
    }
}

/// Checks the callee; the caller deoptimizes where it is another one.
fn expect_callee(
    code: &mut Code,
    env: &OptEnv<'_>,
    region: &FrameRegion,
    site: InlineSite,
    provenance: &Vec<OptProvenance>,
) -> (r: Result<(), CompileFailure>)
    requires
        env.wf(old(code).len()),
        site.depth <= env.stack@.len(),
        site.base(*region) >= 0,
        !env.int32_loop,
    ensures
        kept(*old(code), *final(code)),
        r is Ok && env.typed(*old(code)) ==> steady(*old(code), *final(code)),
        r is Ok <==> stack_ownable(*env, provenance@, site.depth as int),
        r matches Err(e) ==> e == own_failure(*env, provenance@, site.depth as int),
        final(code).len() >= old(code).len(),
        r is Ok ==> forall|w: World|
            #![trigger final(code).at(w)]
            match old(code).at(w) {
                Status::Run(s) => {
                    let callee = env.stack@[site.function_index()];
                    let payload = s.vars[callee.payload as int];
                    let tag = s.vars[callee.tag as int];
                    crate::elements::passes(
                        *env,
                        final(code).at(w),
                        s,
                        old(code).len(),
                        callee_fits(callee_of(*region), payload, tag, s.trace, w),
                        s.vars,
                        callee_reads(*env.abi, callee_of(*region), payload, tag, s.trace, w),
                        provenance@,
                        site.depth as int,
                        site.pc,
                        site.guard,
                        w,
                    )
                },
                st => final(code).at(w) == st,
            },
{
    let failed = code.new_block();
    let function: usize = site.depth - site.argc as usize - 1;
    let callee = opt_use(code, env.stack[function], Ty::I64);
    let ghost c1 = *code;
    emit_guarded_direct_callee_identity(
        code,
        env.abi,
        callee,
        DirectCalleeIdentity { object: region.object_identity, bytecode: region.bytecode_identity },
        failed,
    );
    let ghost c2 = *code;
    if let Err(e) = rejoin(code, env, failed, provenance, site.depth, site.pc, site.guard) {
        return Err(e);
    }
    proof {
        assert forall|w: World|
            #![trigger code.at(w)]
            match old(code).at(w) {
                Status::Run(s) => {
                    let callee = env.stack@[site.function_index()];
                    let payload = s.vars[callee.payload as int];
                    let tag = s.vars[callee.tag as int];
                    crate::elements::passes(
                        *env,
                        code.at(w),
                        s,
                        old(code).len(),
                        callee_fits(callee_of(*region), payload, tag, s.trace, w),
                        s.vars,
                        callee_reads(*env.abi, callee_of(*region), payload, tag, s.trace, w),
                        provenance@,
                        site.depth as int,
                        site.pc,
                        site.guard,
                        w,
                    )
                },
                st => code.at(w) == st,
            } by {
            waits_for_known_blocks(old(code).insts@, w);
            let a1 = c1.at(w);
            let a2 = c2.at(w);
            if let Status::Run(s) = old(code).at(w) {
                let callee = env.stack@[site.function_index()];
                let payload = s.vars[callee.payload as int];
                let tag = s.vars[callee.tag as int];
                checked_chain(
                    *env,
                    s,
                    a2,
                    code.at(w),
                    old(code).len(),
                    failed,
                    callee_fits(callee_of(*region), payload, tag, s.trace, w),
                    s.vars,
                    callee_reads(*env.abi, callee_of(*region), payload, tag, s.trace, w),
                    provenance@,
                    site.depth as int,
                    site.pc,
                    site.guard,
                    w,
                );
            }
        }
    }
    Ok(())
}

/// Emits `root_entry`; answers where the new frame's address is found.
#[verifier::rlimit(60)]
fn enter_root(
    code: &mut Code,
    env: &OptEnv<'_>,
    api: &InlineApi,
    region: &FrameRegion,
    site: InlineSite,
    provenance: &Vec<OptProvenance>,
) -> (r: Result<usize, CompileFailure>)
    requires
        env.wf(old(code).len()),
        site.depth <= env.stack@.len(),
        site.base(*region) >= 0,
        !env.int32_loop,
    ensures
        kept(*old(code), *final(code)),
        r is Ok && env.typed(*old(code)) ==> steady(*old(code), *final(code)),
        r matches Ok(output) ==> final(code).holds(output, Ty::I64),
        r is Ok <==> stack_ownable(*env, provenance@, site.depth as int) && api.enter is Some,
        r matches Err(e) ==> e == placed_failure(api.enter is Some, *env, provenance@, site.depth as int),
        final(code).len() >= old(code).len(),
        r matches Ok(output) ==> output < final(code).len() && forall|w: World|
            #![trigger final(code).at(w)]
            match old(code).at(w) {
                Status::Run(s) => {
                    let e = root_entry(*env, *api, *region, site, s, provenance@, w);
                    &&& progresses(final(code).at(w), s, old(code).len(), e.progress)
                    &&& e.progress.running ==> value(final(code).at(w), output) == e.output
                },
                st => final(code).at(w) == st,
            },
{
    let enter = match api.enter {
        Some(enter) => enter,
        None => {
            return Err(CompileFailure::InvalidArtifact);
        },
    };
    flush(code, env.cache);
    let ghost c1 = *code;
    invalidate(code, env.cache);
    let ghost c2 = *code;
    if let Err(e) = expect_callee(code, env, region, site, provenance) {
        return Err(e);
    }
    let ghost c3 = *code;
    if let Err(e) = publish_frame(code, env, provenance, site.depth, site.depth, site.pc) {
        return Err(e);
    }
    let ghost c4 = *code;
    let (answer, output) = ask_frame(
        code,
        env.call_output,
        enter,
        env.frame,
        site.pc,
        region.resume_pc,
        region.abi_kind,
        site.argc,
    );
    let ghost c5 = *code;
    expect_frame(code, env, api, region, site, answer);
    proof {
        assert forall|w: World|
            #![trigger code.at(w)]
            match old(code).at(w) {
                Status::Run(s) => {
                    let e = root_entry(*env, *api, *region, site, s, provenance@, w);
                    &&& progresses(code.at(w), s, old(code).len(), e.progress)
                    &&& e.progress.running ==> value(code.at(w), output) == e.output
                },
                st => code.at(w) == st,
            } by {
            let a1 = c1.at(w);
            let a2 = c2.at(w);
            let a3 = c3.at(w);
            let a4 = c4.at(w);
            let a5 = c5.at(w);
            if let Status::Run(s) = old(code).at(w) {
                let t2 = a2->Run_0;
                let callee = env.stack@[site.function_index()];
                let t1 = callee_reads(
                    *env.abi,
                    callee_of(*region),
                    t2.vars[callee.payload as int],
                    t2.vars[callee.tag as int],
                    t2.trace,
                    w,
                );
                deopt_depends_on_frame(
                    *env,
                    s,
                    t2,
                    t2.vars,
                    t1,
                    provenance@,
                    site.depth as nat,
                    site.pc,
                    site.guard,
                    w,
                );
                if let Status::Run(t3) = a3 {
                    same_own_flow(
                        pc_store(
                            spill(t3.trace, *env, t3, t3.vars, site.depth as nat),
                            *env.abi,
                            t3.vals[env.frame as int],
                            site.pc,
                            w,
                        ),
                        *env,
                        s,
                        t3,
                        provenance@,
                        site.depth as nat,
                        w,
                    );
                }
            }
        }
    }
    Ok(output)
}

/// The code enters the callee: control goes on in its frame, which `f` addresses.
pub open spec fn root_entered(
    f: InlineFrame<'_>,
    site: InlineSite,
    provenance: Seq<OptProvenance>,
    c1: Seq<Inst>,
    c2: Seq<Inst>,
) -> bool {
    let env = *f.root;
    let region = f.body();
    &&& c1.len() <= c2.len()
    &&& f.wf(c2.len() as int)
    &&& forall|w: World|
        match #[trigger] status(c1, w) {
            Status::Run(s) => {
                let e = root_entry(env, *f.api, region, site, s, provenance, w);
                if e.progress.running {
                    let o = opened(*env.abi, e.progress.trace, e.output, w);
                    let inner = InlineAddresses {
                        root: s.vals[env.frame as int],
                        sret: s.vals[env.sret as int],
                        frame: o.frame,
                        arguments: o.arguments,
                        locals: o.locals,
                        stack: o.stack,
                    };
                    let turn = admitted(
                        f,
                        inner,
                        s.vals[env.stack_base as int],
                        site.function_index(),
                        o.trace,
                        w,
                    );
                    if turn.end is On {
                        &&& runs_on(status(c2, w), s, c1.len() as int, e.progress.vars, turn.trace)
                        &&& f.addresses(status(c2, w)->Run_0) == inner
                    } else {
                        exits_with(status(c2, w), turn.trace)
                    }
                } else {
                    exits_with(status(c2, w), e.progress.trace)
                }
            },
            st => status(c2, w) == st,
        }
}

/// Behind the callee the function's own code must still be valid; then the
/// frame is read again.
pub open spec fn returned(env: OptEnv<'_>, api: InlineApi, guard: u32, s: State, depth: int, w: World) -> Progress {
    let abi = *env.abi;
    let frame = s.vals[env.frame as int];
    let sret = s.vals[env.sret as int];
    let answer = seen(s.trace, Ty::I32, w);
    let t1 = call_event(api.check->Some_0, seq![frame], s.trace, w);
    if answer == 0 {
        frame_reloaded(env, s, Progress { running: true, vars: s.vars, trace: t1 }, depth, w)
    } else if answer == api.guard_miss {
        Progress {
            running: false,
            vars: s.vars,
            trace: exit_record(
                read(t1, Ty::I64, frame + abi.pc, w),
                abi,
                sret,
                abi.exit_deopt,
                seen(t1, Ty::I64, w),
                guard,
            ),
        }
    } else {
        Progress { running: false, vars: s.vars, trace: exit_record(t1, abi, sret, abi.exit_exception, 0, 0) }
    }
}

pub open spec fn root_left(
    env: OptEnv<'_>,
    api: InlineApi,
    continuation: usize,
    guard: u32,
    depth: int,
    c1: Seq<Inst>,
    c2: Seq<Inst>,
) -> bool {
    c1.len() <= c2.len() && forall|w: World|
        match step(#[trigger] status(c1, w), Inst::Switch { block: continuation }, c1.len() as int, w) {
            Status::Run(s) => progresses(
                status(c2, w),
                s,
                (c1.len() + 1) as int,
                returned(env, api, guard, s, depth, w),
            ),
            st => status(c2, w) == st,
        }
}

/// Asks whether the function's own code is still valid.
fn recheck_root(code: &mut Code, env: &OptEnv<'_>, api: &InlineApi, check: u64, guard: u32)
    requires
        env.wf(old(code).len()),
    ensures
        kept(*old(code), *final(code)),
        env.typed(*old(code)) ==> steady(*old(code), *final(code)),
        final(code).len() > old(code).len(),
        forall|w: World|
            #![trigger final(code).at(w)]
            match old(code).at(w) {
                Status::Run(s) => {
                    let frame = s.vals[env.frame as int];
                    let sret = s.vals[env.sret as int];
                    let answer = seen(s.trace, Ty::I32, w);
                    let t1 = call_event(check, seq![frame], s.trace, w);
                    if answer == 0 {
                        runs_on(final(code).at(w), s, old(code).len(), s.vars, t1)
                    } else if answer == api.guard_miss {
                        exits_with(
                            final(code).at(w),
                            exit_record(
                                read(t1, Ty::I64, frame + env.abi.pc, w),
                                *env.abi,
                                sret,
                                env.abi.exit_deopt,
                                seen(t1, Ty::I64, w),
                                guard,
                            ),
                        )
                    } else {
                        exits_with(
                            final(code).at(w),
                            exit_record(t1, *env.abi, sret, env.abi.exit_exception, 0, 0),
                        )
                    }
                },
                st => final(code).at(w) == st,
            },
{
    let mut parameters: Vec<usize> = Vec::new();
    parameters.push(env.frame);
    let mut types: Vec<Ty> = Vec::new();
    types.push(Ty::I64);
    let ghost list = parameters@;
    let answer = runtime_call(code, check, parameters, types);
    let ghost c1 = *code;
    let okay = code.compare_imm(IntCc::Equal, Ty::I32, answer, 0);
    let valid = code.new_block();
    let invalid = code.new_block();
    code.branch(okay, valid, invalid);
    let _ = code.switch_to(invalid);
    let miss = code.compare_imm(IntCc::Equal, Ty::I32, answer, api.guard_miss);
    let retired = code.new_block();
    let malformed = code.new_block();
    code.branch(miss, retired, malformed);
    let ghost c2 = *code;
    let _ = code.switch_to(malformed);
    let ghost c3 = *code;
    emit_opt_exit(code, env, env.abi.exit_exception, None, 0);
    let ghost c4 = *code;
    let _ = code.switch_to(retired);
    let pc = code.load(Ty::I64, env.frame, env.abi.pc);
    let ghost c5 = *code;
    emit_opt_exit(code, env, env.abi.exit_deopt, Some(pc), guard);
    let ghost c6 = *code;
    let _ = code.switch_to(valid);
    proof {
        assert forall|w: World|
            #![trigger code.at(w)]
            match old(code).at(w) {
                Status::Run(s) => {
                    let frame = s.vals[env.frame as int];
                    let sret = s.vals[env.sret as int];
                    let answer = seen(s.trace, Ty::I32, w);
                    let t1 = call_event(check, seq![frame], s.trace, w);
                    if answer == 0 {
                        runs_on(code.at(w), s, old(code).len(), s.vars, t1)
                    } else if answer == api.guard_miss {
                        exits_with(
                            code.at(w),
                            exit_record(
                                read(t1, Ty::I64, frame + env.abi.pc, w),
                                *env.abi,
                                sret,
                                env.abi.exit_deopt,
                                seen(t1, Ty::I64, w),
                                guard,
                            ),
                        )
                    } else {
                        exits_with(
                            code.at(w),
                            exit_record(t1, *env.abi, sret, env.abi.exit_exception, 0, 0),
                        )
                    }
                },
                st => code.at(w) == st,
            } by {
            waits_for_known_blocks(old(code).insts@, w);
            let a1 = c1.at(w);
            let a2 = c2.at(w);
            let a3 = c3.at(w);
            let a4 = c4.at(w);
            let a5 = c5.at(w);
            let a6 = c6.at(w);
            if let Status::Run(s) = old(code).at(w) {
                assert(s.get(list) =~= seq![s.vals[env.frame as int]]);
            }
        }
    }
}

/// A call whose callee's bytecode is inlined.
#[verifier::opaque]
pub open spec fn inlined_call(
    env: OptEnv<'_>,
    api: InlineApi,
    regions: Seq<FrameRegion>,
    region: usize,
    site: InlineSite,
    provenance: Seq<OptProvenance>,
    c1: Seq<Inst>,
    c2: Seq<Inst>,
    f: InlineFrame<'_>,
) -> bool {
    &&& *f.root == env
    &&& *f.api == api
    &&& f.regions@ == regions
    &&& f.region == region
    &&& exists|continuation: usize, ca: Seq<Inst>, cb: Seq<Inst>|
        {
            &&& #[trigger] root_entered(f, site, provenance, c1, ca)
            &&& body_code(f, continuation, ca, cb)
            &&& #[trigger] root_left(
                env,
                api,
                continuation,
                regions[region as int].guard,
                site.base(regions[region as int]) + 1,
                cb,
                c2,
            )
        }
}

/// What the stack slots hold behind an inlined call: everything live is owned.
pub open spec fn provenance_after_inlining(provenance: Seq<OptProvenance>, depth: int) -> Seq<OptProvenance> {
    Seq::new(
        provenance.len(),
        |i: int|
            if i < depth {
                OptProvenance::OwnedSlot
            } else {
                OptProvenance::ImmediatePrimitive
            },
    )
}

fn own_everything(provenance: &mut Vec<OptProvenance>, depth: usize)
    ensures
        final(provenance)@ == provenance_after_inlining(old(provenance)@, depth as int),
{
    let ghost before = provenance@;
    let mut i: usize = 0;
    while i < provenance.len()
        invariant
            i <= provenance@.len(),
            provenance@.len() == before.len(),
            forall|k: int|
                0 <= k < i ==> #[trigger] provenance@[k] == provenance_after_inlining(before, depth as int)[k],
        decreases provenance@.len() - i,
    {
        provenance.set(
            i,
            if i < depth {
                OptProvenance::OwnedSlot
            } else {
                OptProvenance::ImmediatePrimitive
            },
        );
        i = i + 1;
    }
    assert(provenance@ =~= provenance_after_inlining(before, depth as int));
}

/// The runtime enters a frame, checks it and resumes it.
pub open spec fn frame_offered(o: Offers) -> bool {
    o.enter && o.check && o.resume
}

/// Enters the callee's frame; answers what addresses it, and the block behind it.
#[verifier::spinoff_prover]
#[verifier::rlimit(100)]
fn enter_frame(
    code: &mut Code,
    env: &OptEnv<'_>,
    api: &InlineApi,
    regions: &Vec<FrameRegion>,
    region: usize,
    site: InlineSite,
    provenance: &Vec<OptProvenance>,
) -> (r: Result<(InlineIds, usize), CompileFailure>)
    requires
        env.wf(old(code).len()),
        !env.int32_loop,
        site.depth <= env.stack@.len(),
        region < regions@.len(),
        site.base(regions@[region as int]) >= 0,
    ensures
        kept(*old(code), *final(code)),
        r is Ok && env.typed(*old(code)) ==> steady(*old(code), *final(code)),
        r matches Ok((ids, continuation)) ==> ids_held(*final(code), ids) && final(code).blocked(continuation) && final(code).unstarted(continuation as int) && old(code).len() <= continuation,
        r is Ok <==> stack_ownable(*env, provenance@, site.depth as int) && api.enter is Some && api.check is Some
            && api.resume is Some,
        r matches Err(e) ==> e == placed_failure(api.enter is Some, *env, provenance@, site.depth as int),
        r matches Ok((ids, continuation)) ==> continuation < final(code).len() && root_entered(
            (InlineFrame { root: env, api, regions, region, ids }),
            site,
            provenance@,
            old(code).insts@,
            final(code).insts@,
        ),
{
    proof {
        reveal(InlineFrame::typed);
    }
    let body = &regions[region];
    let output = match enter_root(code, env, api, body, site, provenance) {
        Ok(output) => output,
        Err(e) => {
            return Err(e);
        },
    };
    let ghost c1 = *code;
    let ids = open_frame(code, env.abi, output);
    let ghost c2 = *code;
    let frame = InlineFrame { root: env, api, regions, region, ids };
    let function: usize = site.depth - site.argc as usize - 1;
    if let Err(e) = frame.admit_frame(code, env.stack_base, function) {
        proof {
            own_failures(*env, provenance@, site.depth as int);
        }
        return Err(e);
    }
    let ghost c3 = *code;
    let continuation = code.new_block();
    let ghost c4 = *code;
    proof {
        assert(root_entered(frame, site, provenance@, old(code).insts@, c4.insts@)) by {
            assert forall|w: World|
                match #[trigger] status(old(code).insts@, w) {
                    Status::Run(s) => {
                        let e = root_entry(*env, *api, *body, site, s, provenance@, w);
                        if e.progress.running {
                            let o = opened(*env.abi, e.progress.trace, e.output, w);
                            let inner = InlineAddresses {
                                root: s.vals[env.frame as int],
                                sret: s.vals[env.sret as int],
                                frame: o.frame,
                                arguments: o.arguments,
                                locals: o.locals,
                                stack: o.stack,
                            };
                            let turn = admitted(
                                frame,
                                inner,
                                s.vals[env.stack_base as int],
                                site.function_index(),
                                o.trace,
                                w,
                            );
                            if turn.end is On {
                                &&& runs_on(
                                    status(c4.insts@, w),
                                    s,
                                    old(code).insts@.len() as int,
                                    e.progress.vars,
                                    turn.trace,
                                )
                                &&& frame.addresses(status(c4.insts@, w)->Run_0) == inner
                            } else {
                                exits_with(status(c4.insts@, w), turn.trace)
                            }
                        } else {
                            exits_with(status(c4.insts@, w), e.progress.trace)
                        }
                    },
                    st => status(c4.insts@, w) == st,
                } by {
                let a0 = old(code).at(w);
                let a1 = c1.at(w);
                let a2 = c2.at(w);
                let a3 = c3.at(w);
                let a4 = c4.at(w);
            }
        }
    }
    Ok((ids, continuation))
}

/// Goes on behind the callee's frame.
fn return_to_root(code: &mut Code, env: &OptEnv<'_>, api: &InlineApi, continuation: usize, guard: u32, depth: usize) -> (r: Result<
    (),
    CompileFailure,
>)
    requires
        env.wf(old(code).len()),
        depth <= env.stack@.len(),
    ensures
        kept(*old(code), *final(code)),
        r is Ok && env.typed(*old(code)) && old(code).unstarted(continuation as int)
            ==> begun(*old(code), *final(code), continuation),
        r is Ok <==> api.check is Some,
        r is Err ==> r == Err::<(), CompileFailure>(CompileFailure::InvalidArtifact),
        r is Ok ==> root_left(*env, *api, continuation, guard, depth as int, old(code).insts@, final(code).insts@),
{
    let check = match api.check {
        Some(check) => check,
        None => {
            return Err(CompileFailure::InvalidArtifact);
        },
    };
    let ghost c5 = *code;
    let _ = code.push(Inst::Switch { block: continuation });
    let ghost c6 = *code;
    // Leaving has consumed the callee's frame, and its cleanup may have run
    // other code: the function's own code is checked before it goes on.
    recheck_root(code, env, api, check, guard);
    let ghost c7 = *code;
    reload_frame(code, env, depth);
    proof {
        assert(root_left(*env, *api, continuation, guard, depth as int, c5.insts@, code.insts@)) by {
            assert forall|w: World|
                match step(
                    #[trigger] status(c5.insts@, w),
                    Inst::Switch { block: continuation },
                    c5.insts@.len() as int,
                    w,
                ) {
                    Status::Run(s) => progresses(
                        status(code.insts@, w),
                        s,
                        (c5.insts@.len() + 1) as int,
                        returned(*env, *api, guard, s, depth as int, w),
                    ),
                    st => status(code.insts@, w) == st,
                } by {
                let a5 = c5.at(w);
                let a6 = c6.at(w);
                let a7 = c7.at(w);
                let a8 = code.at(w);
                if let Status::Run(s) = a6 {
                    if let Status::Run(t) = a7 {
                        let p = Progress { running: true, vars: s.vars, trace: t.trace };
                        reloaded_from(*env, s, t, p, at_start(t), depth as int, w);
                        reloading_goes_on(*env, s, p, depth as int, w);
                    }
                }
            }
        }
    }
    Ok(())
}

proof fn loading_goes_on(p: Progress, base: int, slots: Seq<OptVars>, k: nat, w: World)
    requires
        p.running,
    ensures
        slots_loaded(p, base, slots, k, w).running,
{
}

proof fn reloading_goes_on(env: OptEnv<'_>, s: State, p: Progress, depth: int, w: World)
    requires
        p.running,
    ensures
        frame_reloaded(env, s, p, depth, w).running,
{
    loading_goes_on(p, s.vals[env.arg_buf as int], env.arguments@, env.arguments@.len(), w);
    let arguments = slots_loaded(p, s.vals[env.arg_buf as int], env.arguments@, env.arguments@.len(), w);
    loading_goes_on(arguments, s.vals[env.var_buf as int], env.locals@, env.locals@.len(), w);
    let locals = slots_loaded(arguments, s.vals[env.var_buf as int], env.locals@, env.locals@.len(), w);
    loading_goes_on(locals, s.vals[env.stack_base as int], env.stack@, depth as nat, w);
}

/// Emits the callee's own code between entering and leaving its frame.
/// Instructions without a native form and failed speculation resume the
/// callee, never the call. Answers the depth behind the call.
pub fn emit(
    code: &mut Code,
    env: &OptEnv<'_>,
    api: &InlineApi,
    regions: &Vec<FrameRegion>,
    region: usize,
    site: InlineSite,
    provenance: &mut Vec<OptProvenance>,
) -> (r: Result<usize, CompileFailure>)
    requires
        env.wf(old(code).len()),
        !env.int32_loop,
        site.depth <= env.stack@.len(),
        region < regions@.len(),
        regions_wf(regions@),
    ensures
        kept(*old(code), *final(code)),
        r is Ok && env.typed(*old(code)) ==> steady(*old(code), *final(code)),
        r matches Err(e) ==> e == placed_failure(
            site.fits(*env, regions@[region as int]) && api.enter is Some,
            *env,
            old(provenance)@,
            site.depth as int,
        ),
        r is Ok <==> site.fits(*env, regions@[region as int]) && stack_ownable(
            *env,
            old(provenance)@,
            site.depth as int,
        ) && frame_offered(offered(*env, *api)) && blocks_ok(offered(*env, *api), regions@, region as int, 0),
        r matches Ok(depth) ==> {
            &&& old(code).len() <= final(code).len()
            &&& depth == site.base(regions@[region as int]) + 1
            &&& final(provenance)@ == provenance_after_inlining(old(provenance)@, depth as int)
            &&& exists|f: InlineFrame<'_>| #[trigger]
                inlined_call(
                    *env,
                    *api,
                    regions@,
                    region,
                    site,
                    old(provenance)@,
                    old(code).insts@,
                    final(code).insts@,
                    f,
                )
        },
{
    proof {
        reveal(InlineFrame::typed);
    }
    proof {
        own_failures(*env, provenance@, site.depth as int);
    }
    let body = &regions[region];
    let operands: usize = site.argc as usize + 1 + if body.call_kind == InlineCallKind::Method {
        1
    } else {
        0
    };
    if site.depth < operands {
        return Err(CompileFailure::InvalidArtifact);
    }
    let base: usize = site.depth - operands;
    if body.blocks.len() == 0 || body.blocks.len() > MAX_INLINE_BLOCKS || body.call_node != site.node || body.call_pc
        != site.pc || body.shape.arguments as usize != env.arguments.len() || body.shape.locals as usize
        != env.locals.len() || body.shape.stack as usize != base + 1 {
        return Err(CompileFailure::InvalidArtifact);
    }
    let (ids, continuation) = match enter_frame(code, env, api, regions, region, site, provenance) {
        Ok(entered) => entered,
        Err(e) => {
            return Err(e);
        },
    };
    let ghost ca = code.insts@;
    let frame = InlineFrame { root: env, api, regions, region, ids };
    if let Err(e) = frame.emit_body(code, continuation) {
        return Err(e);
    }
    let ghost cb = code.insts@;
    if let Err(e) = return_to_root(code, env, api, continuation, body.guard, base + 1) {
        return Err(e);
    }
    own_everything(provenance, base + 1);
    proof {
        reveal(inlined_call);
        assert(root_entered(frame, site, old(provenance)@, old(code).insts@, ca));
        assert(body_code(frame, continuation, ca, cb));
        assert(root_left(*env, *api, continuation, body.guard, base + 1, cb, code.insts@));
        assert(inlined_call(
            *env,
            *api,
            regions@,
            region,
            site,
            old(provenance)@,
            old(code).insts@,
            code.insts@,
            frame,
        ));
    }
    Ok(base + 1)
}

/// Reading the frame again depends on its addresses, the variables and what
/// was observed alone.
proof fn reloaded_from(env: OptEnv<'_>, s: State, t: State, p: Progress, q: Progress, depth: int, w: World)
    requires
        t.vals[env.arg_buf as int] == s.vals[env.arg_buf as int],
        t.vals[env.var_buf as int] == s.vals[env.var_buf as int],
        t.vals[env.stack_base as int] == s.vals[env.stack_base as int],
        p == q,
    ensures
        frame_reloaded(env, s, p, depth, w) == frame_reloaded(env, t, q, depth, w),
{
}

} // verus!
