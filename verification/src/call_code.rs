//! Emitted calls: through the runtime, and directly into compiled code.
use crate::checks::read;
use crate::checks::seen;
use crate::code::binary_value;
use crate::code::value;
use crate::code::waits_for_known_blocks;
use crate::code::BinaryOp;
use crate::code::kept;
use crate::code::Code;
use crate::code::Event;
use crate::code::IntCc;
use crate::code::State;
use crate::code::Status;
use crate::code::Ty;
use crate::code::World;
use crate::control::CompileFailure;
use crate::exits::opt_own_stack_for_exit;
use crate::exits::own_flow;
use crate::exits::own_failure;
use crate::exits::own_failures;
use crate::exits::pc_store;
use crate::exits::same_own_flow;
use crate::exits::set_pc;
use crate::exits::spill;
use crate::exits::stack_ownable;
use crate::exits::store_slots;
use crate::frame::as_arguments;
use crate::frame::emit_opt_helper;
use crate::frame::exits_with;
use crate::frame::helper_flow;
use crate::frame::helper_known;
use crate::frame::opt_set_stack_top;
use crate::frame::runs_on;
use crate::frame::top_store;
use crate::frame::OptEnv;
use crate::helpers::alias_slots;
use crate::helpers::flat_stack_slot;
use crate::helpers::free_flow;
use crate::helpers::opt_release_materialized_aliases;
use crate::helpers::same_free;
use crate::lower_values::group_truths;
use crate::lower_values::opt_define;
use crate::lower_values::opt_load;
use crate::lower_values::opt_store;
use crate::lower_values::opt_use;
use crate::lower_values::pair_stores;
use crate::lower_values::undefined;
use crate::lower_values::vars_after;
use crate::provenance::OptProvenance;
use crate::qjs::JS_TAG_UNDEFINED;
use crate::typing::steady;
use crate::typing::closing;
use crate::typing::calm;
use crate::assemble::Known;
use crate::frame_typing::pair_held;
use crate::frame_typing::slot_named;
use crate::frame_typing::slots_named;
use crate::frame_typing::cached_named;
use crate::frame_typing::cache_named;
use crate::frame_typing::word_types;
use vstd::prelude::*;

verus! {

broadcast use {crate::typing::group_typing, crate::frame_typing::group_frame};

/// Whether control goes on, with these variables and observations.
pub struct Progress {
    pub running: bool,
    pub vars: Map<int, int>,
    pub trace: Seq<Event>,
}

pub open spec fn progresses(st: Status, s: State, n: int, p: Progress) -> bool {
    if p.running {
        runs_on(st, s, n, p.vars, p.trace)
    } else {
        exits_with(st, p.trace)
    }
}

pub open spec fn at_start(s: State) -> Progress {
    Progress { running: true, vars: s.vars, trace: s.trace }
}

/// A consumed value that owns nothing: its tag is not that of a reference, and
/// no flag of the frame asks that every value go through the runtime.
pub open spec fn owns_nothing(env: OptEnv<'_>, tag: int, trace: Seq<Event>, w: World) -> bool {
    tag >= 0 && binary_value(BinaryOp::And, Ty::I32, seen(trace, Ty::I32, w), env.abi.release_flags as int) == 0
}

/// Decides how a consumed value is cleaned up: control is at `primitive` where
/// it owns nothing, and at `release` otherwise.
pub fn emit_cleanup_dispatch(code: &mut Code, env: &OptEnv<'_>, tag: usize, primitive: usize, release: usize)
    requires
        env.wf(old(code).len()),
        tag < old(code).len(),
        primitive < old(code).len(),
        release < old(code).len(),
    ensures
        kept(*old(code), *final(code)),
        env.typed(*old(code)) && old(code).holds(tag, Ty::I64) && old(code).blocked(primitive)
            && old(code).blocked(release)
            ==> closing(*old(code), *final(code)),
        final(code).len() > old(code).len(),
        forall|w: World|
            #![trigger final(code).at(w)]
            match old(code).at(w) {
                Status::Run(s) => crate::checks::waits_at(
                    final(code).at(w),
                    s,
                    old(code).len(),
                    if owns_nothing(*env, s.vals[tag as int], s.trace, w) {
                        primitive
                    } else {
                        release
                    },
                    s.vars,
                    read(s.trace, Ty::I32, s.vals[env.frame as int] + env.abi.flags, w),
                ),
                st => final(code).at(w) == st,
            },
{
    broadcast use group_truths;

    let flags = code.load(Ty::I32, env.frame, env.abi.flags);
    let asked = code.binary_imm(BinaryOp::And, Ty::I32, flags, env.abi.release_flags);
    let unasked = code.compare_imm(IntCc::Equal, Ty::I32, asked, 0);
    let not_counted = code.compare_imm(IntCc::SignedGreaterThanOrEqual, Ty::I64, tag, 0);
    let both = code.binary(BinaryOp::And, Ty::I8, not_counted, unasked);
    code.branch(both, primitive, release);
}

/// The consumed value at a stack slot is cleaned up.
pub open spec fn slot_released(env: OptEnv<'_>, s: State, p: Progress, index: int, exception_depth: int, w: World) -> Progress {
    if !p.running {
        p
    } else {
        let base = s.vals[env.stack_base as int];
        let slot = env.stack@[index];
        let payload = seen(p.trace, Ty::I64, w);
        let t1 = read(p.trace, Ty::I64, base + index * 16, w);
        let tag = seen(t1, Ty::I64, w);
        let t2 = read(t1, Ty::I64, base + index * 16 + 8, w);
        let dispatched = read(t2, Ty::I32, s.vals[env.frame as int] + env.abi.flags, w);
        if owns_nothing(env, tag, t2, w) {
            Progress {
                running: true,
                vars: vars_after(p.vars, slot, 0, JS_TAG_UNDEFINED as int),
                trace: pair_stores(dispatched, base + index * 16, 0, JS_TAG_UNDEFINED as int),
            }
        } else {
            let freed = helper_flow(
                dispatched,
                env,
                s,
                exception_depth,
                env.abi.helper_free as int,
                as_arguments(seq![0, flat_stack_slot(env, index) as u32]),
                w,
            );
            if freed.running {
                let left = seen(freed.trace, Ty::I64, w);
                let t3 = read(freed.trace, Ty::I64, base + index * 16, w);
                let left_tag = seen(t3, Ty::I64, w);
                Progress {
                    running: true,
                    vars: vars_after(p.vars, slot, left, left_tag),
                    trace: read(t3, Ty::I64, base + index * 16 + 8, w),
                }
            } else {
                Progress { running: false, vars: p.vars, trace: freed.trace }
            }
        }
    }
}

fn release_slot(code: &mut Code, env: &OptEnv<'_>, index: usize, exception_depth: usize) -> (r: Result<(), CompileFailure>)
    requires
        env.wf(old(code).len()),
        index < env.stack@.len(),
        exception_depth <= crate::frame::MAX_SLOTS,
        !env.int32_loop,
    ensures
        kept(*old(code), *final(code)),
        r is Ok && env.typed(*old(code)) ==> steady(*old(code), *final(code)),
        r is Ok <==> helper_known(*env, env.abi.helper_free),
        r is Err ==> r == Err::<(), CompileFailure>(CompileFailure::InvalidArtifact),
        final(code).len() >= old(code).len(),
        r is Ok ==> forall|w: World|
            #![trigger final(code).at(w)]
            match old(code).at(w) {
                Status::Run(s) => progresses(
                    final(code).at(w),
                    s,
                    old(code).len(),
                    slot_released(*env, s, at_start(s), index as int, exception_depth as int, w),
                ),
                st => final(code).at(w) == st,
            },
{
    let primitive = code.new_block();
    let release = code.new_block();
    let cleaned = code.new_block();
    let consumed = opt_load(code, env.stack_base, index);
    let ghost c1 = *code;
    emit_cleanup_dispatch(code, env, consumed.tag, primitive, release);
    let ghost c2 = *code;
    let _ = code.switch_to(primitive);
    let ghost c3 = *code;
    let blank = undefined(code);
    let ghost c4 = *code;
    opt_store(code, env.stack_base, index, blank, Ty::I64);
    let ghost c5 = *code;
    opt_define(code, env.stack[index], blank);
    code.jump(cleaned);
    let _ = code.switch_to(release);
    let ghost c6 = *code;
    let slot: u32 = (env.arguments.len() + env.locals.len() + index) as u32;
    let mut arguments: Vec<u32> = Vec::new();
    arguments.push(0);
    arguments.push(slot);
    if let Err(e) = emit_opt_helper(code, env, exception_depth, env.abi.helper_free, &arguments) {
        return Err(e);
    }
    let ghost c7 = *code;
    let left = opt_load(code, env.stack_base, index);
    opt_define(code, env.stack[index], left);
    code.jump(cleaned);
    let _ = code.switch_to(cleaned);
    proof {
        assert(arguments@ =~= seq![0, flat_stack_slot(*env, index as int) as u32]);
        assert forall|w: World|
            #![trigger code.at(w)]
            match old(code).at(w) {
                Status::Run(s) => progresses(
                    code.at(w),
                    s,
                    old(code).len(),
                    slot_released(*env, s, at_start(s), index as int, exception_depth as int, w),
                ),
                st => code.at(w) == st,
            } by {
            waits_for_known_blocks(old(code).insts@, w);
            let a1 = c1.at(w);
            let a2 = c2.at(w);
            let a3 = c3.at(w);
            let a4 = c4.at(w);
            let a5 = c5.at(w);
            let a6 = c6.at(w);
            let a7 = c7.at(w);
        }
    }
    Ok(())
}

/// The consumed values at the slots are cleaned up in order.
pub open spec fn slots_released(
    env: OptEnv<'_>,
    s: State,
    p: Progress,
    indices: Seq<usize>,
    exception_depth: int,
    k: nat,
    w: World,
) -> Progress
    decreases k,
{
    if k == 0 {
        p
    } else {
        slot_released(
            env,
            s,
            slots_released(env, s, p, indices, exception_depth, (k - 1) as nat, w),
            indices[k - 1] as int,
            exception_depth,
            w,
        )
    }
}

proof fn same_slot_released(env: OptEnv<'_>, s: State, t: State, p: Progress, index: int, exception_depth: int, w: World)
    requires
        t.vals[env.frame as int] == s.vals[env.frame as int],
        t.vals[env.stack_base as int] == s.vals[env.stack_base as int],
        t.vals[env.sret as int] == s.vals[env.sret as int],
    ensures
        slot_released(env, s, p, index, exception_depth, w) == slot_released(env, t, p, index, exception_depth, w),
{
}

fn release_slots(code: &mut Code, env: &OptEnv<'_>, indices: &Vec<usize>, exception_depth: usize) -> (r: Result<
    (),
    CompileFailure,
>)
    requires
        env.wf(old(code).len()),
        forall|k: int| 0 <= k < indices@.len() ==> #[trigger] indices@[k] < env.stack@.len(),
        exception_depth <= crate::frame::MAX_SLOTS,
        !env.int32_loop,
        indices@.len() > 0,
    ensures
        kept(*old(code), *final(code)),
        r is Ok && env.typed(*old(code)) ==> steady(*old(code), *final(code)),
        r is Ok <==> helper_known(*env, env.abi.helper_free),
        r is Err ==> r == Err::<(), CompileFailure>(CompileFailure::InvalidArtifact),
        final(code).len() >= old(code).len(),
        r is Ok ==> forall|w: World|
            #![trigger final(code).at(w)]
            match old(code).at(w) {
                Status::Run(s) => progresses(
                    final(code).at(w),
                    s,
                    old(code).len(),
                    slots_released(
                        *env,
                        s,
                        at_start(s),
                        indices@,
                        exception_depth as int,
                        indices@.len(),
                        w,
                    ),
                ),
                st => final(code).at(w) == st,
            },
{
    let mut i: usize = 0;
    while i < indices.len()
        invariant
            kept(*old(code), *code),
            env.typed(*old(code)) ==> steady(*old(code), *code),
            env.typed(*old(code)) ==> env.typed(*code),
            i <= indices@.len(),
            env.wf(old(code).len()),
            forall|k: int| 0 <= k < indices@.len() ==> #[trigger] indices@[k] < env.stack@.len(),
            exception_depth <= crate::frame::MAX_SLOTS,
            !env.int32_loop,
            old(code).len() <= code.len(),
            i > 0 ==> helper_known(*env, env.abi.helper_free),
            forall|w: World|
                #![trigger code.at(w)]
                match old(code).at(w) {
                    Status::Run(s) => progresses(
                        code.at(w),
                        s,
                        old(code).len(),
                        slots_released(*env, s, at_start(s), indices@, exception_depth as int, i as nat, w),
                    ),
                    st => code.at(w) == st,
                },
        decreases indices@.len() - i,
    {
        let ghost before = *code;
        if let Err(e) = release_slot(code, env, indices[i], exception_depth) {
            return Err(e);
        }
        proof {
            assert forall|w: World|
                #![trigger code.at(w)]
                match old(code).at(w) {
                    Status::Run(s) => progresses(
                        code.at(w),
                        s,
                        old(code).len(),
                        slots_released(*env, s, at_start(s), indices@, exception_depth as int, (i + 1) as nat, w),
                    ),
                    st => code.at(w) == st,
                } by {
                let b = before.at(w);
                if let Status::Run(s) = old(code).at(w) {
                    if let Status::Run(t) = b {
                        same_slot_released(
                            *env,
                            s,
                            t,
                            at_start(t),
                            indices@[i as int] as int,
                            exception_depth as int,
                            w,
                        );
                    }
                }
            }
        }
        i = i + 1;
    }
    Ok(())
}

/// The slots from `from` to `to` become undefined, also in memory.
pub open spec fn slots_blanked(env: OptEnv<'_>, s: State, p: Progress, from: int, to: int) -> Progress
    decreases to - from,
{
    if to <= from {
        p
    } else {
        let before = slots_blanked(env, s, p, from, to - 1);
        Progress {
            running: true,
            vars: vars_after(before.vars, env.stack@[to - 1], 0, JS_TAG_UNDEFINED as int),
            trace: pair_stores(
                before.trace,
                s.vals[env.stack_base as int] + (to - 1) * 16,
                0,
                JS_TAG_UNDEFINED as int,
            ),
        }
    }
}

fn blank_slots(code: &mut Code, env: &OptEnv<'_>, from: usize, to: usize)
    requires
        env.wf(old(code).len()),
        from <= to <= env.stack@.len(),
        !env.int32_loop,
    ensures
        kept(*old(code), *final(code)),
        env.typed(*old(code)) ==> steady(*old(code), *final(code)),
        final(code).len() >= old(code).len(),
        forall|w: World|
            #![trigger final(code).at(w)]
            match old(code).at(w) {
                Status::Run(s) => {
                    let p = slots_blanked(*env, s, at_start(s), from as int, to as int);
                    runs_on(final(code).at(w), s, old(code).len(), p.vars, p.trace)
                },
                st => final(code).at(w) == st,
            },
{
    let blank = undefined(code);
    let ghost start = *code;
    let mut i: usize = from;
    while i < to
        invariant
            kept(*old(code), *code),
            env.typed(*old(code)) ==> steady(*old(code), *code),
            env.typed(*old(code)) ==> env.typed(*code),
            pair_held(*code, blank),
            from <= i <= to <= env.stack@.len(),
            env.wf(old(code).len()),
            old(code).len() <= start.len() <= code.len(),
            blank.payload < start.len(),
            blank.tag < start.len(),
            forall|w: World|
                #![trigger code.at(w)]
                match start.at(w) {
                    Status::Run(s) => s.vals[blank.payload as int] == 0 && s.vals[blank.tag as int] == JS_TAG_UNDEFINED ==> {
                        let p = slots_blanked(*env, s, at_start(s), from as int, i as int);
                        runs_on(code.at(w), s, start.len(), p.vars, p.trace)
                    },
                    st => code.at(w) == st,
                },
        decreases to - i,
    {
        let ghost before = *code;
        opt_define(code, env.stack[i], blank);
        let ghost defined = *code;
        opt_store(code, env.stack_base, i, blank, Ty::I64);
        proof {
            assert forall|w: World|
                #![trigger code.at(w)]
                match start.at(w) {
                    Status::Run(s) => s.vals[blank.payload as int] == 0 && s.vals[blank.tag as int] == JS_TAG_UNDEFINED ==> {
                        let p = slots_blanked(*env, s, at_start(s), from as int, i + 1);
                        runs_on(code.at(w), s, start.len(), p.vars, p.trace)
                    },
                    st => code.at(w) == st,
                } by {
                let b = before.at(w);
                let d = defined.at(w);
            }
        }
        i = i + 1;
    }
    proof {
        assert forall|w: World|
            #![trigger code.at(w)]
            match old(code).at(w) {
                Status::Run(s) => {
                    let p = slots_blanked(*env, s, at_start(s), from as int, to as int);
                    runs_on(code.at(w), s, old(code).len(), p.vars, p.trace)
                },
                st => code.at(w) == st,
            } by {
            let a = start.at(w);
            if let Status::Run(s) = old(code).at(w) {
                same_blanked(*env, s, a->Run_0, at_start(s), from as int, to as int);
            }
        }
    }
}

proof fn same_blanked(env: OptEnv<'_>, s: State, t: State, p: Progress, from: int, to: int)
    requires
        t.vals[env.stack_base as int] == s.vals[env.stack_base as int],
    ensures
        slots_blanked(env, s, p, from, to) == slots_blanked(env, t, p, from, to),
    decreases to - from,
{
    if to > from {
        same_blanked(env, s, t, p, from, to - 1);
    }
}

/// Owned values below the call are read again: the callee may have changed them.
pub open spec fn owned_reloaded(env: OptEnv<'_>, s: State, p: Progress, provenance: Seq<OptProvenance>, k: nat, w: World) -> Progress
    decreases k,
{
    if k == 0 {
        p
    } else {
        let before = owned_reloaded(env, s, p, provenance, (k - 1) as nat, w);
        if provenance[k - 1] == OptProvenance::OwnedSlot {
            let address = s.vals[env.stack_base as int] + (k - 1) * 16;
            let payload = seen(before.trace, Ty::I64, w);
            let t1 = read(before.trace, Ty::I64, address, w);
            let tag = seen(t1, Ty::I64, w);
            Progress {
                running: true,
                vars: vars_after(before.vars, env.stack@[k - 1], payload, tag),
                trace: read(t1, Ty::I64, address + 8, w),
            }
        } else {
            before
        }
    }
}

fn reload_owned(code: &mut Code, env: &OptEnv<'_>, provenance: &Vec<OptProvenance>, count: usize)
    requires
        env.wf(old(code).len()),
        count <= env.stack@.len(),
        count <= provenance@.len(),
    ensures
        kept(*old(code), *final(code)),
        env.typed(*old(code)) ==> steady(*old(code), *final(code)),
        final(code).len() >= old(code).len(),
        forall|w: World|
            #![trigger final(code).at(w)]
            match old(code).at(w) {
                Status::Run(s) => {
                    let p = owned_reloaded(*env, s, at_start(s), provenance@, count as nat, w);
                    runs_on(final(code).at(w), s, old(code).len(), p.vars, p.trace)
                },
                st => final(code).at(w) == st,
            },
{
    let mut i: usize = 0;
    while i < count
        invariant
            kept(*old(code), *code),
            env.typed(*old(code)) ==> steady(*old(code), *code),
            env.typed(*old(code)) ==> env.typed(*code),
            i <= count <= env.stack@.len(),
            count <= provenance@.len(),
            env.wf(old(code).len()),
            old(code).len() <= code.len(),
            forall|w: World|
                #![trigger code.at(w)]
                match old(code).at(w) {
                    Status::Run(s) => {
                        let p = owned_reloaded(*env, s, at_start(s), provenance@, i as nat, w);
                        runs_on(code.at(w), s, old(code).len(), p.vars, p.trace)
                    },
                    st => code.at(w) == st,
                },
        decreases count - i,
    {
        let ghost before = *code;
        if matches!(provenance[i], OptProvenance::OwnedSlot) {
            let pair = opt_load(code, env.stack_base, i);
            opt_define(code, env.stack[i], pair);
        }
        proof {
            assert forall|w: World|
                #![trigger code.at(w)]
                match old(code).at(w) {
                    Status::Run(s) => {
                        let p = owned_reloaded(*env, s, at_start(s), provenance@, (i + 1) as nat, w);
                        runs_on(code.at(w), s, old(code).len(), p.vars, p.trace)
                    },
                    st => code.at(w) == st,
                } by {
                let b = before.at(w);
            }
        }
        i = i + 1;
    }
}

/// Where the parts of a call stand on the operand stack.
#[derive(Clone, Copy, Debug, PartialEq, Eq, Structural)]
pub struct CallShape {
    pub argc: usize,
    pub has_this: bool,
    pub base: usize,
    pub depth: usize,
}

impl CallShape {
    pub open spec fn wf(&self, slots: int) -> bool {
        &&& self.depth == self.base + self.argc + 1 + (if self.has_this {
            1int
        } else {
            0int
        })
        &&& self.depth + 1 < slots
        &&& slots < crate::frame::MAX_SLOTS
    }

    pub open spec fn this_index(&self) -> int {
        if self.has_this {
            self.base as int
        } else {
            self.depth as int
        }
    }

    pub open spec fn function_index(&self) -> int {
        if self.has_this {
            self.base + 1
        } else {
            self.base as int
        }
    }

    pub open spec fn output_index(&self) -> int {
        if self.has_this {
            self.depth as int
        } else {
            self.depth + 1
        }
    }

    /// Where the value goes that the result replaces.
    pub open spec fn displaced_index(&self) -> int {
        if self.has_this {
            self.depth + 1
        } else {
            self.depth as int
        }
    }

    pub open spec fn words(&self, env: OptEnv<'_>) -> Seq<u32> {
        seq![
            0,
            flat_stack_slot(env, self.output_index()) as u32,
            flat_stack_slot(env, self.function_index()) as u32,
            flat_stack_slot(env, self.this_index()) as u32,
            if self.argc == 0 {
                u32::MAX
            } else {
                flat_stack_slot(env, self.function_index() + 1) as u32
            },
            self.argc as u32,
        ]
    }

    /// The slots whose values the call consumed.
    pub open spec fn consumed(&self) -> Seq<usize> {
        Seq::new(
            (self.depth - self.base) as nat,
            |k: int|
                if k == 0 {
                    self.displaced_index() as usize
                } else {
                    (self.base + k) as usize
                },
        )
    }
}

/// The runtime's call: the receiver of a plain call is undefined, the frame is
/// published, every operand is an owner, and the callee runs.
pub open spec fn called(
    env: OptEnv<'_>,
    s: State,
    shape: CallShape,
    provenance: Seq<OptProvenance>,
    pc: u32,
    w: World,
) -> Progress {
    let frame = s.vals[env.frame as int];
    let base = s.vals[env.stack_base as int];
    let with_this = if shape.has_this {
        s.vars
    } else {
        vars_after(s.vars, env.stack@[shape.this_index()], 0, JS_TAG_UNDEFINED as int)
    };
    let vars = vars_after(with_this, env.stack@[shape.output_index()], 0, JS_TAG_UNDEFINED as int);
    let spilled = spill(s.trace, env, s, vars, (shape.output_index() + 1) as nat);
    let at_pc = pc_store(top_store(spilled, *env.abi, frame, base, 0), *env.abi, frame, pc, w);
    let owned = own_flow(at_pc, env, s, provenance, shape.depth as nat, w);
    if !owned.running {
        Progress { running: false, vars, trace: owned.trace }
    } else {
        let flow = helper_flow(
            top_store(owned.trace, *env.abi, frame, base, shape.output_index() + 1),
            env,
            s,
            shape.depth as int,
            env.abi.helper_call as int,
            as_arguments(shape.words(env)),
            w,
        );
        Progress { running: flow.running, vars, trace: flow.trace }
    }
}

/// The result takes the place of the first operand, which is moved aside.
pub open spec fn result_moved(env: OptEnv<'_>, s: State, shape: CallShape, p: Progress, w: World) -> Progress {
    let frame = s.vals[env.frame as int];
    let base = s.vals[env.stack_base as int];
    let output = base + shape.output_index() * 16;
    let payload = seen(p.trace, Ty::I64, w);
    let t1 = read(p.trace, Ty::I64, output, w);
    let tag = seen(t1, Ty::I64, w);
    let t2 = read(t1, Ty::I64, output + 8, w);
    let first = env.stack@[shape.base as int];
    let dp = p.vars[first.payload as int];
    let dt = p.vars[first.tag as int];
    let t3 = pair_stores(t2, base + shape.displaced_index() * 16, dp, dt);
    let t4 = pair_stores(t3, base + shape.base * 16, payload, tag);
    Progress {
        running: true,
        vars: vars_after(vars_after(p.vars, env.stack@[shape.displaced_index()], dp, dt), first, payload, tag),
        trace: top_store(t4, *env.abi, frame, base, shape.depth + 2),
    }
}

/// Emits `called`.
#[verifier::rlimit(60)]
fn emit_call(
    code: &mut Code,
    env: &OptEnv<'_>,
    shape: CallShape,
    provenance: &Vec<OptProvenance>,
    pc: u32,
) -> (r: Result<(), CompileFailure>)
    requires
        env.wf(old(code).len()),
        shape.wf(env.stack@.len() as int),
        !env.int32_loop,
    ensures
        kept(*old(code), *final(code)),
        r is Ok && env.typed(*old(code)) ==> steady(*old(code), *final(code)),
        r is Ok <==> stack_ownable(*env, provenance@, shape.depth as int) && helper_known(*env, env.abi.helper_call),
        r matches Err(e) ==> e == own_failure(*env, provenance@, shape.depth as int),
        final(code).len() >= old(code).len(),
        r is Ok ==> forall|w: World|
            #![trigger final(code).at(w)]
            match old(code).at(w) {
                Status::Run(s) => progresses(
                    final(code).at(w),
                    s,
                    old(code).len(),
                    called(*env, s, shape, provenance@, pc, w),
                ),
                st => final(code).at(w) == st,
            },
{
    proof {
        own_failures(*env, provenance@, shape.depth as int);
    }
    let this_index: usize = if shape.has_this {
        shape.base
    } else {
        shape.depth
    };
    let function_index: usize = if shape.has_this {
        shape.base + 1
    } else {
        shape.base
    };
    let output_index: usize = if shape.has_this {
        shape.depth
    } else {
        shape.depth + 1
    };
    let blank = undefined(code);
    let ghost c1 = *code;
    if !shape.has_this {
        opt_define(code, env.stack[this_index], blank);
    }
    opt_define(code, env.stack[output_index], blank);
    let ghost c2 = *code;
    store_slots(code, env.arg_buf, env.arguments, env.arguments.len(), Ty::I64);
    let ghost c3 = *code;
    store_slots(code, env.var_buf, env.locals, env.locals.len(), Ty::I64);
    let ghost c4 = *code;
    store_slots(code, env.stack_base, env.stack, output_index + 1, Ty::I64);
    let ghost c5 = *code;
    opt_set_stack_top(code, env, 0);
    let ghost c6 = *code;
    let _ = set_pc(code, env, pc);
    let ghost c7 = *code;
    if let Err(e) = opt_own_stack_for_exit(code, env, shape.depth, provenance) {
        return Err(e);
    }
    let ghost c8 = *code;
    opt_set_stack_top(code, env, output_index + 1);
    let ghost c9 = *code;
    let flat: usize = env.arguments.len() + env.locals.len();
    let mut words: Vec<u32> = Vec::new();
    words.push(0);
    words.push((flat + output_index) as u32);
    words.push((flat + function_index) as u32);
    words.push((flat + this_index) as u32);
    words.push(
        if shape.argc == 0 {
            u32::MAX
        } else {
            (flat + function_index + 1) as u32
        },
    );
    words.push(shape.argc as u32);
    if let Err(e) = emit_opt_helper(code, env, shape.depth, env.abi.helper_call, &words) {
        return Err(e);
    }
    proof {
        assert(words@ =~= shape.words(*env));
        assert forall|w: World|
            #![trigger code.at(w)]
            match old(code).at(w) {
                Status::Run(s) => progresses(code.at(w), s, old(code).len(), called(*env, s, shape, provenance@, pc, w)),
                st => code.at(w) == st,
            } by {
            let a1 = c1.at(w);
            let a2 = c2.at(w);
            let a3 = c3.at(w);
            let a4 = c4.at(w);
            let a5 = c5.at(w);
            let a6 = c6.at(w);
            let a7 = c7.at(w);
            let a8 = c8.at(w);
            let a9 = c9.at(w);
            if let Status::Run(s) = old(code).at(w) {
                same_own_flow(a7->Run_0.trace, *env, s, a7->Run_0, provenance@, shape.depth as nat, w);
            }
        }
    }
    Ok(())
}

/// Emits `result_moved`.
#[verifier::rlimit(40)]
fn move_result(code: &mut Code, env: &OptEnv<'_>, shape: CallShape)
    requires
        env.wf(old(code).len()),
        shape.wf(env.stack@.len() as int),
        !env.int32_loop,
    ensures
        kept(*old(code), *final(code)),
        env.typed(*old(code)) ==> steady(*old(code), *final(code)),
        final(code).len() >= old(code).len(),
        forall|w: World|
            #![trigger final(code).at(w)]
            match old(code).at(w) {
                Status::Run(s) => {
                    let p = result_moved(*env, s, shape, at_start(s), w);
                    runs_on(final(code).at(w), s, old(code).len(), p.vars, p.trace)
                },
                st => final(code).at(w) == st,
            },
{
    let output_index: usize = if shape.has_this {
        shape.depth
    } else {
        shape.depth + 1
    };
    let displaced_index: usize = if shape.has_this {
        shape.depth + 1
    } else {
        shape.depth
    };
    let result = opt_load(code, env.stack_base, output_index);
    let displaced = opt_use(code, env.stack[shape.base], Ty::I64);
    opt_define(code, env.stack[displaced_index], displaced);
    let ghost c1 = *code;
    opt_store(code, env.stack_base, displaced_index, displaced, Ty::I64);
    let ghost c2 = *code;
    opt_define(code, env.stack[shape.base], result);
    let ghost c3 = *code;
    opt_store(code, env.stack_base, shape.base, result, Ty::I64);
    let ghost c4 = *code;
    opt_set_stack_top(code, env, shape.depth + 2);
    proof {
        assert forall|w: World|
            #![trigger code.at(w)]
            match old(code).at(w) {
                Status::Run(s) => {
                    let p = result_moved(*env, s, shape, at_start(s), w);
                    runs_on(code.at(w), s, old(code).len(), p.vars, p.trace)
                },
                st => code.at(w) == st,
            } by {
            let a1 = c1.at(w);
            let a2 = c2.at(w);
            let a3 = c3.at(w);
            let a4 = c4.at(w);
        }
    }
}

proof fn same_slots_released(
    env: OptEnv<'_>,
    s: State,
    t: State,
    p: Progress,
    indices: Seq<usize>,
    exception_depth: int,
    k: nat,
    w: World,
)
    requires
        t.vals[env.frame as int] == s.vals[env.frame as int],
        t.vals[env.stack_base as int] == s.vals[env.stack_base as int],
        t.vals[env.sret as int] == s.vals[env.sret as int],
    ensures
        slots_released(env, s, p, indices, exception_depth, k, w) == slots_released(
            env,
            t,
            p,
            indices,
            exception_depth,
            k,
            w,
        ),
    decreases k,
{
    if k > 0 {
        same_slots_released(env, s, t, p, indices, exception_depth, (k - 1) as nat, w);
        same_slot_released(
            env,
            s,
            t,
            slots_released(env, s, p, indices, exception_depth, (k - 1) as nat, w),
            indices[k - 1] as int,
            exception_depth,
            w,
        );
    }
}

proof fn same_reloaded(env: OptEnv<'_>, s: State, t: State, p: Progress, provenance: Seq<OptProvenance>, k: nat, w: World)
    requires
        t.vals[env.stack_base as int] == s.vals[env.stack_base as int],
    ensures
        owned_reloaded(env, s, p, provenance, k, w) == owned_reloaded(env, t, p, provenance, k, w),
    decreases k,
{
    if k > 0 {
        same_reloaded(env, s, t, p, provenance, (k - 1) as nat, w);
    }
}

/// What happens behind the runtime's call: the result is in place, the
/// operands are cleaned up, and only what lies below is live.
pub open spec fn settled(
    env: OptEnv<'_>,
    s: State,
    shape: CallShape,
    provenance: Seq<OptProvenance>,
    p: Progress,
    w: World,
) -> Progress {
    let moved = result_moved(env, s, shape, p, w);
    let released = slots_released(env, s, moved, shape.consumed(), shape.depth + 2, shape.consumed().len(), w);
    if !released.running {
        released
    } else {
        let blank = slots_blanked(env, s, released, shape.base + 1, shape.output_index() + 1);
        let loaded = owned_reloaded(env, s, blank, provenance, shape.base as nat, w);
        let freed = free_flow(
            loaded.trace,
            env,
            s,
            alias_slots(env, provenance, 0, shape.base as int),
            shape.depth + 2,
            w,
        );
        Progress {
            running: freed.running,
            vars: loaded.vars,
            trace: if freed.running {
                top_store(
                    freed.trace,
                    *env.abi,
                    s.vals[env.frame as int],
                    s.vals[env.stack_base as int],
                    shape.base + 1,
                )
            } else {
                freed.trace
            },
        }
    }
}

/// A call through the runtime.
pub open spec fn generic_call(
    env: OptEnv<'_>,
    s: State,
    shape: CallShape,
    provenance: Seq<OptProvenance>,
    pc: u32,
    w: World,
) -> Progress {
    let p = called(env, s, shape, provenance, pc, w);
    if p.running {
        settled(env, s, shape, provenance, p, w)
    } else {
        p
    }
}

fn consumed_slots(shape: CallShape) -> (r: Vec<usize>)
    requires
        shape.depth < crate::frame::MAX_SLOTS,
        shape.base < shape.depth,
    ensures
        r@ == shape.consumed(),
{
    let mut slots: Vec<usize> = Vec::new();
    slots.push(
        if shape.has_this {
            shape.depth + 1
        } else {
            shape.depth
        },
    );
    let mut i: usize = shape.base + 1;
    while i < shape.depth
        invariant
            shape.base < i <= shape.depth,
            slots@ == shape.consumed().take(i - shape.base),
        decreases shape.depth - i,
    {
        slots.push(i);
        i = i + 1;
    }
    slots
}

/// Emits `settled`.
#[verifier::rlimit(60)]
fn settle_call(code: &mut Code, env: &OptEnv<'_>, shape: CallShape, provenance: &Vec<OptProvenance>) -> (r: Result<
    (),
    CompileFailure,
>)
    requires
        env.wf(old(code).len()),
        shape.wf(env.stack@.len() as int),
        !env.int32_loop,
        shape.base <= provenance@.len(),
    ensures
        kept(*old(code), *final(code)),
        r is Ok && env.typed(*old(code)) ==> steady(*old(code), *final(code)),
        r is Ok <==> helper_known(*env, env.abi.helper_free),
        r is Err ==> r == Err::<(), CompileFailure>(CompileFailure::InvalidArtifact),
        final(code).len() >= old(code).len(),
        r is Ok ==> forall|w: World|
            #![trigger final(code).at(w)]
            match old(code).at(w) {
                Status::Run(s) => progresses(
                    final(code).at(w),
                    s,
                    old(code).len(),
                    settled(*env, s, shape, provenance@, at_start(s), w),
                ),
                st => final(code).at(w) == st,
            },
{
    move_result(code, env, shape);
    let ghost c1 = *code;
    let slots = consumed_slots(shape);
    if let Err(e) = release_slots(code, env, &slots, shape.depth + 2) {
        return Err(e);
    }
    let ghost c2 = *code;
    let output_index: usize = if shape.has_this {
        shape.depth
    } else {
        shape.depth + 1
    };
    blank_slots(code, env, shape.base + 1, output_index + 1);
    let ghost c3 = *code;
    reload_owned(code, env, provenance, shape.base);
    let ghost c4 = *code;
    if let Err(e) = opt_release_materialized_aliases(code, env, provenance, 0, shape.base, shape.depth + 2) {
        return Err(e);
    }
    let ghost c5 = *code;
    opt_set_stack_top(code, env, shape.base + 1);
    proof {
        assert forall|w: World|
            #![trigger code.at(w)]
            match old(code).at(w) {
                Status::Run(s) => progresses(
                    code.at(w),
                    s,
                    old(code).len(),
                    settled(*env, s, shape, provenance@, at_start(s), w),
                ),
                st => code.at(w) == st,
            } by {
            let a1 = c1.at(w);
            let a2 = c2.at(w);
            let a3 = c3.at(w);
            let a4 = c4.at(w);
            let a5 = c5.at(w);
            if let Status::Run(s) = old(code).at(w) {
                let t1 = a1->Run_0;
                same_slots_released(
                    *env,
                    s,
                    t1,
                    at_start(t1),
                    shape.consumed(),
                    shape.depth + 2,
                    shape.consumed().len(),
                    w,
                );
                if let Status::Run(t2) = a2 {
                    same_blanked(*env, s, t2, at_start(t2), shape.base + 1, shape.output_index() + 1);
                    let t3 = a3->Run_0;
                    same_reloaded(*env, s, t3, at_start(t3), provenance@, shape.base as nat, w);
                    let t4 = a4->Run_0;
                    same_free(
                        t4.trace,
                        *env,
                        s,
                        t4,
                        alias_slots(*env, provenance@, 0, shape.base as int),
                        shape.depth + 2,
                        w,
                    );
                }
            }
        }
    }
    Ok(())
}

/// Emits a call through the runtime.
pub(crate) fn emit_generic_call(
    code: &mut Code,
    env: &OptEnv<'_>,
    shape: CallShape,
    provenance: &Vec<OptProvenance>,
    pc: u32,
) -> (r: Result<(), CompileFailure>)
    requires
        env.wf(old(code).len()),
        shape.wf(env.stack@.len() as int),
        !env.int32_loop,
        shape.depth <= provenance@.len(),
    ensures
        kept(*old(code), *final(code)),
        r is Ok && env.typed(*old(code)) ==> steady(*old(code), *final(code)),
        r is Ok <==> stack_ownable(*env, provenance@, shape.depth as int) && helper_known(*env, env.abi.helper_call)
            && helper_known(*env, env.abi.helper_free),
        r matches Err(e) ==> e == own_failure(*env, provenance@, shape.depth as int),
        final(code).len() >= old(code).len(),
        r is Ok ==> forall|w: World|
            #![trigger final(code).at(w)]
            match old(code).at(w) {
                Status::Run(s) => progresses(
                    final(code).at(w),
                    s,
                    old(code).len(),
                    generic_call(*env, s, shape, provenance@, pc, w),
                ),
                st => final(code).at(w) == st,
            },
{
    proof {
        own_failures(*env, provenance@, shape.depth as int);
    }
    if let Err(e) = emit_call(code, env, shape, provenance, pc) {
        return Err(e);
    }
    let ghost c1 = *code;
    if let Err(e) = settle_call(code, env, shape, provenance) {
        return Err(e);
    }
    proof {
        assert forall|w: World|
            #![trigger code.at(w)]
            match old(code).at(w) {
                Status::Run(s) => progresses(
                    code.at(w),
                    s,
                    old(code).len(),
                    generic_call(*env, s, shape, provenance@, pc, w),
                ),
                st => code.at(w) == st,
            } by {
            let a1 = c1.at(w);
            if let Status::Run(s) = old(code).at(w) {
                if let Status::Run(t) = a1 {
                    same_settled(*env, s, t, shape, provenance@, at_start(t), w);
                }
            }
        }
    }
    Ok(())
}

proof fn same_settled(
    env: OptEnv<'_>,
    s: State,
    t: State,
    shape: CallShape,
    provenance: Seq<OptProvenance>,
    p: Progress,
    w: World,
)
    requires
        t.vals[env.frame as int] == s.vals[env.frame as int],
        t.vals[env.stack_base as int] == s.vals[env.stack_base as int],
        t.vals[env.sret as int] == s.vals[env.sret as int],
    ensures
        settled(env, s, shape, provenance, p, w) == settled(env, t, shape, provenance, p, w),
{
    let moved = result_moved(env, s, shape, p, w);
    same_slots_released(env, s, t, moved, shape.consumed(), shape.depth + 2, shape.consumed().len(), w);
    let released = slots_released(env, s, moved, shape.consumed(), shape.depth + 2, shape.consumed().len(), w);
    same_blanked(env, s, t, released, shape.base + 1, shape.output_index() + 1);
    let blank = slots_blanked(env, s, released, shape.base + 1, shape.output_index() + 1);
    same_reloaded(env, s, t, blank, provenance, shape.base as nat, w);
    let loaded = owned_reloaded(env, s, blank, provenance, shape.base as nat, w);
    same_free(loaded.trace, env, s, t, alias_slots(env, provenance, 0, shape.base as int), shape.depth + 2, w);
}

} // verus!
