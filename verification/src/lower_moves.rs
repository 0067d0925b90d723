//! Lowering of the opcodes that move values: constants, reads and writes of
//! frame slots, and stack shuffles.
use crate::code::truth;
use crate::code::value;
use crate::code::wrap;
use crate::code::BinaryOp;
use crate::code::kept;
use crate::code::Code;
use crate::code::State;
use crate::code::Status;
use crate::code::Ty;
use crate::code::World;
use crate::control::CompileFailure;
use crate::exits::deopt_trace;
use crate::exits::placed_failure;
use crate::exits::stack_ownable;
use crate::frame::as_arguments;
use crate::frame::exits_with;
use crate::frame::helper_flow;
use crate::frame::helper_known;
use crate::frame::opt_set_stack_top;
use crate::frame::runs_on;
use crate::frame::top_store;
use crate::frame::Flow;
use crate::frame::OptEnv;
use crate::helpers::emit_opt_alias_store_guard;
use crate::helpers::emit_opt_free_local_slot;
use crate::ir::StackShuffle;
use crate::lower_values::opt_bool_pair;
use crate::lower_values::opt_define;
use crate::lower_values::opt_store;
use crate::lower_values::opt_tag_is;
use crate::lower_values::opt_use;
use crate::lower_values::pair_stores;
use crate::lower_values::undefined;
use crate::lower_values::vars_after;
use crate::lower_values::OptPair;
use crate::lower_values::OptVars;
use crate::lowering::assigns;
use crate::lowering::copies;
use crate::lowering::holds_value;
use crate::lowering::LowerState;
use crate::lowering::Lowered;
use crate::ownership::alias_store;
use crate::ownership::invalidated;
use crate::ownership::opt_invalidate_provenance;
use crate::ownership::opt_reject_owned;
use crate::ownership::AliasStore;
use crate::provenance::OptProvenance;
use crate::qjs::JS_TAG_BOOL;
use crate::qjs::JS_TAG_UNDEFINED;
use crate::specialization::NumericSpecialization;
use crate::typing::steady;
use crate::typing::closing;
use crate::typing::calm;
use crate::assemble::Known;
use crate::frame_typing::pair_held;
use crate::frame_typing::slot_named;
use crate::frame_typing::slots_named;
use crate::frame_typing::cached_named;
use crate::frame_typing::cache_named;
use crate::frame_typing::state_held;
use vstd::prelude::*;

verus! {

broadcast use {
    crate::typing::group_typing,
    crate::frame_typing::group_frame,
    vstd::std_specs::btree::group_btree_axioms,
    crate::exits::own_failures,
};

/// A constant is pushed; where a node is named its value stays at hand.
pub open spec fn constant_pushed(
    env: OptEnv<'_>,
    node: Option<u32>,
    payload_type: Ty,
    payload: int,
    tag: int,
    a: Code,
    m: Lowered,
    b: Code,
    m2: Lowered,
) -> bool {
    &&& a.len() <= b.len()
    &&& match node {
        Some(id) => m2.reusable.contains_key(id) && m2 == m.push(OptProvenance::ImmediatePrimitive).remember(id, m2.reusable[id])
            && forall|w: World|
            #![trigger b.at(w)]
            a.at(w) is Run ==> holds_value(b.at(w), m2.reusable[id], wrap(payload_type, payload), tag),
        None => m2 == m.push(OptProvenance::ImmediatePrimitive),
    }
    &&& forall|w: World|
        #![trigger b.at(w)]
        assigns(a.at(w), b.at(w), a.len(), env.stack@[m.depth], wrap(payload_type, payload), tag)
}

/// Pushes a constant.
pub fn lower_constant(
    code: &mut Code,
    env: &OptEnv<'_>,
    ls: &mut LowerState,
    node: Option<u32>,
    payload_type: Ty,
    payload: i64,
    tag: i64,
) -> (r: Result<(), CompileFailure>)
    requires
        env.wf(old(code).len()),
        old(ls)@.wf(*env, old(code).len()),
    ensures
        kept(*old(code), *final(code)),
        r is Ok && env.typed(*old(code)) && state_held(*old(code), *old(ls)) && payload_type == Ty::I64
            ==> steady(*old(code), *final(code)),
        r is Ok && env.typed(*old(code)) && state_held(*old(code), *old(ls)) && payload_type == Ty::I64
            ==> state_held(*final(code), *final(ls)),
        r is Ok <==> old(ls)@.depth < env.stack@.len(),
        r is Err ==> r == Err::<(), CompileFailure>(CompileFailure::InvalidArtifact),
        r is Ok ==> final(ls)@.wf(*env, final(code).len()) && constant_pushed(
            *env,
            node,
            payload_type,
            payload as int,
            tag as int,
            *old(code),
            old(ls)@,
            *final(code),
            final(ls)@,
        ),
{
    if ls.depth >= env.stack.len() {
        return Err(CompileFailure::InvalidArtifact);
    }
    let ghost c0 = *code;
    let held = code.iconst(payload_type, payload);
    let ghost c1 = *code;
    let kind = code.iconst(Ty::I64, tag);
    let ghost c2 = *code;
    let pair = OptPair { payload: held, tag: kind };
    opt_define(code, env.stack[ls.depth], pair);
    ls.provenance[ls.depth] = OptProvenance::ImmediatePrimitive;
    ls.depth = ls.depth + 1;
    if let Some(id) = node {
        ls.reusable.insert(id, pair);
    }
    proof {
        assert forall|w: World|
            #![trigger code.at(w)]
            assigns(c0.at(w), code.at(w), c0.len(), env.stack@[old(ls)@.depth], wrap(payload_type, payload as int), tag as int)
                && (c0.at(w) is Run ==> holds_value(code.at(w), pair, wrap(payload_type, payload as int), tag as int)) by {
            let a = c1.at(w);
            let b = c2.at(w);
        }
    }
    Ok(())
}

/// The slot is pushed as a copy.
pub open spec fn slot_pushed(env: OptEnv<'_>, from: OptVars, provenance: OptProvenance, a: Code, m: Lowered, b: Code, m2: Lowered) -> bool {
    &&& a.len() <= b.len()
    &&& m2 == m.push(provenance)
    &&& forall|w: World| #![trigger b.at(w)] copies(a.at(w), b.at(w), a.len(), env.stack@[m.depth], from)
}

/// Pushes a copy of an argument or a local.
pub fn lower_read(code: &mut Code, env: &OptEnv<'_>, ls: &mut LowerState, from: OptVars, provenance: OptProvenance) -> (r: Result<
    (),
    CompileFailure,
>)
    requires
        env.wf(old(code).len()),
        old(ls)@.wf(*env, old(code).len()),
    ensures
        kept(*old(code), *final(code)),
        r is Ok && env.typed(*old(code)) && state_held(*old(code), *old(ls))
            && slot_named(*old(code), from, Ty::I64)
            ==> steady(*old(code), *final(code)),
        r is Ok && env.typed(*old(code)) && state_held(*old(code), *old(ls))
            && slot_named(*old(code), from, Ty::I64)
            ==> state_held(*final(code), *final(ls)),
        r is Ok <==> old(ls)@.depth < env.stack@.len(),
        r is Err ==> r == Err::<(), CompileFailure>(CompileFailure::InvalidArtifact),
        r is Ok ==> final(ls)@.wf(*env, final(code).len()) && slot_pushed(
            *env,
            from,
            provenance,
            *old(code),
            old(ls)@,
            *final(code),
            final(ls)@,
        ),
{
    if ls.depth >= env.stack.len() {
        return Err(CompileFailure::InvalidArtifact);
    }
    let ghost c0 = *code;
    let pair = opt_use(code, from, env.payload_type);
    let ghost c1 = *code;
    opt_define(code, env.stack[ls.depth], pair);
    ls.provenance[ls.depth] = provenance;
    ls.depth = ls.depth + 1;
    proof {
        assert forall|w: World|
            #![trigger code.at(w)]
            copies(c0.at(w), code.at(w), c0.len(), env.stack@[old(ls)@.depth], from) by {
            let a = c1.at(w);
        }
    }
    Ok(())
}

/// The value of an earlier node is pushed again.
pub open spec fn reused(env: OptEnv<'_>, node: u32, source: u32, pops: int, a: Code, m: Lowered, b: Code, m2: Lowered) -> bool {
    let pair = m.reusable[source];
    &&& a.len() <= b.len()
    &&& m2 == m.pop(pops).push(OptProvenance::ImmediatePrimitive).remember(node, pair)
    &&& forall|w: World|
        #![trigger b.at(w)]
        match a.at(w) {
            Status::Run(s) => assigns(
                a.at(w),
                b.at(w),
                a.len(),
                env.stack@[m.depth - pops],
                s.vals[pair.payload as int],
                s.vals[pair.tag as int],
            ),
            st => b.at(w) == st,
        }
}

pub open spec fn reuse_ready(env: OptEnv<'_>, source: u32, pops: int, m: Lowered) -> bool {
    m.depth >= pops && m.depth - pops < env.stack@.len() && m.reusable.contains_key(source)
}

/// Pushes what an earlier node computed in place of what the node pops.
pub fn lower_reuse(code: &mut Code, env: &OptEnv<'_>, ls: &mut LowerState, node: u32, source: u32, pops: usize) -> (r: Result<
    (),
    CompileFailure,
>)
    requires
        env.wf(old(code).len()),
        old(ls)@.wf(*env, old(code).len()),
    ensures
        kept(*old(code), *final(code)),
        r is Ok && env.typed(*old(code)) && state_held(*old(code), *old(ls)) ==> steady(*old(code), *final(code)),
        r is Ok && env.typed(*old(code)) && state_held(*old(code), *old(ls)) ==> state_held(*final(code), *final(ls)),
        r is Ok <==> reuse_ready(*env, source, pops as int, old(ls)@),
        r is Err ==> r == Err::<(), CompileFailure>(CompileFailure::InvalidArtifact),
        r is Ok ==> final(ls)@.wf(*env, final(code).len()) && reused(
            *env,
            node,
            source,
            pops as int,
            *old(code),
            old(ls)@,
            *final(code),
            final(ls)@,
        ),
{
    if ls.depth < pops || ls.depth - pops >= env.stack.len() {
        return Err(CompileFailure::InvalidArtifact);
    }
    let pair = match ls.reusable.get(&source) {
        Some(pair) => *pair,
        None => {
            return Err(CompileFailure::InvalidArtifact);
        },
    };
    let at: usize = ls.depth - pops;
    opt_define(code, env.stack[at], pair);
    ls.provenance[at] = OptProvenance::ImmediatePrimitive;
    ls.depth = at + 1;
    ls.reusable.insert(node, pair);
    Ok(())
}

/// A frame slot that is written: its variables, its buffer and place there,
/// whether what it owned is released first, and whether the buffer is written.
#[derive(Clone, Copy, Debug, PartialEq, Eq, Structural)]
pub struct Destination {
    pub slot: OptVars,
    pub buffer: usize,
    pub index: usize,
    pub provenance: OptProvenance,
    pub release: bool,
    pub publish: bool,
}

impl Destination {
    pub open spec fn wf(self, env: OptEnv<'_>, n: int) -> bool {
        &&& self.buffer < n
        &&& self.index < crate::frame::MAX_SLOTS
        &&& self.release ==> self.index < env.locals@.len() && self.slot == env.locals@[self.index as int]
    }
}

/// The release of what a local owns.
pub open spec fn release_flow(env: OptEnv<'_>, s: State, index: int, w: World) -> Flow {
    helper_flow(
        pair_stores(
            s.trace,
            s.vals[env.var_buf as int] + index * 16,
            s.vars[env.locals@[index].payload as int],
            s.vars[env.locals@[index].tag as int],
        ),
        env,
        s,
        0,
        env.abi.helper_free as int,
        as_arguments(seq![0, (env.arguments@.len() + index) as u32]),
        w,
    )
}

/// The slot takes the value at the stack index `top`; where the stack slot
/// owned it, the stack slot is cleared.
pub open spec fn store_post(
    env: OptEnv<'_>,
    st: Status,
    st2: Status,
    n: int,
    to: Destination,
    checked: bool,
    provenance: Seq<OptProvenance>,
    depth: int,
    pc: u32,
    guard: Option<u32>,
    w: World,
) -> bool {
    match st {
        Status::Run(s) => {
            let top = depth - 1;
            let payload = s.vars[env.stack@[top].payload as int];
            let tag = s.vars[env.stack@[top].tag as int];
            let stack_base = s.vals[env.stack_base as int];
            if checked && tag < 0 {
                exits_with(
                    st2,
                    deopt_trace(env, s, s.vars, s.trace, provenance, depth as nat, pc, guard->Some_0, w),
                )
            } else {
                let freed = if to.release {
                    release_flow(env, s, to.index as int, w)
                } else {
                    Flow { running: true, trace: s.trace }
                };
                let defined = vars_after(s.vars, to.slot, payload, tag);
                let written = if to.publish {
                    pair_stores(freed.trace, s.vals[to.buffer as int] + to.index * 16, payload, tag)
                } else {
                    freed.trace
                };
                if !freed.running {
                    exits_with(st2, freed.trace)
                } else if provenance[top] == OptProvenance::OwnedSlot {
                    runs_on(
                        st2,
                        s,
                        n,
                        vars_after(defined, env.stack@[top], 0, JS_TAG_UNDEFINED as int),
                        top_store(
                            pair_stores(written, stack_base + top * 16, 0, JS_TAG_UNDEFINED as int),
                            *env.abi,
                            s.vals[env.frame as int],
                            stack_base,
                            top,
                        ),
                    )
                } else {
                    runs_on(st2, s, n, defined, written)
                }
            }
        },
        st => st2 == st,
    }
}

pub open spec fn alias_kind(
    env: OptEnv<'_>,
    specialization: NumericSpecialization,
    source: OptProvenance,
    destination: OptProvenance,
) -> AliasStore {
    if env.int32_loop {
        AliasStore::Safe
    } else {
        alias_store(specialization, env.arguments@.len() as int, source, destination)
    }
}

/// A local that a stack slot names is one that a frame can have.
pub open spec fn names_slot(provenance: OptProvenance) -> bool {
    provenance matches OptProvenance::Local(slot) ==> slot < crate::frame::MAX_SLOTS
}

pub open spec fn store_ready(
    env: OptEnv<'_>,
    specialization: NumericSpecialization,
    to: Destination,
    moves: bool,
    guard: Option<u32>,
    m: Lowered,
) -> bool {
    let top = m.depth - 1;
    let kind = alias_kind(env, specialization, m.provenance[top], to.provenance);
    &&& m.depth > 0
    &&& moves || m.provenance[top] != OptProvenance::OwnedSlot
    &&& names_slot(m.provenance[top])
    &&& kind != AliasStore::Reject
    &&& kind == AliasStore::GuardHeap ==> guard is Some && stack_ownable(env, m.provenance, m.depth)
    &&& to.release ==> !env.int32_loop && helper_known(env, env.abi.helper_free)
}

pub open spec fn stored(
    env: OptEnv<'_>,
    specialization: NumericSpecialization,
    to: Destination,
    keep: bool,
    pc: u32,
    guard: Option<u32>,
    a: Code,
    m: Lowered,
    b: Code,
    m2: Lowered,
) -> bool {
    let top = m.depth - 1;
    let kind = alias_kind(env, specialization, m.provenance[top], to.provenance);
    &&& a.len() <= b.len()
    &&& m2 == Lowered {
        depth: if keep {
            m.depth
        } else {
            top
        },
        provenance: invalidated(m.provenance, top, to.provenance),
        source: None,
        ..m
    }
    &&& forall|w: World|
        #![trigger b.at(w)]
        store_post(
            env,
            a.at(w),
            b.at(w),
            a.len(),
            to,
            kind == AliasStore::GuardHeap,
            m.provenance,
            m.depth,
            pc,
            guard,
            w,
        )
}

/// Why what a local owns is not released.
pub open spec fn release_failure(env: OptEnv<'_>) -> CompileFailure {
    if env.int32_loop {
        CompileFailure::UnsupportedOpcode
    } else {
        CompileFailure::InvalidArtifact
    }
}

/// Why the stack top is not stored.
pub open spec fn store_failure(
    env: OptEnv<'_>,
    specialization: NumericSpecialization,
    to: Destination,
    moves: bool,
    guard: Option<u32>,
    m: Lowered,
) -> CompileFailure {
    let top = m.depth - 1;
    let kind = alias_kind(env, specialization, m.provenance[top], to.provenance);
    if m.depth == 0 {
        CompileFailure::InvalidArtifact
    } else if !moves && m.provenance[top] == OptProvenance::OwnedSlot {
        CompileFailure::UnsupportedOpcode
    } else if !names_slot(m.provenance[top]) {
        CompileFailure::InvalidArtifact
    } else if kind == AliasStore::Reject {
        CompileFailure::UnsupportedOpcode
    } else if kind == AliasStore::GuardHeap && !(guard is Some && stack_ownable(env, m.provenance, m.depth)) {
        placed_failure(guard is Some, env, m.provenance, m.depth)
    } else {
        release_failure(env)
    }
}

/// Writes the stack top to a frame slot. A heap reference that is only borrowed
/// never gets there: the store is refused, or checked and deoptimized. A value
/// that the stack slot owned moves.
#[verifier::rlimit(40)]
pub fn lower_store(
    code: &mut Code,
    env: &OptEnv<'_>,
    specialization: &NumericSpecialization,
    ls: &mut LowerState,
    to: Destination,
    keep: bool,
    moves: bool,
    pc: u32,
    guard: Option<u32>,
) -> (r: Result<(), CompileFailure>)
    requires
        env.wf(old(code).len()),
        old(ls)@.wf(*env, old(code).len()),
        to.wf(*env, old(code).len()),
    ensures
        kept(*old(code), *final(code)),
        r is Ok && env.typed(*old(code)) && state_held(*old(code), *old(ls))
            && slot_named(*old(code), to.slot, Ty::I64) && old(code).holds(to.buffer, Ty::I64)
            ==> steady(*old(code), *final(code)),
        r is Ok && env.typed(*old(code)) && state_held(*old(code), *old(ls))
            && slot_named(*old(code), to.slot, Ty::I64) && old(code).holds(to.buffer, Ty::I64)
            ==> state_held(*final(code), *final(ls)),
        r is Ok <==> store_ready(*env, *specialization, to, moves, guard, old(ls)@),
        r matches Err(e) ==> e == store_failure(*env, *specialization, to, moves, guard, old(ls)@),
        r is Ok ==> final(ls)@.wf(*env, final(code).len()) && stored(
            *env,
            *specialization,
            to,
            keep,
            pc,
            guard,
            *old(code),
            old(ls)@,
            *final(code),
            final(ls)@,
        ),
{
    if ls.depth == 0 {
        return Err(CompileFailure::InvalidArtifact);
    }
    let depth = ls.depth;
    let top: usize = depth - 1;
    let source = ls.provenance[top];
    if !moves && source == OptProvenance::OwnedSlot {
        return Err(CompileFailure::UnsupportedOpcode);
    }
    if let OptProvenance::Local(slot) = source {
        if slot >= crate::frame::MAX_SLOTS {
            return Err(CompileFailure::InvalidArtifact);
        }
    }
    let ghost c0 = *code;
    if let Err(e) = emit_opt_alias_store_guard(
        code,
        env,
        specialization,
        &ls.provenance,
        depth,
        top,
        to.provenance,
        pc,
        guard,
    ) {
        return Err(e);
    }
    let ghost c1 = *code;
    let pair = opt_use(code, env.stack[top], env.payload_type);
    let ghost c2 = *code;
    if to.release {
        if let Err(e) = emit_opt_free_local_slot(code, env, to.index) {
            return Err(e);
        }
    }
    let ghost c3 = *code;
    opt_define(code, to.slot, pair);
    let ghost c4 = *code;
    if to.publish {
        opt_store(code, to.buffer, to.index, pair, env.payload_type);
    }
    let ghost c5 = *code;
    if source == OptProvenance::OwnedSlot {
        let blank = undefined(code);
        let ghost c6 = *code;
        opt_store(code, env.stack_base, top, blank, Ty::I64);
        let ghost c7 = *code;
        opt_define(code, env.stack[top], blank);
        let ghost c8 = *code;
        opt_set_stack_top(code, env, top);
        proof {
            assert forall|w: World|
                #![trigger code.at(w)]
                match c5.at(w) {
                    Status::Run(s) => runs_on(
                        code.at(w),
                        s,
                        c5.len(),
                        vars_after(s.vars, env.stack@[top as int], 0, JS_TAG_UNDEFINED as int),
                        top_store(
                            pair_stores(s.trace, s.vals[env.stack_base as int] + top * 16, 0, JS_TAG_UNDEFINED as int),
                            *env.abi,
                            s.vals[env.frame as int],
                            s.vals[env.stack_base as int],
                            top as int,
                        ),
                    ),
                    st => code.at(w) == st,
                } by {
                let x = c6.at(w);
                let y = c7.at(w);
                let z = c8.at(w);
            }
        }
    }
    if !keep {
        ls.depth = top;
    }
    ls.source = None;
    opt_invalidate_provenance(&mut ls.provenance, top, to.provenance);
    proof {
        let kind = alias_kind(*env, *specialization, source, to.provenance);
        assert forall|w: World|
            #![trigger code.at(w)]
            store_post(
                *env,
                c0.at(w),
                code.at(w),
                c0.len(),
                to,
                kind == AliasStore::GuardHeap,
                old(ls)@.provenance,
                depth as int,
                pc,
                guard,
                w,
            ) by {
            let a = c1.at(w);
            let b = c2.at(w);
            let c = c3.at(w);
            let d = c4.at(w);
            let e = c5.at(w);
        }
    }
    Ok(())
}

/// A lexical local has no value yet.
pub open spec fn uninitialized(env: OptEnv<'_>, to: Destination, a: Code, m: Lowered, b: Code, m2: Lowered) -> bool {
    &&& a.len() <= b.len()
    &&& m2 == m.forget()
    &&& forall|w: World|
        #![trigger b.at(w)]
        match a.at(w) {
            Status::Run(s) => {
                let freed = if to.release {
                    release_flow(env, s, to.index as int, w)
                } else {
                    Flow { running: true, trace: s.trace }
                };
                if freed.running {
                    runs_on(
                        b.at(w),
                        s,
                        a.len(),
                        vars_after(s.vars, to.slot, 0, JS_TAG_UNDEFINED as int),
                        if to.publish {
                            pair_stores(
                                freed.trace,
                                s.vals[to.buffer as int] + to.index * 16,
                                0,
                                JS_TAG_UNDEFINED as int,
                            )
                        } else {
                            freed.trace
                        },
                    )
                } else {
                    exits_with(b.at(w), freed.trace)
                }
            },
            st => b.at(w) == st,
        }
}

/// Clears a local.
pub fn lower_uninitialized(code: &mut Code, env: &OptEnv<'_>, ls: &mut LowerState, to: Destination) -> (r: Result<
    (),
    CompileFailure,
>)
    requires
        env.wf(old(code).len()),
        old(ls)@.wf(*env, old(code).len()),
        to.wf(*env, old(code).len()),
    ensures
        kept(*old(code), *final(code)),
        r is Ok && env.typed(*old(code)) && state_held(*old(code), *old(ls))
            && slot_named(*old(code), to.slot, Ty::I64) && old(code).holds(to.buffer, Ty::I64)
            ==> steady(*old(code), *final(code)),
        r is Ok && env.typed(*old(code)) && state_held(*old(code), *old(ls))
            && slot_named(*old(code), to.slot, Ty::I64) && old(code).holds(to.buffer, Ty::I64)
            ==> state_held(*final(code), *final(ls)),
        r is Ok <==> (to.release ==> !env.int32_loop && helper_known(*env, env.abi.helper_free)),
        r matches Err(e) ==> e == release_failure(*env),
        r is Ok ==> final(ls)@.wf(*env, final(code).len()) && uninitialized(
            *env,
            to,
            *old(code),
            old(ls)@,
            *final(code),
            final(ls)@,
        ),
{
    let ghost c0 = *code;
    ls.source = None;
    if to.release {
        if let Err(e) = emit_opt_free_local_slot(code, env, to.index) {
            return Err(e);
        }
    }
    let ghost c1 = *code;
    let payload = code.iconst(env.payload_type, 0);
    let tag = code.iconst(Ty::I64, JS_TAG_UNDEFINED as i64);
    let blank = OptPair { payload, tag };
    let ghost c2 = *code;
    opt_define(code, to.slot, blank);
    let ghost c3 = *code;
    if to.publish {
        opt_store(code, to.buffer, to.index, blank, env.payload_type);
    }
    proof {
        assert forall|w: World| #[trigger] code.at(w) == code.at(w) by {
            let a = c1.at(w);
            let b = c2.at(w);
            let c = c3.at(w);
        }
        assert(uninitialized(*env, to, c0, old(ls)@, *code, ls@)) by {
            assert forall|w: World|
                #![trigger code.at(w)]
                match c0.at(w) {
                    Status::Run(s) => {
                        let freed = if to.release {
                            release_flow(*env, s, to.index as int, w)
                        } else {
                            Flow { running: true, trace: s.trace }
                        };
                        if freed.running {
                            runs_on(
                                code.at(w),
                                s,
                                c0.len(),
                                vars_after(s.vars, to.slot, 0, JS_TAG_UNDEFINED as int),
                                if to.publish {
                                    pair_stores(
                                        freed.trace,
                                        s.vals[to.buffer as int] + to.index * 16,
                                        0,
                                        JS_TAG_UNDEFINED as int,
                                    )
                                } else {
                                    freed.trace
                                },
                            )
                        } else {
                            exits_with(code.at(w), freed.trace)
                        }
                    },
                    st => code.at(w) == st,
                } by {
                let a = c1.at(w);
                let b = c2.at(w);
                let c = c3.at(w);
            }
        }
    }
    Ok(())
}

/// The stack top is replaced by whether its tag is one of these.
pub open spec fn tag_tested(env: OptEnv<'_>, first: int, second: Option<i32>, a: Code, m: Lowered, b: Code, m2: Lowered) -> bool {
    let top = m.depth - 1;
    &&& a.len() <= b.len()
    &&& m2 == Lowered { provenance: m.provenance.update(top, OptProvenance::ImmediatePrimitive), ..m }
    &&& forall|w: World|
        #![trigger b.at(w)]
        match a.at(w) {
            Status::Run(s) => {
                let tag = s.vars[env.stack@[top].tag as int];
                assigns(
                    a.at(w),
                    b.at(w),
                    a.len(),
                    env.stack@[top],
                    truth(tag == first || second is Some && tag == second->Some_0),
                    JS_TAG_BOOL as int,
                )
            },
            st => b.at(w) == st,
        }
}

/// Why the stack top's tag is not tested.
pub open spec fn tag_failure(m: Lowered) -> CompileFailure {
    if m.depth == 0 {
        CompileFailure::InvalidArtifact
    } else {
        CompileFailure::UnsupportedOpcode
    }
}

/// `is_undefined`, `is_null` and `is_undefined_or_null` of the stack top.
pub fn lower_tag_test(code: &mut Code, env: &OptEnv<'_>, ls: &mut LowerState, first: i32, second: Option<i32>) -> (r: Result<
    (),
    CompileFailure,
>)
    requires
        env.wf(old(code).len()),
        old(ls)@.wf(*env, old(code).len()),
    ensures
        kept(*old(code), *final(code)),
        r is Ok && env.typed(*old(code)) && state_held(*old(code), *old(ls)) ==> steady(*old(code), *final(code)),
        r is Ok && env.typed(*old(code)) && state_held(*old(code), *old(ls)) ==> state_held(*final(code), *final(ls)),
        r is Ok <==> old(ls)@.depth > 0 && old(ls)@.provenance[old(ls)@.depth - 1] != OptProvenance::OwnedSlot,
        r matches Err(e) ==> e == tag_failure(old(ls)@),
        r is Ok ==> final(ls)@.wf(*env, final(code).len()) && tag_tested(
            *env,
            first as int,
            second,
            *old(code),
            old(ls)@,
            *final(code),
            final(ls)@,
        ),
{
    if ls.depth == 0 {
        return Err(CompileFailure::InvalidArtifact);
    }
    let top: usize = ls.depth - 1;
    if ls.provenance[top] == OptProvenance::OwnedSlot {
        return Err(CompileFailure::UnsupportedOpcode);
    }
    let ghost c0 = *code;
    let pair = opt_use(code, env.stack[top], env.payload_type);
    let ghost c1 = *code;
    let one = opt_tag_is(code, pair.tag, first);
    let ghost c2 = *code;
    let flag: usize = match second {
        Some(expected) => {
            let other = opt_tag_is(code, pair.tag, expected);
            code.binary(BinaryOp::Or, Ty::I8, one, other)
        },
        None => one,
    };
    let ghost c3 = *code;
    let result = opt_bool_pair(code, env.payload_type, flag);
    let ghost c4 = *code;
    opt_define(code, env.stack[top], result);
    ls.provenance[top] = OptProvenance::ImmediatePrimitive;
    proof {
        broadcast use crate::lower_values::group_truths;

        assert forall|w: World|
            #![trigger code.at(w)]
            match c0.at(w) {
                Status::Run(s) => {
                    let tag = s.vars[env.stack@[top as int].tag as int];
                    assigns(
                        c0.at(w),
                        code.at(w),
                        c0.len(),
                        env.stack@[top as int],
                        truth(tag == first || second is Some && tag == second->Some_0),
                        JS_TAG_BOOL as int,
                    )
                },
                st => code.at(w) == st,
            } by {
            let a = c1.at(w);
            let b = c2.at(w);
            let c = c3.at(w);
            let d = c4.at(w);
        }
    }
    Ok(())
}

/// The variables after the first `k` values of a shuffle were put in place;
/// every value is read before any is written.
pub open spec fn shuffled_vars(vars: Map<int, int>, stack: Seq<OptVars>, start: int, order: Seq<usize>, k: nat) -> Map<int, int>
    decreases k,
{
    if k == 0 {
        vars
    } else {
        let from = stack[start + order[k - 1]];
        vars_after(
            shuffled_vars(vars, stack, start, order, (k - 1) as nat),
            stack[start + k - 1],
            vars[from.payload as int],
            vars[from.tag as int],
        )
    }
}

/// What a value aliases moves with it.
pub open spec fn shuffled_provenance(provenance: Seq<OptProvenance>, start: int, order: Seq<usize>, k: nat) -> Seq<OptProvenance>
    decreases k,
{
    if k == 0 {
        provenance
    } else {
        shuffled_provenance(provenance, start, order, (k - 1) as nat).update(
            start + k - 1,
            provenance[start + order[k - 1]],
        )
    }
}

/// Every slot of a shuffle's result aliases what its source aliased.
pub proof fn shuffle_moves_aliases(provenance: Seq<OptProvenance>, start: int, order: Seq<usize>, k: nat)
    requires
        0 <= start,
        start + k <= provenance.len(),
        k <= order.len(),
    ensures
        shuffled_provenance(provenance, start, order, k).len() == provenance.len(),
        forall|i: int|
            0 <= i < provenance.len() ==> #[trigger] shuffled_provenance(provenance, start, order, k)[i] == (if start <= i
                < start + k {
                provenance[start + order[i - start]]
            } else {
                provenance[i]
            }),
    decreases k,
{
    if k > 0 {
        shuffle_moves_aliases(provenance, start, order, (k - 1) as nat);
    }
}

pub open spec fn shuffle_ready(env: OptEnv<'_>, shuffle: StackShuffle, m: Lowered) -> bool {
    let start = m.depth - shuffle.take;
    &&& start >= 0
    &&& m.borrowed_from(start)
    &&& start + shuffle.order@.len() <= env.stack@.len()
}

pub open spec fn shuffled(env: OptEnv<'_>, shuffle: StackShuffle, a: Code, m: Lowered, b: Code, m2: Lowered) -> bool {
    let start = m.depth - shuffle.take;
    let count = shuffle.order@.len();
    &&& a.len() <= b.len()
    &&& m2 == Lowered {
        depth: start + count,
        provenance: shuffled_provenance(m.provenance, start, shuffle.order@, count),
        ..m
    }
    &&& forall|w: World|
        #![trigger b.at(w)]
        match a.at(w) {
            Status::Run(s) => runs_on(
                b.at(w),
                s,
                a.len(),
                shuffled_vars(s.vars, env.stack@, start, shuffle.order@, count),
                s.trace,
            ),
            st => b.at(w) == st,
        }
}

/// The pairs hold the first values of the stack from `start` on.
spec fn taken(env: OptEnv<'_>, st: Status, start: int, pairs: Seq<OptPair>, vars: Map<int, int>) -> bool {
    forall|k: int|
        0 <= k < pairs.len() ==> value(st, (#[trigger] pairs[k]).payload) == vars[env.stack@[start + k].payload as int] && value(
            st,
            pairs[k].tag,
        ) == vars[env.stack@[start + k].tag as int]
}

fn take_values(code: &mut Code, env: &OptEnv<'_>, start: usize, count: usize) -> (r: Vec<OptPair>)
    requires
        start + count <= env.stack@.len(),
    ensures
        kept(*old(code), *final(code)),
        env.typed(*old(code)) ==> steady(*old(code), *final(code)),
        env.typed(*old(code)) ==> forall|j: int| 0 <= j < r@.len() ==> pair_held(*final(code), #[trigger] r@[j]),
        r@.len() == count,
        final(code).len() >= old(code).len(),
        forall|k: int| 0 <= k < count ==> (#[trigger] r@[k]).payload < final(code).len() && r@[k].tag < final(code).len(),
        forall|w: World|
            #![trigger final(code).at(w)]
            match old(code).at(w) {
                Status::Run(s) => runs_on(final(code).at(w), s, old(code).len(), s.vars, s.trace) && taken(
                    *env,
                    final(code).at(w),
                    start as int,
                    r@,
                    s.vars,
                ),
                st => final(code).at(w) == st,
            },
{
    let mut pairs: Vec<OptPair> = Vec::new();
    let slots: usize = env.stack.len();
    let mut k: usize = 0;
    while k < count
        invariant
            kept(*old(code), *code),
            env.typed(*old(code)) ==> steady(*old(code), *code),
            env.typed(*old(code))
                ==> env.typed(*code) && forall|j: int| 0 <= j < pairs@.len() ==> pair_held(*code, #[trigger] pairs@[j]),
            k <= count,
            slots == env.stack@.len(),
            start + count <= env.stack@.len(),
            pairs@.len() == k,
            code.len() >= old(code).len(),
            forall|j: int| 0 <= j < k ==> (#[trigger] pairs@[j]).payload < code.len() && pairs@[j].tag < code.len(),
            forall|w: World|
                #![trigger code.at(w)]
                match old(code).at(w) {
                    Status::Run(s) => runs_on(code.at(w), s, old(code).len(), s.vars, s.trace) && taken(
                        *env,
                        code.at(w),
                        start as int,
                        pairs@,
                        s.vars,
                    ),
                    st => code.at(w) == st,
                },
        decreases count - k,
    {
        let ghost before = *code;
        let ghost held = pairs@;
        let pair = opt_use(code, env.stack[start + k], env.payload_type);
        pairs.push(pair);
        proof {
            assert forall|w: World|
                #![trigger code.at(w)]
                match old(code).at(w) {
                    Status::Run(s) => runs_on(code.at(w), s, old(code).len(), s.vars, s.trace) && taken(
                        *env,
                        code.at(w),
                        start as int,
                        pairs@,
                        s.vars,
                    ),
                    st => code.at(w) == st,
                } by {
                let a = before.at(w);
                if let Status::Run(s) = old(code).at(w) {
                    assert forall|j: int| 0 <= j < pairs@.len() implies value(code.at(w), (#[trigger] pairs@[j]).payload)
                        == s.vars[env.stack@[start + j].payload as int] && value(code.at(w), pairs@[j].tag)
                        == s.vars[env.stack@[start + j].tag as int] by {
                        if j < k {
                            assert(pairs@[j] == held[j]);
                        }
                    }
                }
            }
        }
        k = k + 1;
    }
    pairs
}

/// Why the stack is not shuffled.
pub open spec fn shuffle_failure(shuffle: StackShuffle, m: Lowered) -> CompileFailure {
    let start = m.depth - shuffle.take;
    if start < 0 {
        CompileFailure::InvalidArtifact
    } else if !m.borrowed_from(start) {
        CompileFailure::UnsupportedOpcode
    } else {
        CompileFailure::ResourceLimit
    }
}

/// Moves stack values about together with what they alias, so that a later
/// exit still gives every copy of a borrowed value an owner of its own.
pub fn lower_shuffle(code: &mut Code, env: &OptEnv<'_>, ls: &mut LowerState, shuffle: &StackShuffle) -> (r: Result<
    (),
    CompileFailure,
>)
    requires
        env.wf(old(code).len()),
        old(ls)@.wf(*env, old(code).len()),
        forall|k: int| 0 <= k < shuffle.order@.len() ==> #[trigger] shuffle.order@[k] < shuffle.take,
    ensures
        kept(*old(code), *final(code)),
        r is Ok && env.typed(*old(code)) && state_held(*old(code), *old(ls)) ==> steady(*old(code), *final(code)),
        r is Ok && env.typed(*old(code)) && state_held(*old(code), *old(ls)) ==> state_held(*final(code), *final(ls)),
        r is Ok <==> shuffle_ready(*env, *shuffle, old(ls)@),
        r matches Err(e) ==> e == shuffle_failure(*shuffle, old(ls)@),
        r is Ok ==> final(ls)@.wf(*env, final(code).len()) && shuffled(
            *env,
            *shuffle,
            *old(code),
            old(ls)@,
            *final(code),
            final(ls)@,
        ),
{
    if ls.depth < shuffle.take {
        return Err(CompileFailure::InvalidArtifact);
    }
    let start: usize = ls.depth - shuffle.take;
    if let Err(e) = opt_reject_owned(&ls.provenance, start, ls.depth) {
        return Err(e);
    }
    let count: usize = shuffle.order.len();
    if count > env.stack.len() - start {
        return Err(CompileFailure::ResourceLimit);
    }
    let ghost c0 = *code;
    let pairs = take_values(code, env, start, shuffle.take);
    let slots: usize = env.stack.len();
    let mut aliases: Vec<OptProvenance> = Vec::new();
    let mut i: usize = 0;
    while i < shuffle.take
        invariant
            kept(*old(code), *code),
            env.typed(*old(code)) && state_held(*old(code), *old(ls)) ==> steady(*old(code), *code),
            env.typed(*old(code))
                ==> env.typed(*code) && forall|j: int| 0 <= j < pairs@.len() ==> pair_held(*code, #[trigger] pairs@[j]),
            ls.values == old(ls).values && ls.source == old(ls).source && ls.reusable == old(ls).reusable,
            i <= shuffle.take,
            slots == ls.provenance@.len(),
            start + shuffle.take <= ls.provenance@.len(),
            aliases@.len() == i,
            forall|j: int| 0 <= j < i ==> aliases@[j] == ls.provenance@[start + j],
        decreases shuffle.take - i,
    {
        aliases.push(ls.provenance[start + i]);
        i = i + 1;
    }
    let ghost c1 = *code;
    let mut k: usize = 0;
    while k < count
        invariant
            kept(*old(code), *code),
            env.typed(*old(code)) && state_held(*old(code), *old(ls)) ==> steady(*old(code), *code),
            env.typed(*old(code))
                ==> env.typed(*code) && forall|j: int| 0 <= j < pairs@.len() ==> pair_held(*code, #[trigger] pairs@[j]),
            ls.values == old(ls).values && ls.source == old(ls).source && ls.reusable == old(ls).reusable,
            k <= count,
            slots == env.stack@.len(),
            count == shuffle.order@.len(),
            start + shuffle.take == old(ls)@.depth,
            start + count <= env.stack@.len(),
            old(ls)@.depth <= env.stack@.len() == old(ls)@.provenance.len(),
            pairs@.len() == shuffle.take,
            aliases@.len() == shuffle.take,
            ls.provenance@.len() == env.stack@.len(),
            ls.source == old(ls).source,
            ls.reusable == old(ls).reusable,
            ls.values == old(ls).values,
            forall|j: int| 0 <= j < aliases@.len() ==> aliases@[j] == old(ls)@.provenance[start + j],
            forall|j: int| 0 <= j < shuffle.order@.len() ==> #[trigger] shuffle.order@[j] < shuffle.take,
            forall|j: int| 0 <= j < pairs@.len() ==> (#[trigger] pairs@[j]).payload < c1.len() && pairs@[j].tag < c1.len(),
            c0.len() <= c1.len() <= code.len(),
            ls.provenance@ == shuffled_provenance(old(ls)@.provenance, start as int, shuffle.order@, k as nat),
            forall|w: World|
                #![trigger c1.at(w)]
                match c0.at(w) {
                    Status::Run(s) => runs_on(c1.at(w), s, c0.len(), s.vars, s.trace) && taken(
                        *env,
                        c1.at(w),
                        start as int,
                        pairs@,
                        s.vars,
                    ),
                    st => c1.at(w) == st,
                },
            forall|w: World|
                #![trigger code.at(w)]
                match c1.at(w) {
                    Status::Run(s) => runs_on(
                        code.at(w),
                        s,
                        c1.len(),
                        shuffled_vars(s.vars, env.stack@, start as int, shuffle.order@, k as nat),
                        s.trace,
                    ),
                    st => code.at(w) == st,
                },
        decreases count - k,
    {
        let ghost before = *code;
        let from = shuffle.order[k];
        let alias = aliases[from];
        opt_define(code, env.stack[start + k], pairs[from]);
        ls.provenance[start + k] = alias;
        proof {
            assert forall|w: World|
                #![trigger code.at(w)]
                match c1.at(w) {
                    Status::Run(s) => runs_on(
                        code.at(w),
                        s,
                        c1.len(),
                        shuffled_vars(s.vars, env.stack@, start as int, shuffle.order@, (k + 1) as nat),
                        s.trace,
                    ),
                    st => code.at(w) == st,
                } by {
                let a = before.at(w);
                let b = c0.at(w);
                if let Status::Run(s) = c0.at(w) {
                    assert(taken(*env, c1.at(w), start as int, pairs@, s.vars));
                    assert(value(c1.at(w), pairs@[from as int].payload) == s.vars[env.stack@[start + from].payload as int]);
                }
            }
        }
        k = k + 1;
    }
    ls.depth = start + count;
    proof {
        assert forall|w: World|
            #![trigger code.at(w)]
            match c0.at(w) {
                Status::Run(s) => runs_on(
                    code.at(w),
                    s,
                    c0.len(),
                    shuffled_vars(s.vars, env.stack@, start as int, shuffle.order@, count as nat),
                    s.trace,
                ),
                st => code.at(w) == st,
            } by {
            let a = c1.at(w);
        }
    }
    Ok(())
}

} // verus!
