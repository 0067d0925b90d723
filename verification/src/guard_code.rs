//! Emitted checks of call targets.
use crate::arithmetic::deopts;
use crate::arithmetic::may_deopt;
use crate::call_guards::CallTargetFact;
use crate::call_guards::HoistedCallGuards;
use crate::checks::read;
use crate::checks::rejoin;
use crate::checks::require;
use crate::checks::seen;
use crate::checks::steers;
use crate::code::truth;
use crate::code::value;
use crate::code::waits_for_known_blocks;
use crate::code::kept;
use crate::code::kept_instructions;
use crate::code::Code;
use crate::code::Event;
use crate::code::IntCc;
use crate::code::Inst;
use crate::code::Status;
use crate::code::Ty;
use crate::code::World;
use crate::control::CompileFailure;
use crate::exits::deopt_depends_on_frame;
use crate::exits::deopt_trace;
use crate::exits::emit_opt_guard_branch;
use crate::exits::placed_failure;
use crate::exits::same_deopt;
use crate::exits::stack_ownable;
use crate::frame::exits_with;
use crate::frame::runs_on;
use crate::frame::OptEnv;
use crate::frame::RuntimeAbi;
use crate::ir::OptimizedNode;
use crate::lower_values::opt_tag_is;
use crate::lower_values::opt_use;
use crate::lower_values::OptPair;
use crate::property_cache::Steer;
use crate::provenance::OptProvenance;
use crate::qjs::JS_TAG_OBJECT;
use crate::typing::steady;
use crate::typing::closing;
use crate::typing::calm;
use crate::assemble::Known;
use crate::frame_typing::pair_held;
use crate::frame_typing::slot_named;
use crate::frame_typing::slots_named;
use crate::frame_typing::cached_named;
use crate::frame_typing::cache_named;
use crate::frame_typing::guards_named;
use vstd::prelude::*;

verus! {

broadcast use {
    crate::typing::group_typing,
    crate::frame_typing::group_frame,
    vstd::std_specs::btree::group_btree_axioms,
};

/// The function that a call is specialized for.
#[derive(Clone, Copy, Debug, PartialEq, Eq, Structural)]
pub struct DirectCalleeIdentity {
    pub object: u64,
    pub bytecode: u64,
}

/// The value is the function object itself.
pub open spec fn callee_object(identity: DirectCalleeIdentity, payload: int, tag: int) -> bool {
    tag == JS_TAG_OBJECT && payload == identity.object as i64
}

/// The value is the function object, and it still runs the same bytecode.
pub open spec fn callee_fits(identity: DirectCalleeIdentity, payload: int, tag: int, trace: Seq<Event>, w: World) -> bool {
    callee_object(identity, payload, tag) && seen(trace, Ty::I64, w) == identity.bytecode as i64
}

/// Only the function object itself is looked into.
pub open spec fn callee_reads(
    abi: RuntimeAbi,
    identity: DirectCalleeIdentity,
    payload: int,
    tag: int,
    trace: Seq<Event>,
    w: World,
) -> Seq<Event> {
    if callee_object(identity, payload, tag) {
        read(trace, Ty::I64, payload + abi.function_bytecode, w)
    } else {
        trace
    }
}

/// Checks the identity of a callee; control leaves for `failed` where it is
/// another one.
pub fn emit_guarded_direct_callee_identity(
    code: &mut Code,
    abi: &RuntimeAbi,
    callee: OptPair,
    identity: DirectCalleeIdentity,
    failed: usize,
)
    requires
        callee.payload < old(code).len(),
        callee.tag < old(code).len(),
        failed < old(code).len(),
    ensures
        kept(*old(code), *final(code)),
        pair_held(*old(code), callee) && old(code).blocked(failed) ==> steady(*old(code), *final(code)),
        final(code).len() > old(code).len(),
        forall|w: World|
            #![trigger final(code).at(w)]
            match old(code).at(w) {
                Status::Run(s) => steers(
                    final(code).at(w),
                    s,
                    old(code).len(),
                    failed,
                    callee_fits(identity, s.vals[callee.payload as int], s.vals[callee.tag as int], s.trace, w),
                    s.vars,
                    callee_reads(*abi, identity, s.vals[callee.payload as int], s.vals[callee.tag as int], s.trace, w),
                ),
                st => final(code).at(w) == st,
            },
{
    let is_object = opt_tag_is(code, callee.tag, JS_TAG_OBJECT);
    require(code, is_object, failed);
    let same_object = code.compare_imm(IntCc::Equal, Ty::I64, callee.payload, identity.object as i64);
    require(code, same_object, failed);
    let bytecode = code.load(Ty::I64, callee.payload, abi.function_bytecode);
    let same_bytecode = code.compare_imm(IntCc::Equal, Ty::I64, bytecode, identity.bytecode as i64);
    require(code, same_bytecode, failed);
}

/// The variables that hold, for every target, whether it is as expected and
/// whether a call has relied on it.
#[derive(Debug)]
pub struct GuardState {
    pub valid: Vec<usize>,
    pub used: Vec<usize>,
}

pub open spec fn unset_vars(vars: Map<int, int>, valid: Seq<usize>, used: Seq<usize>, k: nat) -> Map<int, int>
    decreases k,
{
    if k == 0 {
        vars
    } else {
        unset_vars(vars, valid, used, (k - 1) as nat).insert(valid[k - 1] as int, 0).insert(used[k - 1] as int, 0)
    }
}

proof fn unset_prefix(vars: Map<int, int>, valid: Seq<usize>, used: Seq<usize>, a: usize, b: usize, k: nat)
    requires
        k <= valid.len(),
        k <= used.len(),
    ensures
        unset_vars(vars, valid.push(a), used.push(b), k) == unset_vars(vars, valid, used, k),
    decreases k,
{
    if k > 0 {
        unset_prefix(vars, valid, used, a, b, (k - 1) as nat);
    }
}

pub open spec fn identity_of(target: CallTargetFact) -> DirectCalleeIdentity {
    DirectCalleeIdentity { object: target.object, bytecode: target.bytecode }
}

/// Every target's argument is looked at, and its verdict recorded.
pub open spec fn probed(
    env: OptEnv<'_>,
    targets: Seq<CallTargetFact>,
    state: GuardState,
    vars: Map<int, int>,
    trace: Seq<Event>,
    k: nat,
    w: World,
) -> Steer
    decreases k,
{
    if k == 0 {
        Steer { ok: true, vars, trace }
    } else {
        let before = probed(env, targets, state, vars, trace, (k - 1) as nat, w);
        probe_one(env, targets[k - 1], state.valid@[k - 1], before, w)
    }
}

pub open spec fn probe_one(env: OptEnv<'_>, target: CallTargetFact, valid: usize, before: Steer, w: World) -> Steer {
    let slot = env.arguments@[target.argument as int];
    let payload = before.vars[slot.payload as int];
    let tag = before.vars[slot.tag as int];
    let identity = identity_of(target);
    Steer {
        ok: true,
        vars: before.vars.insert(valid as int, truth(callee_fits(identity, payload, tag, before.trace, w))),
        trace: callee_reads(*env.abi, identity, payload, tag, before.trace, w),
    }
}

/// Looks at every target again. A target that has changed is only an immediate
/// failure where a call has already relied on it.
pub open spec fn refreshed(
    env: OptEnv<'_>,
    targets: Seq<CallTargetFact>,
    state: GuardState,
    vars: Map<int, int>,
    trace: Seq<Event>,
    k: nat,
    w: World,
) -> Steer
    decreases k,
{
    if k == 0 {
        Steer { ok: true, vars, trace }
    } else {
        let before = refreshed(env, targets, state, vars, trace, (k - 1) as nat, w);
        if !before.ok {
            before
        } else {
            let after = probe_one(env, targets[k - 1], state.valid@[k - 1], before, w);
            Steer {
                ok: after.vars[state.valid@[k - 1] as int] != 0 || after.vars[state.used@[k - 1] as int] == 0,
                ..after
            }
        }
    }
}

pub open spec fn arguments_known(env: OptEnv<'_>, targets: Seq<CallTargetFact>, k: int) -> bool {
    forall|i: int| 0 <= i < k ==> (#[trigger] targets[i]).argument < env.arguments@.len()
}

/// The variables of distinct targets are distinct.
pub open spec fn state_wf(targets: Seq<CallTargetFact>, state: GuardState) -> bool {
    &&& state.valid@.len() == targets.len()
    &&& state.used@.len() == targets.len()
    &&& forall|i: int, j: int|
        0 <= i < targets.len() && 0 <= j < targets.len() ==> (#[trigger] state.valid@[i]) != (#[trigger] state.used@[j])
}

pub open spec fn target_index(targets: Seq<CallTargetFact>, argument: u16) -> Option<int> {
    crate::runtime::first_at(|i: int| targets[i].argument == argument, targets.len())
}

pub open spec fn refresh_post(
    env: OptEnv<'_>,
    targets: Seq<CallTargetFact>,
    state: GuardState,
    st: Status,
    st2: Status,
    n: int,
    pc: u32,
    guard: u32,
    w: World,
) -> bool {
    match st {
        Status::Run(s) => {
            let v = refreshed(env, targets, state, s.vars, s.trace, targets.len(), w);
            if v.ok {
                runs_on(st2, s, n, v.vars, v.trace)
            } else {
                exits_with(st2, deopt_trace(env, s, v.vars, v.trace, Seq::empty(), 0, pc, guard, w))
            }
        },
        st => st2 == st,
    }
}

fn find_target(targets: &Vec<CallTargetFact>, argument: u16) -> (r: Option<usize>)
    ensures
        match r {
            Some(i) => i < targets@.len() && target_index(targets@, argument) == Some(i as int),
            None => target_index(targets@, argument) is None,
        },
{
    let ghost f = |i: int| targets@[i].argument == argument;
    let mut i: usize = 0;
    while i < targets.len()
        invariant
            i <= targets@.len(),
            f == (|i: int| targets@[i].argument == argument),
            forall|k: int| 0 <= k < i ==> !#[trigger] f(k),
        decreases targets@.len() - i,
    {
        if targets[i].argument == argument {
            proof {
                crate::runtime::first_at_is(f, targets@.len(), i as int);
            }
            return Some(i);
        }
        i = i + 1;
    }
    proof {
        crate::runtime::first_at_none(f, targets@.len());
    }
    None
}

/// Records in `valid` whether the target's argument is as expected, and in the
/// block `failed` nothing else has happened.
fn probe_target(code: &mut Code, env: &OptEnv<'_>, target: CallTargetFact, valid: usize)
    requires
        env.wf(old(code).len()),
        target.argument < env.arguments@.len(),
    ensures
        kept(*old(code), *final(code)),
        env.typed(*old(code)) && old(code).names(valid, Ty::I8) ==> steady(*old(code), *final(code)),
        final(code).len() > old(code).len(),
        forall|w: World|
            #![trigger final(code).at(w)]
            match old(code).at(w) {
                Status::Run(s) => {
                    let v = probe_one(*env, target, valid, (Steer { ok: true, vars: s.vars, trace: s.trace }), w);
                    runs_on(final(code).at(w), s, old(code).len(), v.vars, v.trace)
                },
                st => final(code).at(w) == st,
            },
{
    let missed = code.new_block();
    let done = code.new_block();
    let pair = opt_use(code, env.arguments[target.argument as usize], env.payload_type);
    let ghost c1 = *code;
    emit_guarded_direct_callee_identity(
        code,
        env.abi,
        pair,
        DirectCalleeIdentity { object: target.object, bytecode: target.bytecode },
        missed,
    );
    let ghost c2 = *code;
    let one = code.iconst(Ty::I8, 1);
    code.def_var(valid, one);
    code.jump(done);
    let _ = code.switch_to(missed);
    let zero = code.iconst(Ty::I8, 0);
    code.def_var(valid, zero);
    code.jump(done);
    let _ = code.switch_to(done);
    proof {
        assert forall|w: World|
            #![trigger code.at(w)]
            match old(code).at(w) {
                Status::Run(s) => {
                    let v = probe_one(*env, target, valid, (Steer { ok: true, vars: s.vars, trace: s.trace }), w);
                    runs_on(code.at(w), s, old(code).len(), v.vars, v.trace)
                },
                st => code.at(w) == st,
            } by {
            waits_for_known_blocks(old(code).insts@, w);
            let a1 = c1.at(w);
            let a2 = c2.at(w);
        }
    }
}

/// The variables of the targets were made between two points of the code, and no
/// two are the same.
pub open spec fn guards_declared(valid: Seq<usize>, used: Seq<usize>, lo: int, hi: int, insts: Seq<Inst>) -> bool {
    &&& hi <= insts.len()
    &&& valid.len() == used.len()
    &&& forall|k: int| 0 <= k < valid.len() ==> guard_declared(#[trigger] valid[k], used[k], lo, hi, insts)
    &&& forall|a: int, b: int| 0 <= a < b < valid.len() ==> #[trigger] used[a] < #[trigger] valid[b]
}

pub open spec fn guard_declared(valid: usize, used: usize, lo: int, hi: int, insts: Seq<Inst>) -> bool {
    &&& lo <= valid < used < hi
    &&& insts[valid as int] == (Inst::NewVariable { ty: Ty::I8 })
    &&& insts[used as int] == (Inst::NewVariable { ty: Ty::I8 })
}

impl HoistedCallGuards {
    /// Declares the variables of the targets; no target is valid or used yet.
    pub fn create_state(&self, code: &mut Code) -> (r: GuardState)
        ensures
            kept(*old(code), *final(code)),
            steady(*old(code), *final(code)),
            state_wf(self.targets@, r),
            final(code).len() >= old(code).len(),
            guards_declared(r.valid@, r.used@, old(code).len(), final(code).len(), final(code).insts@),
            forall|w: World|
                #![trigger final(code).at(w)]
                match old(code).at(w) {
                    Status::Run(s) => runs_on(
                        final(code).at(w),
                        s,
                        old(code).len(),
                        unset_vars(s.vars, r.valid@, r.used@, self.targets@.len()),
                        s.trace,
                    ),
                    st => final(code).at(w) == st,
                },
    {
        let mut valid: Vec<usize> = Vec::new();
        let mut used: Vec<usize> = Vec::new();
        let mut i: usize = 0;
        while i < self.targets.len()
            invariant
                kept(*old(code), *code),
                steady(*old(code), *code),
                i <= self.targets@.len(),
                valid@.len() == i,
                used@.len() == i,
                old(code).len() <= code.len(),
                forall|k: int| 0 <= k < i ==> #[trigger] valid@[k] < code.len(),
                forall|k: int| 0 <= k < i ==> #[trigger] used@[k] < code.len(),
                guards_declared(valid@, used@, old(code).len(), code.len(), code.insts@),
                forall|a: int, b: int| 0 <= a < i && 0 <= b < i ==> (#[trigger] valid@[a]) != (#[trigger] used@[b]),
                forall|w: World|
                    #![trigger code.at(w)]
                    match old(code).at(w) {
                        Status::Run(s) => runs_on(
                            code.at(w),
                            s,
                            old(code).len(),
                            unset_vars(s.vars, valid@, used@, i as nat),
                            s.trace,
                        ),
                        st => code.at(w) == st,
                    },
            decreases self.targets@.len() - i,
        {
            let ghost before = *code;
            let ghost valid0 = valid@;
            let ghost used0 = used@;
            let a = code.new_variable(Ty::I8);
            let ghost d0 = *code;
            let b = code.new_variable(Ty::I8);
            let ghost d1 = *code;
            let zero = code.iconst(Ty::I8, 0);
            code.def_var(a, zero);
            code.def_var(b, zero);
            valid.push(a);
            used.push(b);
            proof {
                kept_instructions(before, *code);
                kept_instructions(d0, *code);
                kept_instructions(d1, *code);
                assert(guards_declared(valid@, used@, old(code).len(), code.len(), code.insts@));
                assert forall|w: World|
                    #![trigger code.at(w)]
                    match old(code).at(w) {
                        Status::Run(s) => runs_on(
                            code.at(w),
                            s,
                            old(code).len(),
                            unset_vars(s.vars, valid@, used@, (i + 1) as nat),
                            s.trace,
                        ),
                        st => code.at(w) == st,
                    } by {
                    let x = before.at(w);
                    if let Status::Run(s) = old(code).at(w) {
                        unset_prefix(s.vars, valid0, used0, a, b, i as nat);
                    }
                }
            }
            i = i + 1;
        }
        GuardState { valid, used }
    }

    /// Looks at every target at the function's entry, without deoptimizing: a
    /// mismatch matters only where the call is reached.
    pub fn probe_entry(&self, code: &mut Code, env: &OptEnv<'_>, state: &GuardState) -> (r: Result<(), CompileFailure>)
        requires
            state_wf(self.targets@, *state),
            env.wf(old(code).len()),
        ensures
            kept(*old(code), *final(code)),
            r is Ok && env.typed(*old(code)) && guards_named(*old(code), state.valid@, state.used@)
                ==> steady(*old(code), *final(code)),
            r is Ok <==> arguments_known(*env, self.targets@, self.targets@.len() as int),
            r is Err ==> r == Err::<(), CompileFailure>(CompileFailure::InvalidArtifact),
            final(code).len() >= old(code).len(),
            r is Ok ==> forall|w: World|
                #![trigger final(code).at(w)]
                match old(code).at(w) {
                    Status::Run(s) => {
                        let v = probed(*env, self.targets@, *state, s.vars, s.trace, self.targets@.len(), w);
                        runs_on(final(code).at(w), s, old(code).len(), v.vars, v.trace)
                    },
                    st => final(code).at(w) == st,
                },
    {
        let mut i: usize = 0;
        while i < self.targets.len()
            invariant
                kept(*old(code), *code),
                env.typed(*old(code)) && guards_named(*old(code), state.valid@, state.used@)
                    ==> steady(*old(code), *code),
                env.typed(*old(code)) && guards_named(*old(code), state.valid@, state.used@)
                    ==> env.typed(*code) && guards_named(*code, state.valid@, state.used@),
                state_wf(self.targets@, *state),
                env.wf(old(code).len()),
                i <= self.targets@.len(),
                old(code).len() <= code.len(),
                arguments_known(*env, self.targets@, i as int),
                forall|w: World|
                    #![trigger code.at(w)]
                    match old(code).at(w) {
                        Status::Run(s) => {
                            let v = probed(*env, self.targets@, *state, s.vars, s.trace, i as nat, w);
                            runs_on(code.at(w), s, old(code).len(), v.vars, v.trace)
                        },
                        st => code.at(w) == st,
                    },
            decreases self.targets@.len() - i,
        {
            let target = self.targets[i];
            if target.argument as usize >= env.arguments.len() {
                assert(!(self.targets@[i as int].argument < env.arguments@.len()));
                return Err(CompileFailure::InvalidArtifact);
            }
            let ghost before = *code;
            probe_target(code, env, target, state.valid[i]);
            proof {
                assert forall|w: World|
                    #![trigger code.at(w)]
                    match old(code).at(w) {
                        Status::Run(s) => {
                            let v = probed(*env, self.targets@, *state, s.vars, s.trace, (i + 1) as nat, w);
                            runs_on(code.at(w), s, old(code).len(), v.vars, v.trace)
                        },
                        st => code.at(w) == st,
                    } by {
                    let x = before.at(w);
                }
            }
            i = i + 1;
        }
        Ok(())
    }

    /// Lets a covered call go on where its target is valid, and marks the
    /// target used; otherwise it deoptimizes at the call.
    pub fn admit_call(
        &self,
        code: &mut Code,
        env: &OptEnv<'_>,
        state: &GuardState,
        node: &OptimizedNode,
        provenance: &Vec<OptProvenance>,
        depth: usize,
    ) -> (r: Result<(), CompileFailure>)
        requires
            state_wf(self.targets@, *state),
            env.wf(old(code).len()),
            depth <= env.stack@.len(),
        ensures
            kept(*old(code), *final(code)),
            r is Ok && env.typed(*old(code)) && guards_named(*old(code), state.valid@, state.used@)
                ==> steady(*old(code), *final(code)),
            final(code).len() >= old(code).len(),
            !self.calls@.contains_key(node.id) ==> r is Ok && final(code).insts@ == old(code).insts@,
            self.calls@.contains_key(node.id) ==> {
                let index = target_index(self.targets@, self.calls@[node.id]);
                &&& r is Ok <==> index is Some && node.deopt_guard is Some && may_deopt(*env, provenance@, depth as int)
                &&& r matches Err(e) ==> e == placed_failure(
                    index is Some && node.deopt_guard is Some,
                    *env,
                    provenance@,
                    depth as int,
                )
                &&& r is Ok ==> forall|w: World|
                    #![trigger final(code).at(w)]
                    match old(code).at(w) {
                        Status::Run(s) => if s.vars[state.valid@[index->Some_0] as int] != 0 {
                            runs_on(
                                final(code).at(w),
                                s,
                                old(code).len(),
                                s.vars.insert(state.used@[index->Some_0] as int, 1),
                                s.trace,
                            )
                        } else {
                            deopts(
                                *env,
                                final(code).at(w),
                                s,
                                provenance@,
                                depth as int,
                                node.pc,
                                node.deopt_guard->Some_0,
                                w,
                            )
                        },
                        st => final(code).at(w) == st,
                    }
            },
    {
        let argument = match self.calls.get(&node.id) {
            Some(argument) => *argument,
            None => return Ok(()),
        };
        let index = match find_target(&self.targets, argument) {
            Some(index) => index,
            None => return Err(CompileFailure::InvalidArtifact),
        };
        let guard = match node.deopt_guard {
            Some(guard) => guard,
            None => return Err(CompileFailure::InvalidArtifact),
        };
        let valid = code.use_var(state.valid[index], Ty::I8);
        let okay = code.compare_imm(IntCc::NotEqual, Ty::I8, valid, 0);
        let ghost c1 = *code;
        if let Err(e) = emit_opt_guard_branch(code, env, provenance, depth, node.pc, guard, okay) {
            return Err(e);
        }
        let ghost c2 = *code;
        let one = code.iconst(Ty::I8, 1);
        code.def_var(state.used[index], one);
        proof {
            assert forall|w: World|
                #![trigger code.at(w)]
                match old(code).at(w) {
                    Status::Run(s) => if s.vars[state.valid@[index as int] as int] != 0 {
                        runs_on(
                            code.at(w),
                            s,
                            old(code).len(),
                            s.vars.insert(state.used@[index as int] as int, 1),
                            s.trace,
                        )
                    } else {
                        deopts(*env, code.at(w), s, provenance@, depth as int, node.pc, guard, w)
                    },
                    st => code.at(w) == st,
                } by {
                let a1 = c1.at(w);
                let a2 = c2.at(w);
                if let Status::Run(s) = old(code).at(w) {
                    same_deopt(*env, s, a1->Run_0, provenance@, depth as nat, node.pc, guard, w);
                }
            }
        }
        Ok(())
    }

    /// Looks at every target again after a poll. The operand stack is empty
    /// here, and the guard's own exit is used, never that of a later call.
    pub fn emit(&self, code: &mut Code, env: &OptEnv<'_>, state: &GuardState, pc: u32, guard: u32) -> (r: Result<
        (),
        CompileFailure,
    >)
        requires
            state_wf(self.targets@, *state),
            env.wf(old(code).len()),
        ensures
            kept(*old(code), *final(code)),
            r is Ok && env.typed(*old(code)) && guards_named(*old(code), state.valid@, state.used@)
                ==> steady(*old(code), *final(code)),
            r is Ok <==> arguments_known(*env, self.targets@, self.targets@.len() as int),
            r is Err ==> r == Err::<(), CompileFailure>(CompileFailure::InvalidArtifact),
            final(code).len() >= old(code).len(),
            r is Ok ==> forall|w: World|
                #![trigger final(code).at(w)]
                refresh_post(
                    *env,
                    self.targets@,
                    *state,
                    old(code).at(w),
                    final(code).at(w),
                    old(code).len(),
                    pc,
                    guard,
                    w,
                ),
    {
        if self.targets.len() == 0 {
            return Ok(());
        }
        let failed = code.new_cold_block();
        let ghost opened = *code;
        let mut i: usize = 0;
        while i < self.targets.len()
            invariant
                kept(*old(code), *code),
                env.typed(*old(code)) && guards_named(*old(code), state.valid@, state.used@)
                    ==> steady(*old(code), *code),
                env.typed(*old(code)) && guards_named(*old(code), state.valid@, state.used@)
                    ==> env.typed(*code) && guards_named(*code, state.valid@, state.used@)
                        && code.unstarted(failed as int),
                code.blocked(failed),
                state_wf(self.targets@, *state),
                env.wf(old(code).len()),
                i <= self.targets@.len(),
                failed < opened.len() <= code.len(),
                old(code).len() <= failed,
                arguments_known(*env, self.targets@, i as int),
                forall|w: World|
                    #![trigger code.at(w)]
                    match old(code).at(w) {
                        Status::Run(s) => {
                            let v = refreshed(*env, self.targets@, *state, s.vars, s.trace, i as nat, w);
                            steers(code.at(w), s, old(code).len(), failed, v.ok, v.vars, v.trace)
                        },
                        st => code.at(w) == st,
                    },
            decreases self.targets@.len() - i,
        {
            let target = self.targets[i];
            if target.argument as usize >= env.arguments.len() {
                assert(!(self.targets@[i as int].argument < env.arguments@.len()));
                return Err(CompileFailure::InvalidArtifact);
            }
            let ghost before = *code;
            probe_target(code, env, target, state.valid[i]);
            let ghost c1 = *code;
            let valid = code.use_var(state.valid[i], Ty::I8);
            let missed = code.compare_imm(IntCc::Equal, Ty::I8, valid, 0);
            let skip = code.new_block();
            let relied = code.new_block();
            code.branch(missed, relied, skip);
            let _ = code.switch_to(relied);
            let was_used = code.use_var(state.used[i], Ty::I8);
            code.branch(was_used, failed, skip);
            let _ = code.switch_to(skip);
            proof {
                assert forall|w: World|
                    #![trigger code.at(w)]
                    match old(code).at(w) {
                        Status::Run(s) => {
                            let v = refreshed(*env, self.targets@, *state, s.vars, s.trace, (i + 1) as nat, w);
                            steers(code.at(w), s, old(code).len(), failed, v.ok, v.vars, v.trace)
                        },
                        st => code.at(w) == st,
                    } by {
                    waits_for_known_blocks(old(code).insts@, w);
                    let x = before.at(w);
                    let a1 = c1.at(w);
                }
            }
            i = i + 1;
        }
        let ghost looped = *code;
        let none: Vec<OptProvenance> = Vec::new();
        if let Err(e) = rejoin(code, env, failed, &none, 0, pc, guard) {
            assert(stack_ownable(*env, none@, 0));
            return Err(e);
        }
        proof {
            assert forall|w: World|
                #![trigger code.at(w)]
                refresh_post(
                    *env,
                    self.targets@,
                    *state,
                    old(code).at(w),
                    code.at(w),
                    old(code).len(),
                    pc,
                    guard,
                    w,
                ) by {
                waits_for_known_blocks(old(code).insts@, w);
                let l = looped.at(w);
                assert(none@ =~= Seq::<OptProvenance>::empty());
                if let Status::Run(s) = old(code).at(w) {
                    if let Status::Wait { block, args, state: t } = l {
                        deopt_depends_on_frame(*env, s, t, t.vars, t.trace, none@, 0, pc, guard, w);
                    }
                }
            }
        }
        Ok(())
    }
}

} // verus!
