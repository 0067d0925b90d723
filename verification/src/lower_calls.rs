//! Lowering of calls: inlined, entered directly, or through the runtime.
use crate::arithmetic::deopts;
use crate::arithmetic::may_deopt;
use crate::call_code::progresses;
use crate::call_code::generic_call;
use crate::call_guards::HoistedCallGuards;
use crate::code::kept;
use crate::code::Code;
use crate::code::State;
use crate::code::Status;
use crate::code::World;
use crate::control::CompileFailure;
use crate::exits::own_failure;
use crate::exits::placed_failure;
use crate::inlined_calls::inline_placed;
use crate::exits::stack_ownable;
use crate::frame::helper_known;
use crate::frame::runs_on;
use crate::frame::OptEnv;
use crate::frame_inline::frame_offered;
use crate::inline_frames::offered;
use crate::frame_inline::inlined_call;
use crate::frame_inline::provenance_after_inlining;
use crate::frame_inline::InlineSite;
use crate::guard_code::state_wf;
use crate::guard_code::target_index;
use crate::guard_code::GuardState;
use crate::inline_frames::FrameRegion;
use crate::inline_frames::InlineApi;
use crate::inline_frames::InlineFrame;
use crate::inline_regions::blocks_ok;
use crate::inline_regions::regions_wf;
use crate::inlined_calls::emit_opt_inlined_call;
use crate::inlined_calls::inline_ready;
use crate::inlined_calls::inlined_post;
use crate::inlined_calls::CallSite;
use crate::inlined_calls::ScalarRegion;
use crate::ir::OptimizedNode;
use crate::ir::ScalarValue;
use crate::lower_values::opt_define;
use crate::lower_values::vars_after;
use crate::lower_values::OptPair;
use crate::lower_values::OptVars;
use crate::lowering::LowerState;
use crate::lowering::Lowered;
use crate::provenance::OptProvenance;
use crate::runtime::CallSpecializationKey;
use crate::runtime::FeedbackRepresentation;
use crate::scalar::frame_fits;
use crate::scalar::frame_vars;
use crate::scalar::opt_restore_scalar_frame;
use crate::scalar::OperandMode;
use crate::scalar::ScalarFrame;
use crate::scalar_ops::NodeSite;
use crate::specialized_calls::call_refusal;
use crate::specialized_calls::direct_post;
use crate::specialized_calls::emit_opt_specialized_call;
use crate::specialized_calls::enters_directly;
use crate::specialized_calls::provenance_after_call;
use crate::specialized_calls::shape_of;
use crate::specialized_calls::DirectCallSite;
use crate::stages::Refusal;
use crate::stages::Tier2CompileStage;
use crate::typing::steady;
use crate::typing::closing;
use crate::typing::calm;
use crate::assemble::Known;
use crate::frame_typing::pair_held;
use crate::frame_typing::slot_named;
use crate::frame_typing::slots_named;
use crate::frame_typing::cached_named;
use crate::frame_typing::cache_named;
use crate::frame_typing::state_held;
use crate::frame_typing::guards_named;
use crate::frame_typing::values_held;
use vstd::prelude::*;

verus! {

broadcast use {crate::typing::group_typing, crate::frame_typing::group_frame, crate::exits::own_failures};

/// A call as the scalar graph has it: its operands, the node whose frame
/// describes it, and what takes the callee's place.
#[derive(Debug)]
pub struct SemanticCall {
    pub site: CallSite,
    pub frame_state_node: u32,
    /// The callee's bytecode, by its place among the inlined regions.
    pub frame_region: Option<usize>,
    pub inline: Option<ScalarRegion>,
}

/// What the lowering of a call is given.
pub struct CallContext<'a> {
    pub node: &'a OptimizedNode,
    pub call: Option<&'a SemanticCall>,
    pub frame: Option<&'a ScalarFrame>,
    pub feedback: Option<&'a CallSpecializationKey>,
    pub direct: Option<&'a DirectCallSite>,
    pub scalars: &'a Vec<ScalarValue>,
    pub proven: &'a Vec<Option<OperandMode>>,
    pub hoisted: &'a HoistedCallGuards,
    pub guards: &'a GuardState,
    pub api: &'a InlineApi,
    pub regions: &'a Vec<FrameRegion>,
}

pub open spec fn this_count(call: SemanticCall) -> int {
    if call.site.receiver is Some {
        1
    } else {
        0
    }
}

/// How many values the call takes from the stack.
pub open spec fn popped(call: SemanticCall) -> int {
    call.site.arguments@.len() + 1 + this_count(call)
}

/// The operands lie on the stack as the call has them.
pub open spec fn operands_match(node: OptimizedNode, call: SemanticCall, frame: ScalarFrame, depth: int) -> bool {
    let base = depth - popped(call);
    let target = base + this_count(call);
    &&& call.frame_state_node == node.id
    &&& node.pops == popped(call)
    &&& frame.stack@[target] == call.site.target
    &&& forall|k: int|
        0 <= k < call.site.arguments@.len() ==> frame.stack@[target + 1 + k] == #[trigger] call.site.arguments@[k]
    &&& call.site.receiver matches Some(receiver) ==> frame.stack@[base] == receiver
}

impl<'a> CallContext<'a> {
    pub open spec fn wf(self) -> bool {
        &&& regions_wf(self.regions@)
        &&& state_wf(self.hoisted.targets@, *self.guards)
    }

    pub open spec fn site(self) -> NodeSite {
        NodeSite { id: self.node.id, pc: self.node.pc, guard: self.node.deopt_guard }
    }

    pub open spec fn inline_site(self, m: Lowered) -> InlineSite {
        InlineSite {
            node: self.node.id,
            pc: self.node.pc,
            argc: self.call->Some_0.site.arguments@.len() as u16,
            depth: m.depth as usize,
            guard: self.node.deopt_guard->Some_0,
        }
    }

    /// The call is what the frame says it is, and was seen with as many
    /// arguments.
    pub open spec fn fits(self, env: OptEnv<'_>, m: Lowered) -> bool {
        &&& self.call is Some
        &&& frame_fits(
            env,
            if self.frame is Some {
                Some(*self.frame->Some_0)
            } else {
                None
            },
            self.node.pc,
            m.depth,
            m.values,
        )
        &&& m.depth >= popped(*self.call->Some_0)
        &&& operands_match(*self.node, *self.call->Some_0, *self.frame->Some_0, m.depth)
        &&& self.feedback matches Some(seen) ==> seen.arguments@.len() == self.call->Some_0.site.arguments@.len()
    }

    pub open spec fn scalar_result(self) -> bool {
        self.feedback matches Some(seen) && seen.result != FeedbackRepresentation::HeapRef
    }

    pub open spec fn directly(self, m: Lowered) -> bool {
        let argc = self.call->Some_0.site.arguments@.len() as usize;
        let has_this = self.call->Some_0.site.receiver is Some;
        self.direct is Some && enters_directly(
            *self.direct->Some_0,
            m.provenance,
            argc,
            has_this,
            shape_of(m.depth as usize, argc, has_this).function_index(),
        )
    }

    pub open spec fn frame_inline_ready(self, env: OptEnv<'_>, m: Lowered) -> bool {
        let region = self.call->Some_0.frame_region->Some_0;
        &&& !env.int32_loop
        &&& self.node.deopt_guard is Some
        &&& region < self.regions@.len()
        &&& self.inline_site(m).fits(env, self.regions@[region as int])
        &&& stack_ownable(env, m.provenance, m.depth)
        &&& frame_offered(offered(env, *self.api))
        &&& blocks_ok(offered(env, *self.api), self.regions@, region as int, 0)
    }

    pub open spec fn region_ready(self, env: OptEnv<'_>, m: Lowered) -> bool {
        &&& env.int32_loop ==> self.feedback is Some
        &&& self.hoisted.calls@.contains_key(self.node.id) ==> target_index(
            self.hoisted.targets@,
            self.hoisted.calls@[self.node.id],
        ) is Some && self.node.deopt_guard is Some && may_deopt(env, m.provenance, m.depth)
        &&& inline_ready(
            env,
            self.site(),
            self.call->Some_0.site,
            self.call->Some_0.inline->Some_0,
            self.scalars@,
            m.depth,
            m.provenance,
            m.values,
            self.proven@,
        )
    }

    pub open spec fn bridge_ready(self, env: OptEnv<'_>, m: Lowered) -> bool {
        &&& !env.int32_loop
        &&& self.node.deopt_guard is Some
        &&& self.direct matches Some(d) ==> d.call.result != FeedbackRepresentation::HeapRef
        &&& call_refusal(
            env.stack@.len() as int,
            m.provenance,
            m.depth as usize,
            self.call->Some_0.site.arguments@.len() as usize,
            self.call->Some_0.site.receiver is Some,
        ) is None
        &&& stack_ownable(env, m.provenance, m.depth)
        &&& self.directly(m) || helper_known(env, env.abi.helper_call) && helper_known(env, env.abi.helper_free)
    }

    /// Why a call is not lowered: it is not what the frame says it is, what takes
    /// its place does not belong there, or the stack cannot be made an owner.
    pub open spec fn failure(self, env: OptEnv<'_>, m: Lowered) -> CompileFailure {
        if !self.fits(env, m) {
            CompileFailure::InvalidArtifact
        } else if self.call->Some_0.frame_region is Some {
            placed_failure(self.frame_placed(env, m), env, m.provenance, m.depth)
        } else if env.int32_loop && self.feedback is None {
            CompileFailure::InvalidArtifact
        } else if self.call->Some_0.inline is Some {
            placed_failure(self.region_placed(env, m), env, m.provenance, m.depth)
        } else {
            self.bridge_failure(env, m)
        }
    }

    pub open spec fn frame_placed(self, env: OptEnv<'_>, m: Lowered) -> bool {
        let region = self.call->Some_0.frame_region->Some_0;
        &&& !env.int32_loop
        &&& self.node.deopt_guard is Some
        &&& region < self.regions@.len()
        &&& self.inline_site(m).fits(env, self.regions@[region as int])
        &&& self.api.enter is Some
    }

    pub open spec fn region_placed(self, env: OptEnv<'_>, m: Lowered) -> bool {
        !env.int32_loop && if self.hoisted.calls@.contains_key(self.node.id) {
            target_index(self.hoisted.targets@, self.hoisted.calls@[self.node.id]) is Some && self.node.deopt_guard is Some
        } else {
            inline_placed(
                self.site(),
                self.call->Some_0.site,
                self.call->Some_0.inline->Some_0,
                self.scalars@,
                m.depth,
                m.provenance,
                m.values,
                self.proven@,
            )
        }
    }

    pub open spec fn bridge_failure(self, env: OptEnv<'_>, m: Lowered) -> CompileFailure {
        let refusal = call_refusal(
            env.stack@.len() as int,
            m.provenance,
            m.depth as usize,
            self.call->Some_0.site.arguments@.len() as usize,
            self.call->Some_0.site.receiver is Some,
        );
        if env.int32_loop || self.node.deopt_guard is None || (self.direct matches Some(d) && d.call.result
            == FeedbackRepresentation::HeapRef) {
            CompileFailure::InvalidArtifact
        } else {
            match refusal {
                Some(refusal) => refusal.failure,
                None => own_failure(env, m.provenance, m.depth),
            }
        }
    }

    /// The stage that a refused call is recorded under.
    pub open spec fn stage(self, env: OptEnv<'_>, m: Lowered) -> Option<Tier2CompileStage> {
        let framed = frame_fits(
            env,
            if self.frame is Some {
                Some(*self.frame->Some_0)
            } else {
                None
            },
            self.node.pc,
            m.depth,
            m.values,
        );
        if self.call is None {
            Some(Tier2CompileStage::GenericCallSemanticMissing)
        } else if !framed || m.depth < popped(*self.call->Some_0) {
            None
        } else if !operands_match(*self.node, *self.call->Some_0, *self.frame->Some_0, m.depth) {
            Some(Tier2CompileStage::GenericCallShapeMismatch)
        } else if !self.fits(env, m) {
            Some(Tier2CompileStage::GenericCallArityMismatch)
        } else if self.call->Some_0.frame_region is Some || env.int32_loop && self.feedback is None
            || self.call->Some_0.inline is Some {
            None
        } else {
            self.bridge_stage(env, m)
        }
    }

    pub open spec fn bridge_stage(self, env: OptEnv<'_>, m: Lowered) -> Option<Tier2CompileStage> {
        let refusal = call_refusal(
            env.stack@.len() as int,
            m.provenance,
            m.depth as usize,
            self.call->Some_0.site.arguments@.len() as usize,
            self.call->Some_0.site.receiver is Some,
        );
        if self.node.deopt_guard is None {
            Some(Tier2CompileStage::GenericCallGuardMissing)
        } else if env.int32_loop || (self.direct matches Some(d) && d.call.result == FeedbackRepresentation::HeapRef) {
            None
        } else {
            match refusal {
                Some(refusal) => refusal.stage,
                None => Some(Tier2CompileStage::GenericCallEmit),
            }
        }
    }

    pub open spec fn ready(self, env: OptEnv<'_>, m: Lowered) -> bool {
        &&& self.fits(env, m)
        &&& if self.call->Some_0.frame_region is Some {
            self.frame_inline_ready(env, m)
        } else if self.call->Some_0.inline is Some {
            self.region_ready(env, m)
        } else {
            self.bridge_ready(env, m)
        }
    }
}

/// The frame's variables hold what the scalar graph says.
pub open spec fn frame_restored(env: OptEnv<'_>, frame: ScalarFrame, values: Map<usize, OptPair>, a: Code, b: Code) -> bool {
    &&& a.len() <= b.len()
    &&& forall|w: World| #[trigger]
        b.at(w) == (match a.at(w) {
            Status::Run(s) => Status::Run(State { vars: frame_vars(env, frame, values, s.vars, s.vals), ..s }),
            st => st,
        })
}

/// A call that a guard in the entry block covers goes on where its target was
/// found valid, and marks it used.
pub open spec fn call_admitted(cx: CallContext<'_>, env: OptEnv<'_>, m: Lowered, a: Code, b: Code) -> bool {
    &&& a.len() <= b.len()
    &&& if cx.hoisted.calls@.contains_key(cx.node.id) {
        let index = target_index(cx.hoisted.targets@, cx.hoisted.calls@[cx.node.id])->Some_0;
        forall|w: World|
            #![trigger b.at(w)]
            match a.at(w) {
                Status::Run(s) => if s.vars[cx.guards.valid@[index] as int] != 0 {
                    runs_on(b.at(w), s, a.len(), s.vars.insert(cx.guards.used@[index] as int, 1), s.trace)
                } else {
                    deopts(env, b.at(w), s, m.provenance, m.depth, cx.node.pc, cx.node.deopt_guard->Some_0, w)
                },
                st => b.at(w) == st,
            }
    } else {
        b.insts@ == a.insts@
    }
}

/// The region's result is computed in place of the call.
pub open spec fn region_computed(cx: CallContext<'_>, env: OptEnv<'_>, m: Lowered, pair: OptPair, a: Code, b: Code) -> bool {
    &&& a.len() <= b.len()
    &&& forall|w: World|
        #![trigger b.at(w)]
        inlined_post(
            env,
            cx.site(),
            cx.call->Some_0.site,
            cx.call->Some_0.inline->Some_0,
            cx.scalars@,
            m.depth,
            m.provenance,
            m.values,
            cx.proven@,
            cx.hoisted.calls@.contains_key(cx.node.id),
            pair,
            a.at(w),
            b.at(w),
            a.len(),
            w,
        )
}

/// The slot takes the value of the pair.
pub open spec fn pair_defined(slot: OptVars, pair: OptPair, a: Code, b: Code) -> bool {
    &&& a.len() <= b.len()
    &&& forall|w: World| #[trigger]
        b.at(w) == (match a.at(w) {
            Status::Run(s) => Status::Run(
                State { vars: vars_after(s.vars, slot, s.vals[pair.payload as int], s.vals[pair.tag as int]), ..s },
            ),
            st => st,
        })
}

/// The callee's bytecode runs in a frame of its own, in place of the call.
pub open spec fn frame_inlined(cx: CallContext<'_>, env: OptEnv<'_>, a: Code, m: Lowered, b: Code, m2: Lowered) -> bool {
    let region = cx.call->Some_0.frame_region->Some_0;
    let depth = cx.inline_site(m).base(cx.regions@[region as int]) + 1;
    &&& a.len() <= b.len()
    &&& m2 == Lowered { depth, provenance: provenance_after_inlining(m.provenance, depth), ..m }
    &&& exists|f: InlineFrame<'_>| #[trigger]
        inlined_call(env, *cx.api, cx.regions@, region, cx.inline_site(m), m.provenance, a.insts@, b.insts@, f)
}

/// A scalar region takes the place of the callee.
pub open spec fn region_inlined(cx: CallContext<'_>, env: OptEnv<'_>, a: Code, m: Lowered, b: Code, m2: Lowered) -> bool {
    let base = m.depth - popped(*cx.call->Some_0);
    &&& m2 == Lowered { depth: base + 1, provenance: m.provenance.update(base, OptProvenance::ImmediatePrimitive), ..m }
    &&& exists|c1: Code, c2: Code, pair: OptPair|
        {
            &&& #[trigger] call_admitted(cx, env, m, a, c1)
            &&& #[trigger] region_computed(cx, env, m, pair, c1, c2)
            &&& pair_defined(env.stack@[base], pair, c2, b)
        }
}

/// The callee is entered directly, or called through the runtime.
pub open spec fn bridged(cx: CallContext<'_>, env: OptEnv<'_>, a: Code, m: Lowered, b: Code, m2: Lowered) -> bool {
    let argc = cx.call->Some_0.site.arguments@.len() as usize;
    let has_this = cx.call->Some_0.site.receiver is Some;
    let shape = shape_of(m.depth as usize, argc, has_this);
    &&& a.len() <= b.len()
    &&& m2 == Lowered {
        depth: shape.base + 1,
        provenance: provenance_after_call(m.provenance, shape, cx.directly(m), cx.scalar_result()),
        ..m
    }
    &&& cx.directly(m) ==> forall|w: World|
        #![trigger b.at(w)]
        direct_post(
            env,
            *cx.direct->Some_0,
            a.at(w),
            b.at(w),
            a.len(),
            shape.function_index(),
            m.provenance,
            m.depth,
            cx.node.pc,
            cx.node.deopt_guard->Some_0,
            w,
        )
    &&& !cx.directly(m) ==> forall|w: World|
        #![trigger b.at(w)]
        match a.at(w) {
            Status::Run(s) => progresses(b.at(w), s, a.len(), generic_call(env, s, shape, m.provenance, cx.node.pc, w)),
            st => b.at(w) == st,
        }
}

/// The frame is restored, and the call made in one of three ways.
pub open spec fn call_lowered(cx: CallContext<'_>, env: OptEnv<'_>, a: Code, m: Lowered, b: Code, m2: Lowered) -> bool {
    exists|mid: Code|
        {
            &&& #[trigger] frame_restored(env, *cx.frame->Some_0, m.values, a, mid)
            &&& if cx.call->Some_0.frame_region is Some {
                frame_inlined(cx, env, mid, m, b, m2)
            } else if cx.call->Some_0.inline is Some {
                region_inlined(cx, env, mid, m, b, m2)
            } else {
                bridged(cx, env, mid, m, b, m2)
            }
        }
}

fn refuse(stage: Tier2CompileStage) -> (r: Refusal)
    ensures
        r == (Refusal { failure: CompileFailure::InvalidArtifact, stage: Some(stage) }),
{
    Refusal { failure: CompileFailure::InvalidArtifact, stage: Some(stage) }
}

fn fail(failure: CompileFailure) -> (r: Refusal)
    ensures
        r == (Refusal { failure, stage: None }),
{
    Refusal { failure, stage: None }
}

fn match_operands(node: &OptimizedNode, call: &SemanticCall, frame: &ScalarFrame, base: usize, target: usize) -> (r: bool)
    requires
        frame.stack@.len() == base + popped(*call),
        target == base + this_count(*call),
    ensures
        r == operands_match(*node, *call, *frame, base + popped(*call)),
{
    if call.frame_state_node != node.id || node.pops as usize != frame.stack.len() - base || frame.stack[target]
        != call.site.target {
        return false;
    }
    let argc: usize = call.site.arguments.len();
    let mut k: usize = 0;
    while k < argc
        invariant
            k <= argc == call.site.arguments@.len(),
            frame.stack@.len() == base + popped(*call),
            target == base + this_count(*call),
            call.frame_state_node == node.id,
            node.pops == popped(*call),
            frame.stack@[target as int] == call.site.target,
            forall|j: int| 0 <= j < k ==> frame.stack@[target + 1 + j] == #[trigger] call.site.arguments@[j],
        decreases argc - k,
    {
        let at: usize = frame.stack.len() - (argc - k);
        assert(at == target + 1 + k);
        if frame.stack[at] != call.site.arguments[k] {
            return false;
        }
        k = k + 1;
    }
    match call.site.receiver {
        Some(receiver) => frame.stack[base] == receiver,
        None => true,
    }
}

/// Computes a scalar region in place of a call whose frame is restored.
#[verifier::rlimit(40)]
fn lower_region(
    code: &mut Code,
    env: &OptEnv<'_>,
    ls: &mut LowerState,
    cx: &CallContext<'_>,
    call: &SemanticCall,
    region: &ScalarRegion,
    base: usize,
) -> (r: Result<(), CompileFailure>)
    requires
        env.wf(old(code).len()),
        old(ls)@.wf(*env, old(code).len()),
        cx.wf(),
        cx.call == Some(call),
        call.inline == Some(*region),
        base == old(ls)@.depth - popped(*call),
        !env.int32_loop || cx.feedback is Some,
    ensures
        kept(*old(code), *final(code)),
        r is Ok && env.typed(*old(code)) && state_held(*old(code), *old(ls))
            && guards_named(*old(code), cx.guards.valid@, cx.guards.used@)
            ==> steady(*old(code), *final(code)),
        r is Ok && env.typed(*old(code)) && state_held(*old(code), *old(ls))
            && guards_named(*old(code), cx.guards.valid@, cx.guards.used@)
            ==> state_held(*final(code), *final(ls)),
        r is Ok <==> cx.region_ready(*env, old(ls)@),
        r matches Err(e) ==> e == placed_failure(cx.region_placed(*env, old(ls)@), *env, old(ls)@.provenance, old(ls)@.depth),
        r is Ok ==> final(ls)@.wf(*env, final(code).len()) && old(code).len() <= final(code).len() && region_inlined(
            *cx,
            *env,
            *old(code),
            old(ls)@,
            *final(code),
            final(ls)@,
        ),
{
    let ghost c0 = *code;
    let ghost m = ls@;
    if let Err(e) = cx.hoisted.admit_call(code, env, cx.guards, cx.node, &ls.provenance, ls.depth) {
        return Err(e);
    }
    let ghost c1 = *code;
    let site = NodeSite { id: cx.node.id, pc: cx.node.pc, guard: cx.node.deopt_guard };
    let guarded = cx.hoisted.contains(cx.node.id);
    let pair = match emit_opt_inlined_call(
        code,
        env,
        site,
        &call.site,
        region,
        cx.scalars,
        ls.depth,
        &ls.provenance,
        &ls.values,
        cx.proven,
        guarded,
    ) {
        Ok(pair) => pair,
        Err(e) => {
            return Err(e);
        },
    };
    let ghost c2 = *code;
    opt_define(code, env.stack[base], pair);
    ls.provenance[base] = OptProvenance::ImmediatePrimitive;
    ls.depth = base + 1;
    proof {
        assert(call_admitted(*cx, *env, m, c0, c1));
        assert(region_computed(*cx, *env, m, pair, c1, c2));
        assert(pair_defined(env.stack@[base as int], pair, c2, *code));
    }
    Ok(())
}

/// Emits the callee's bytecode in place of a call whose frame is restored.
#[verifier::rlimit(40)]
fn lower_frame_inline(
    code: &mut Code,
    env: &OptEnv<'_>,
    ls: &mut LowerState,
    cx: &CallContext<'_>,
    call: &SemanticCall,
    region: usize,
    argc: usize,
) -> (r: Result<(), Refusal>)
    requires
        env.wf(old(code).len()),
        old(ls)@.wf(*env, old(code).len()),
        cx.wf(),
        cx.call == Some(call),
        call.frame_region == Some(region),
        argc == call.site.arguments@.len(),
        argc <= 0xffff,
    ensures
        kept(*old(code), *final(code)),
        r is Ok && env.typed(*old(code)) && state_held(*old(code), *old(ls)) ==> steady(*old(code), *final(code)),
        r is Ok && env.typed(*old(code)) && state_held(*old(code), *old(ls)) ==> state_held(*final(code), *final(ls)),
        r is Ok <==> cx.frame_inline_ready(*env, old(ls)@),
        r matches Err(e) ==> e.stage is None && e.failure == placed_failure(
            cx.frame_placed(*env, old(ls)@),
            *env,
            old(ls)@.provenance,
            old(ls)@.depth,
        ),
        r is Ok ==> final(ls)@.wf(*env, final(code).len()) && old(code).len() <= final(code).len() && frame_inlined(
            *cx,
            *env,
            *old(code),
            old(ls)@,
            *final(code),
            final(ls)@,
        ),
{
    let guard = match cx.node.deopt_guard {
        Some(guard) => guard,
        None => {
            return Err(fail(CompileFailure::InvalidArtifact));
        },
    };
    if env.int32_loop || region >= cx.regions.len() {
        return Err(fail(CompileFailure::InvalidArtifact));
    }
    let site = InlineSite { node: cx.node.id, pc: cx.node.pc, argc: argc as u16, depth: ls.depth, guard };
    match crate::frame_inline::emit(code, env, cx.api, cx.regions, region, site, &mut ls.provenance) {
        Ok(depth) => {
            ls.depth = depth;
            Ok(())
        },
        Err(e) => Err(fail(e)),
    }
}

/// Enters the callee directly, or calls it through the runtime.
#[verifier::rlimit(40)]
fn lower_bridge(
    code: &mut Code,
    env: &OptEnv<'_>,
    ls: &mut LowerState,
    cx: &CallContext<'_>,
    call: &SemanticCall,
    argc: usize,
    has_this: bool,
) -> (r: Result<(), Refusal>)
    requires
        env.wf(old(code).len()),
        old(ls)@.wf(*env, old(code).len()),
        cx.call == Some(call),
        argc == call.site.arguments@.len(),
        has_this == (call.site.receiver is Some),
        argc <= 0xffff,
    ensures
        kept(*old(code), *final(code)),
        r is Ok && env.typed(*old(code)) && state_held(*old(code), *old(ls)) ==> steady(*old(code), *final(code)),
        r is Ok && env.typed(*old(code)) && state_held(*old(code), *old(ls)) ==> state_held(*final(code), *final(ls)),
        r is Ok <==> cx.bridge_ready(*env, old(ls)@),
        r matches Err(e) ==> e.failure == cx.bridge_failure(*env, old(ls)@) && e.stage == cx.bridge_stage(*env, old(ls)@),
        r is Ok ==> final(ls)@.wf(*env, final(code).len()) && old(code).len() <= final(code).len() && bridged(
            *cx,
            *env,
            *old(code),
            old(ls)@,
            *final(code),
            final(ls)@,
        ),
{
    let guard = match cx.node.deopt_guard {
        Some(guard) => guard,
        None => {
            return Err(refuse(Tier2CompileStage::GenericCallGuardMissing));
        },
    };
    if env.int32_loop {
        return Err(fail(CompileFailure::InvalidArtifact));
    }
    if let Some(direct) = cx.direct {
        if direct.call.result == FeedbackRepresentation::HeapRef {
            return Err(fail(CompileFailure::InvalidArtifact));
        }
    }
    let scalar_result = match cx.feedback {
        Some(seen) => seen.result != FeedbackRepresentation::HeapRef,
        None => false,
    };
    match emit_opt_specialized_call(
        code,
        env,
        &mut ls.provenance,
        ls.depth,
        argc,
        has_this,
        cx.node.pc,
        cx.direct,
        guard,
        scalar_result,
    ) {
        Ok(depth) => {
            ls.depth = depth;
        },
        Err(e) => {
            let stage = match e.stage {
                Some(stage) => stage,
                None => Tier2CompileStage::GenericCallEmit,
            };
            return Err(Refusal { failure: e.failure, stage: Some(stage) });
        },
    }
    Ok(())
}

/// Lowers a call. The frame is restored first, so that whatever the call does
/// not expect resumes at the call itself.
#[verifier::rlimit(60)]
pub fn lower_call(code: &mut Code, env: &OptEnv<'_>, ls: &mut LowerState, cx: &CallContext<'_>) -> (r: Result<(), Refusal>)
    requires
        env.wf(old(code).len()),
        old(ls)@.wf(*env, old(code).len()),
        cx.wf(),
    ensures
        kept(*old(code), *final(code)),
        r is Ok && env.typed(*old(code)) && state_held(*old(code), *old(ls))
            && guards_named(*old(code), cx.guards.valid@, cx.guards.used@)
            ==> steady(*old(code), *final(code)),
        r is Ok && env.typed(*old(code)) && state_held(*old(code), *old(ls))
            && guards_named(*old(code), cx.guards.valid@, cx.guards.used@)
            ==> state_held(*final(code), *final(ls)),
        r is Ok <==> cx.ready(*env, old(ls)@),
        r matches Err(e) ==> e.failure == cx.failure(*env, old(ls)@) && e.stage == cx.stage(*env, old(ls)@),
        r is Ok ==> final(ls)@.wf(*env, final(code).len()) && old(code).len() <= final(code).len() && call_lowered(
            *cx,
            *env,
            *old(code),
            old(ls)@,
            *final(code),
            final(ls)@,
        ),
{
    let ghost c0 = *code;
    let ghost m = ls@;
    let call = match cx.call {
        Some(call) => call,
        None => {
            return Err(refuse(Tier2CompileStage::GenericCallSemanticMissing));
        },
    };
    if let Err(e) = opt_restore_scalar_frame(code, env, cx.frame, cx.node.pc, ls.depth, &ls.values) {
        return Err(fail(e));
    }
    let ghost c1 = *code;
    let frame = match cx.frame {
        Some(frame) => frame,
        None => {
            return Err(refuse(Tier2CompileStage::GenericCallFrameStateMissing));
        },
    };
    let argc: usize = call.site.arguments.len();
    let has_this = call.site.receiver.is_some();
    let extra: usize = if has_this {
        1
    } else {
        0
    };
    if ls.depth <= argc || ls.depth - argc - 1 < extra {
        return Err(fail(CompileFailure::InvalidArtifact));
    }
    let target: usize = ls.depth - argc - 1;
    let base: usize = target - extra;
    if !match_operands(cx.node, call, frame, base, target) {
        return Err(refuse(Tier2CompileStage::GenericCallShapeMismatch));
    }
    if let Some(seen) = cx.feedback {
        if seen.arguments.len() != argc {
            return Err(refuse(Tier2CompileStage::GenericCallArityMismatch));
        }
    }
    proof {
        assert(frame_restored(*env, *frame, m.values, c0, c1));
    }
    if let Some(region) = call.frame_region {
        return lower_frame_inline(code, env, ls, cx, call, region, argc);
    }
    if cx.feedback.is_none() && env.int32_loop {
        return Err(fail(CompileFailure::InvalidArtifact));
    }
    if let Some(region) = &call.inline {
        if let Err(e) = lower_region(code, env, ls, cx, call, region, base) {
            return Err(fail(e));
        }
        return Ok(());
    }
    lower_bridge(code, env, ls, cx, call, argc, has_this)
}

} // verus!
