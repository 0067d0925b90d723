//! Lowering of one node.
use crate::code::kept;
use crate::code::Code;
use crate::code::State;
use crate::code::Status;
use crate::code::World;
use crate::control::CompileFailure;
use crate::elements::GuardedElementSource;
use crate::element_code::storage_known;
use crate::entry_guards::following_pc;
use crate::entry_guards::next_block_pc;
use crate::entry_guards::SlotRequirements;
use crate::exits::flush;
use crate::exits::placed_failure;
use crate::helpers::flat_stack_slot;
use crate::helpers::opt_flat_stack_slot;
use crate::ir::OptimizedBlock;
use crate::ir::OptimizedNode;
use crate::ir::OptimizedNodeKind;
use crate::ir::ScalarHeapEffect;
use crate::lower_calls::call_lowered;
use crate::lower_calls::lower_call;
use crate::lower_calls::CallContext;
use crate::lower_flow::branch_ready;
use crate::lower_flow::branched;
use crate::lower_flow::jumped;
use crate::lower_flow::lower_branch;
use crate::lower_flow::lower_return;
use crate::lower_flow::lower_return_undefined;
use crate::lower_flow::result_addressable;
use crate::lower_flow::return_ready;
use crate::lower_flow::returned;
use crate::lower_flow::returned_undefined;
use crate::lower_heap::bounds_covered;
use crate::lower_heap::clear_cache;
use crate::lower_heap::cleared;
use crate::lower_heap::element_loaded;
use crate::lower_heap::element_stored;
use crate::lower_heap::expected_mode;
use crate::lower_heap::field_lowered;
use crate::lower_heap::field_ready;
use crate::lower_heap::key_checked;
use crate::lower_heap::key_ready;
use crate::lower_heap::length_read;
use crate::lower_heap::length_ready;
use crate::lower_heap::load_ready;
use crate::lower_heap::lower_element_load;
use crate::lower_heap::lower_element_store;
use crate::lower_heap::lower_field;
use crate::lower_heap::lower_length;
use crate::lower_heap::lower_owned_push;
use crate::lower_heap::lower_property_key;
use crate::lower_heap::owned_push_ready;
use crate::lower_heap::owned_pushed;
use crate::lower_heap::published;
use crate::lower_heap::FieldSite;
use crate::lower_moves::lower_reuse;
use crate::lower_moves::reuse_ready;
use crate::lower_moves::reused;
use crate::lower_polls::eliminated;
use crate::lower_polls::elimination_ready;
use crate::lower_polls::lower_amortized_poll;
use crate::lower_polls::lower_eliminated;
use crate::lower_polls::lower_poll;
use crate::lower_polls::polled_always;
use crate::lower_polls::polled_sometimes;
use crate::lower_polls::PollContext;
use crate::lowering::LowerState;
use crate::lowering::Lowered;
use crate::machine::move_lowered;
use crate::machine::move_ready;
use crate::machine::number_lowered;
use crate::machine::number_ready;
use crate::machine::Machine;
use crate::opcodes::atom_of;
use crate::opcodes::classify;
use crate::opcodes::find_atom;
use crate::opcodes::op_kind;
use crate::opcodes::FlowKind;
use crate::opcodes::HeapKind;
use crate::opcodes::OpKind;
use crate::property_cache::PropertyBoundary;
use crate::scalar::edge_moves;
use crate::scalar::moved;
use crate::scalar::moves_held;
use crate::scalar::opt_define_scalar_edges;
use crate::specialization::EntryRepresentation;
use crate::stages::Refusal;
use crate::stages::Tier2CompileStage;
use crate::helpers::owned_push_failure;
use crate::lower_heap::field_failure;
use crate::lower_heap::key_failure;
use crate::lower_heap::length_failure;
use crate::lower_heap::load_failure;
use crate::machine::move_failure;
use crate::machine::numeric_failure;
use crate::typing::steady;
use crate::typing::closing;
use crate::typing::calm;
use crate::assemble::Known;
use crate::frame_typing::pair_held;
use crate::frame_typing::slot_named;
use crate::frame_typing::slots_named;
use crate::frame_typing::cached_named;
use crate::frame_typing::cache_named;
use crate::frame_typing::state_held;
use crate::frame_typing::source_held;
use vstd::prelude::*;

verus! {

broadcast use {
    crate::typing::group_typing,
    crate::frame_typing::group_frame,
    vstd::std_specs::btree::group_btree_axioms,
    crate::exits::own_failures,
};

/// A property access of the node.
pub open spec fn field_site<'a>(mx: Machine<'a>, node: &'a OptimizedNode, store: bool) -> FieldSite<'a> {
    FieldSite {
        node,
        atom: atom_of(node.bytes@),
        observations: if mx.specialization.properties@.contains_key(node.pc) {
            Some(&mx.specialization.properties@[node.pc])
        } else {
            None
        },
        access: if mx.accesses@[node.id as int] is Some {
            Some(&mx.accesses@[node.id as int]->Some_0)
        } else {
            None
        },
        forwarded: mx.forwarded@.contains(node.id),
        store,
        guard: match node.deopt_guard {
            Some(guard) => guard,
            None => mx.entry_guard,
        },
    }
}

/// The call of the node.
pub open spec fn call_context<'a>(mx: Machine<'a>, node: &'a OptimizedNode) -> CallContext<'a> {
    CallContext {
        node,
        call: if mx.calls@[node.id as int] is Some {
            Some(&mx.calls@[node.id as int]->Some_0)
        } else {
            None
        },
        frame: if mx.scalar_nodes@[node.id as int].frame is Some {
            Some(&mx.scalar_nodes@[node.id as int].frame->Some_0)
        } else {
            None
        },
        feedback: if mx.specialization.calls@.contains_key(node.pc) {
            Some(&mx.specialization.calls@[node.pc])
        } else {
            None
        },
        direct: if mx.direct_calls@.contains_key(node.pc) {
            Some(&mx.direct_calls@[node.pc])
        } else {
            None
        },
        scalars: &mx.ir.values,
        proven: mx.proven,
        hoisted: mx.hoisted,
        guards: mx.guards,
        api: mx.api,
        regions: mx.regions,
    }
}

pub open spec fn heap_ready(mx: Machine<'_>, node: OptimizedNode, kind: HeapKind, m: Lowered) -> bool {
    let env = *mx.env;
    match kind {
        HeapKind::Global(_) => owned_push_ready(env, env.abi.helper_get_global, m),
        HeapKind::PropertyBehind(_) => m.depth > 0 && flat_stack_slot(env, m.depth - 1) <= u32::MAX && owned_push_ready(
            env,
            env.abi.helper_get_property,
            m,
        ),
        HeapKind::PropertyKey => key_ready(env, node.deopt_guard, m),
        HeapKind::Field { store } => field_ready(env, *mx.cache, field_site(mx, &node, store), m),
        HeapKind::ElementLoad => load_ready(env, node.deopt_guard, m),
        HeapKind::Length => length_ready(env, m),
        HeapKind::ElementStore => crate::lower_heap::store_ready(env, *mx.arrays, node.id, node.deopt_guard, m),
        HeapKind::Call => call_context(mx, &node).ready(env, m),
    }
}

/// Why an opcode on the heap is not lowered.
pub open spec fn heap_failure(mx: Machine<'_>, node: OptimizedNode, kind: HeapKind, m: Lowered) -> CompileFailure {
    let env = *mx.env;
    match kind {
        HeapKind::Global(_) => owned_push_failure(env, m.provenance, m.depth),
        HeapKind::PropertyBehind(_) => if m.depth == 0 {
            CompileFailure::InvalidArtifact
        } else if flat_stack_slot(env, m.depth - 1) > u32::MAX {
            CompileFailure::ResourceLimit
        } else {
            owned_push_failure(env, m.provenance, m.depth)
        },
        HeapKind::PropertyKey => key_failure(env, node.deopt_guard, m),
        HeapKind::Field { store } => field_failure(env, *mx.cache, field_site(mx, &node, store), m),
        HeapKind::ElementLoad => load_failure(env, node.deopt_guard, m),
        HeapKind::Length => length_failure(env, m),
        HeapKind::ElementStore => crate::lower_heap::store_failure(env, *mx.arrays, node.id, node.deopt_guard, m),
        HeapKind::Call => call_context(mx, &node).failure(env, m),
    }
}

pub open spec fn heap_lowered(
    mx: Machine<'_>,
    node: OptimizedNode,
    kind: HeapKind,
    block: u32,
    a: Code,
    m: Lowered,
    b: Code,
    m2: Lowered,
) -> bool {
    let env = *mx.env;
    match kind {
        HeapKind::Global(atom) => owned_pushed(env, node.pc, env.abi.helper_get_global, seq![atom], a, m, b, m2),
        HeapKind::PropertyBehind(atom) => owned_pushed(
            env,
            node.pc,
            env.abi.helper_get_property,
            seq![flat_stack_slot(env, m.depth - 1) as u32, atom],
            a,
            m,
            b,
            m2,
        ),
        HeapKind::PropertyKey => key_checked(env, node.pc, node.deopt_guard, a, m, b, m2),
        HeapKind::Field { store } => field_lowered(env, *mx.cache, field_site(mx, &node, store), a, m, b, m2),
        HeapKind::ElementLoad => element_loaded(
            env,
            expected_mode(*mx.arrays, node.id, m),
            bounds_covered(*mx.arrays, node.id),
            block,
            node.pc,
            node.deopt_guard,
            a,
            m,
            b,
            m2,
        ),
        HeapKind::Length => length_read(env, node.pc, a, m, b, m2),
        HeapKind::ElementStore => element_stored(
            env,
            *mx.arrays,
            node.id,
            block,
            node.pc,
            node.deopt_guard,
            a,
            m,
            b,
            m2,
        ),
        HeapKind::Call => call_lowered(call_context(mx, &node), env, a, m, b, m2),
    }
}

fn fail(failure: CompileFailure) -> (r: Refusal)
    ensures
        r == (Refusal { failure, stage: None }),
{
    Refusal { failure, stage: None }
}

impl<'a> Machine<'a> {
    fn lower_push(&self, code: &mut Code, ls: &mut LowerState, node: &OptimizedNode, kind: HeapKind) -> (r: Result<
        (),
        CompileFailure,
    >)
        requires
            self.wf(old(code).len()),
            old(ls)@.wf(*self.env, old(code).len()),
            kind is Global || kind is PropertyBehind,
        ensures
            kept(*old(code), *final(code)),
            r is Ok && self.typed(*old(code)) && state_held(*old(code), *old(ls)) ==> steady(*old(code), *final(code)),
            r is Ok && self.typed(*old(code)) && state_held(*old(code), *old(ls))
                ==> state_held(*final(code), *final(ls)),
            r is Ok <==> heap_ready(*self, *node, kind, old(ls)@),
            r matches Err(e) ==> e == heap_failure(*self, *node, kind, old(ls)@),
            r is Ok ==> final(ls)@.wf(*self.env, final(code).len()) && heap_lowered(
                *self,
                *node,
                kind,
                0,
                *old(code),
                old(ls)@,
                *final(code),
                final(ls)@,
            ),
    {
        let env = self.env;
        let mut extra: Vec<u32> = Vec::new();
        match kind {
            HeapKind::Global(atom) => {
                extra.push(atom);
                assert(extra@ =~= seq![atom]);
                lower_owned_push(code, env, ls, node.pc, env.abi.helper_get_global, &extra)
            },
            HeapKind::PropertyBehind(atom) => {
                if ls.depth == 0 {
                    return Err(CompileFailure::InvalidArtifact);
                }
                let receiver = match opt_flat_stack_slot(env, ls.depth - 1) {
                    Ok(receiver) => receiver,
                    Err(e) => {
                        return Err(e);
                    },
                };
                extra.push(receiver);
                extra.push(atom);
                assert(extra@ =~= seq![receiver, atom]);
                lower_owned_push(code, env, ls, node.pc, env.abi.helper_get_property, &extra)
            },
            _ => Err(CompileFailure::InvalidArtifact),
        }
    }

    fn lower_field_node(&self, code: &mut Code, ls: &mut LowerState, node: &'a OptimizedNode, store: bool) -> (r: Result<
        (),
        Refusal,
    >)
        requires
            self.wf(old(code).len()),
            old(ls)@.wf(*self.env, old(code).len()),
            node.id < self.ir.nodes@.len(),
        ensures
            kept(*old(code), *final(code)),
            r is Ok && self.typed(*old(code)) && state_held(*old(code), *old(ls)) ==> steady(*old(code), *final(code)),
            r is Ok && self.typed(*old(code)) && state_held(*old(code), *old(ls))
                ==> state_held(*final(code), *final(ls)),
            r is Ok <==> heap_ready(*self, *node, HeapKind::Field { store }, old(ls)@),
            r matches Err(e) ==> e == heap_refusal(*self, *node, (HeapKind::Field { store }), old(ls)@),
            r is Ok ==> final(ls)@.wf(*self.env, final(code).len()) && heap_lowered(
                *self,
                *node,
                HeapKind::Field { store },
                0,
                *old(code),
                old(ls)@,
                *final(code),
                final(ls)@,
            ),
    {
        let site = FieldSite {
            node,
            atom: find_atom(&node.bytes),
            observations: self.specialization.properties.get(&node.pc),
            access: self.accesses[node.id as usize].as_ref(),
            forwarded: self.forwarded.contains(&node.id),
            store,
            guard: match node.deopt_guard {
                Some(guard) => guard,
                None => self.entry_guard,
            },
        };
        match lower_field(code, self.env, self.cache, ls, &site) {
            Ok(_) => Ok(()),
            Err(failure) => {
                let missing = failure == CompileFailure::InvalidArtifact && site.observations.is_none() && site.access.is_none();
                Err(
                    Refusal {
                        failure,
                        stage: if missing {
                            Some(Tier2CompileStage::PropertyFeedbackMissing)
                        } else {
                            None
                        },
                    },
                )
            },
        }
    }

    fn lower_call_node(&self, code: &mut Code, ls: &mut LowerState, node: &'a OptimizedNode) -> (r: Result<(), Refusal>)
        requires
            self.wf(old(code).len()),
            old(ls)@.wf(*self.env, old(code).len()),
            node.id < self.ir.nodes@.len(),
        ensures
            kept(*old(code), *final(code)),
            r is Ok && self.typed(*old(code)) && state_held(*old(code), *old(ls)) ==> steady(*old(code), *final(code)),
            r is Ok && self.typed(*old(code)) && state_held(*old(code), *old(ls))
                ==> state_held(*final(code), *final(ls)),
            r is Ok <==> heap_ready(*self, *node, HeapKind::Call, old(ls)@),
            r matches Err(e) ==> e == heap_refusal(*self, *node, HeapKind::Call, old(ls)@),
            r is Ok ==> final(ls)@.wf(*self.env, final(code).len()) && old(code).len() <= final(code).len() && heap_lowered(
                *self,
                *node,
                HeapKind::Call,
                0,
                *old(code),
                old(ls)@,
                *final(code),
                final(ls)@,
            ),
    {
        let cx = CallContext {
            node,
            call: self.calls[node.id as usize].as_ref(),
            frame: self.scalar_nodes[node.id as usize].frame.as_ref(),
            feedback: self.specialization.calls.get(&node.pc),
            direct: self.direct_calls.get(&node.pc),
            scalars: &self.ir.values,
            proven: self.proven,
            hoisted: self.hoisted,
            guards: self.guards,
            api: self.api,
            regions: self.regions,
        };
        lower_call(code, self.env, ls, &cx)
    }

    /// Lowers an opcode that reaches the heap.
    #[verifier::rlimit(40)]
    pub fn lower_heap_node(
        &self,
        code: &mut Code,
        ls: &mut LowerState,
        node: &'a OptimizedNode,
        kind: HeapKind,
        block: u32,
    ) -> (r: Result<(), Refusal>)
        requires
            self.wf(old(code).len()),
            old(ls)@.wf(*self.env, old(code).len()),
            node.id < self.ir.nodes@.len(),
        ensures
            kept(*old(code), *final(code)),
            r is Ok && self.typed(*old(code)) && state_held(*old(code), *old(ls)) ==> steady(*old(code), *final(code)),
            r is Ok && self.typed(*old(code)) && state_held(*old(code), *old(ls))
                ==> state_held(*final(code), *final(ls)),
            r is Ok <==> heap_ready(*self, *node, kind, old(ls)@),
            r matches Err(e) ==> e == heap_refusal(*self, *node, kind, old(ls)@),
            r is Ok ==> final(ls)@.wf(*self.env, final(code).len()) && old(code).len() <= final(code).len() && heap_lowered(
                *self,
                *node,
                kind,
                block,
                *old(code),
                old(ls)@,
                *final(code),
                final(ls)@,
            ),
    {
        let env = self.env;
        let lowered = match kind {
            HeapKind::Global(_) | HeapKind::PropertyBehind(_) => self.lower_push(code, ls, node, kind),
            HeapKind::PropertyKey => lower_property_key(code, env, ls, node.pc, node.deopt_guard),
            HeapKind::Field { store } => {
                return self.lower_field_node(code, ls, node, store);
            },
            HeapKind::ElementLoad => lower_element_load(
                code,
                env,
                self.arrays,
                ls,
                node.id,
                block,
                node.pc,
                node.deopt_guard,
            ),
            HeapKind::Length => lower_length(code, env, ls, node.pc),
            HeapKind::ElementStore => lower_element_store(
                code,
                env,
                self.arrays,
                ls,
                node.id,
                block,
                node.pc,
                node.deopt_guard,
            ),
            HeapKind::Call => {
                return self.lower_call_node(code, ls, node);
            },
        };
        match lowered {
            Ok(_) => Ok(()),
            Err(e) => Err(fail(e)),
        }
    }
}

/// The block that a branch of the node leads to.
pub open spec fn branch_block(mx: Machine<'_>, node: OptimizedNode) -> Option<usize> {
    match node.branch_target {
        Some(pc) => if mx.blocks@.contains_key(pc) {
            Some(mx.blocks@[pc])
        } else {
            None
        },
        None => None,
    }
}

/// The block behind the block at `pc`.
pub open spec fn next_block(mx: Machine<'_>, pc: u32) -> Option<usize> {
    match following_pc(*mx.ir, pc) {
        Some(next) => if mx.blocks@.contains_key(next) {
            Some(mx.blocks@[next])
        } else {
            None
        },
        None => None,
    }
}

pub open spec fn flow_ready(mx: Machine<'_>, node: OptimizedNode, kind: FlowKind, block: u32, m: Lowered) -> bool {
    let env = *mx.env;
    match kind {
        FlowKind::Branch { .. } => branch_block(mx, node) is Some && next_block(mx, block) is Some && branch_ready(
            env,
            node.deopt_guard,
            m,
        ),
        FlowKind::Jump => branch_block(mx, node) is Some,
        FlowKind::Return => return_ready(env, m),
        FlowKind::ReturnUndefined => result_addressable(env),
    }
}

/// A refusal that no stage is recorded for.
pub open spec fn unstaged(failure: CompileFailure) -> Refusal {
    Refusal { failure, stage: None }
}

/// How a refused opcode on the heap is reported: a call has stages of its own, and
/// so has a field that nothing was seen of.
pub open spec fn heap_refusal(mx: Machine<'_>, node: OptimizedNode, kind: HeapKind, m: Lowered) -> Refusal {
    let failure = heap_failure(mx, node, kind, m);
    Refusal {
        failure,
        stage: match kind {
            HeapKind::Call => call_context(mx, &node).stage(*mx.env, m),
            HeapKind::Field { store } => {
                let site = field_site(mx, &node, store);
                if failure == CompileFailure::InvalidArtifact && site.observations is None && site.access is None {
                    Some(Tier2CompileStage::PropertyFeedbackMissing)
                } else {
                    None
                }
            },
            _ => None,
        },
    }
}

/// Why an opcode that moves control is not lowered.
pub open spec fn flow_failure(mx: Machine<'_>, node: OptimizedNode, kind: FlowKind, block: u32, m: Lowered) -> CompileFailure {
    let env = *mx.env;
    match kind {
        FlowKind::Branch { .. } => placed_failure(
            branch_block(mx, node) is Some && next_block(mx, block) is Some && node.deopt_guard is Some,
            env,
            m.provenance,
            m.depth,
        ),
        FlowKind::Return => placed_failure(0 <= env.abi.result <= 0x7fff_fff0, env, m.provenance, m.depth),
        FlowKind::Jump | FlowKind::ReturnUndefined => CompileFailure::InvalidArtifact,
    }
}

pub open spec fn flow_lowered(
    mx: Machine<'_>,
    node: OptimizedNode,
    kind: FlowKind,
    block: u32,
    a: Code,
    m: Lowered,
    b: Code,
    m2: Lowered,
) -> bool {
    let env = *mx.env;
    match kind {
        FlowKind::Branch { on_true } => branched(
            env,
            on_true,
            branch_block(mx, node)->Some_0,
            next_block(mx, block)->Some_0,
            node.pc,
            node.deopt_guard,
            a,
            m,
            b,
            m2,
        ),
        FlowKind::Jump => jumped(branch_block(mx, node)->Some_0, a, m, b, m2),
        FlowKind::Return => returned(env, node.pc, a, m, b, m2),
        FlowKind::ReturnUndefined => returned_undefined(env, a, m, b, m2),
    }
}

impl<'a> Machine<'a> {
    fn find_branch_block(&self, node: &OptimizedNode) -> (r: Option<usize>)
        ensures
            r == branch_block(*self, *node),
    {
        match node.branch_target {
            Some(pc) => match self.blocks.get(&pc) {
                Some(block) => Some(*block),
                None => None,
            },
            None => None,
        }
    }

    fn find_next_block(&self, pc: u32) -> (r: Option<usize>)
        ensures
            r == next_block(*self, pc),
    {
        match next_block_pc(self.ir, pc) {
            Ok(next) => match self.blocks.get(&next) {
                Some(block) => Some(*block),
                None => None,
            },
            Err(_) => None,
        }
    }

    /// Lowers an opcode that ends its block.
    #[verifier::rlimit(40)]
    pub fn lower_flow_node(&self, code: &mut Code, ls: &mut LowerState, node: &OptimizedNode, kind: FlowKind, block: u32) -> (r: Result<
        (),
        CompileFailure,
    >)
        requires
            self.wf(old(code).len()),
            old(ls)@.wf(*self.env, old(code).len()),
        ensures
            kept(*old(code), *final(code)),
            final(ls).source == old(ls).source,
            r is Ok && self.typed(*old(code)) ==> closing(*old(code), *final(code)),
            r is Ok <==> flow_ready(*self, *node, kind, block, old(ls)@),
            r matches Err(e) ==> e == flow_failure(*self, *node, kind, block, old(ls)@),
            r is Ok ==> final(ls)@.wf(*self.env, final(code).len()) && old(code).len() <= final(code).len() && flow_lowered(
                *self,
                *node,
                kind,
                block,
                *old(code),
                old(ls)@,
                *final(code),
                final(ls)@,
            ),
    {
        let env = self.env;
        match kind {
            FlowKind::Branch { on_true } => {
                match (self.find_branch_block(node), self.find_next_block(block)) {
                    (Some(target), Some(fallthrough)) => lower_branch(
                        code,
                        env,
                        ls,
                        on_true,
                        target,
                        fallthrough,
                        node.pc,
                        node.deopt_guard,
                    ),
                    _ => Err(CompileFailure::InvalidArtifact),
                }
            },
            FlowKind::Jump => {
                match self.find_branch_block(node) {
                    Some(target) => {
                        code.jump(target);
                        Ok(())
                    },
                    None => Err(CompileFailure::InvalidArtifact),
                }
            },
            FlowKind::Return => lower_return(code, env, ls, node.pc),
            FlowKind::ReturnUndefined => lower_return_undefined(code, env, ls),
        }
    }
}

/// The guard at a loop header.
pub open spec fn poll_context<'a>(mx: Machine<'a>, node: OptimizedNode, guard: u32, source: Option<GuardedElementSource>) -> PollContext<'a> {
    PollContext {
        requirements: &SlotRequirements {
            argument_count: mx.env.arguments@.len() as usize,
            owned_locals: mx.owned_locals,
            representations: &mx.specialization.arguments,
            representation: EntryRepresentation::Numeric,
        },
        side_path: match mx.side_path {
            Some(profile) => if profile.guard == guard {
                Some(profile)
            } else {
                None
            },
            None => None,
        },
        hoisted: mx.hoisted,
        guards: mx.guards,
        cache: mx.cache,
        budget: mx.budget,
        defer_locals: mx.defer_locals,
        source,
        pc: node.pc,
        guard,
    }
}

pub open spec fn is_loop_poll(node: OptimizedNode) -> bool {
    node.kind matches OptimizedNodeKind::GuardNumeric { mid_loop, .. } && mid_loop
}

pub open spec fn op_ready(mx: Machine<'_>, node: OptimizedNode, block: u32, source: Option<GuardedElementSource>, m: Lowered) -> bool {
    let env = *mx.env;
    match node.kind {
        OptimizedNodeKind::GuardNumeric { guard, mid_loop } => {
            let p = poll_context(mx, node, guard, source);
            !mid_loop || if mx.amortized_poll {
                p.amortized_ready(env, m)
            } else {
                crate::frame::helper_known(env, env.abi.helper_poll) && p.source_ready(env, m)
            }
        },
        OptimizedNodeKind::Reuse { source: from } => reuse_ready(env, from, node.pops as int, m),
        OptimizedNodeKind::Bytecode { .. } => match op_kind(node) {
            OpKind::Move(kind) => move_ready(mx, node, kind, m),
            OpKind::Number(kind) => number_ready(mx, node, kind, m),
            OpKind::Heap(kind) => heap_ready(mx, node, kind, m),
            OpKind::Flow(kind) => flow_ready(mx, node, kind, block, m),
            OpKind::Unsupported | OpKind::Malformed => false,
        },
    }
}

/// Why a node that is not eliminated is not lowered.
pub open spec fn op_failure(mx: Machine<'_>, node: OptimizedNode, block: u32, source: Option<GuardedElementSource>, m: Lowered) -> CompileFailure {
    let env = *mx.env;
    match node.kind {
        OptimizedNodeKind::GuardNumeric { guard, mid_loop } => {
            let p = poll_context(mx, node, guard, source);
            if mx.amortized_poll {
                p.amortized_failure(env, m)
            } else {
                placed_failure(
                    crate::frame::helper_known(env, env.abi.helper_poll) && p.source_placed(env),
                    env,
                    m.provenance,
                    m.depth,
                )
            }
        },
        OptimizedNodeKind::Reuse { .. } => CompileFailure::InvalidArtifact,
        OptimizedNodeKind::Bytecode { .. } => match op_kind(node) {
            OpKind::Move(kind) => move_failure(mx, node, kind, m),
            OpKind::Number(kind) => numeric_failure(mx, node, kind, m),
            OpKind::Heap(kind) => heap_failure(mx, node, kind, m),
            OpKind::Flow(kind) => flow_failure(mx, node, kind, block, m),
            OpKind::Unsupported => CompileFailure::UnsupportedOpcode,
            OpKind::Malformed => CompileFailure::InvalidArtifact,
        },
    }
}

pub open spec fn op_refusal(mx: Machine<'_>, node: OptimizedNode, block: u32, source: Option<GuardedElementSource>, m: Lowered) -> Refusal {
    match (node.kind, op_kind(node)) {
        (OptimizedNodeKind::Bytecode { .. }, OpKind::Heap(kind)) => heap_refusal(mx, node, kind, m),
        _ => unstaged(op_failure(mx, node, block, source, m)),
    }
}

pub open spec fn op_lowered(
    mx: Machine<'_>,
    node: OptimizedNode,
    block: u32,
    source: Option<GuardedElementSource>,
    a: Code,
    m: Lowered,
    b: Code,
    m2: Lowered,
) -> bool {
    let env = *mx.env;
    match node.kind {
        OptimizedNodeKind::GuardNumeric { guard, mid_loop } => {
            let p = poll_context(mx, node, guard, source);
            if !mid_loop {
                b.insts@ == a.insts@ && m2 == m
            } else if mx.amortized_poll {
                polled_sometimes(env, p, a, m, b, m2)
            } else {
                polled_always(env, p, a, m, b, m2)
            }
        },
        OptimizedNodeKind::Reuse { source: from } => reused(env, node.id, from, node.pops as int, a, m, b, m2),
        OptimizedNodeKind::Bytecode { .. } => match op_kind(node) {
            OpKind::Move(kind) => move_lowered(mx, node, kind, a, m, b, m2),
            OpKind::Number(kind) => number_lowered(mx, node, kind, a, m, b, m2),
            OpKind::Heap(kind) => heap_lowered(mx, node, kind, block, a, m, b, m2),
            OpKind::Flow(kind) => flow_lowered(mx, node, kind, block, a, m, b, m2),
            OpKind::Unsupported | OpKind::Malformed => false,
        },
    }
}

/// The node ends its block.
pub open spec fn terminates(node: OptimizedNode) -> bool {
    !node.eliminated && node.kind is Bytecode && op_kind(node) is Flow
}

/// The node leaves for another block of the function.
pub open spec fn leaves_block(node: OptimizedNode) -> bool {
    node.kind is Bytecode && (op_kind(node) matches OpKind::Flow(kind) && (kind is Branch || kind is Jump))
}

/// What has to be published before the node.
pub open spec fn boundary_code(mx: Machine<'_>, node: OptimizedNode, a: Code, b: Code) -> bool {
    if is_loop_poll(node) && mx.amortized_poll {
        b.insts@ == a.insts@
    } else {
        match mx.boundaries@[node.id as int] {
            PropertyBoundary::Keep => b.insts@ == a.insts@,
            PropertyBoundary::Flush => published(mx.cache.entries@, a, b),
            PropertyBoundary::FlushInvalidate => cleared(mx.cache.entries@, a, b),
        }
    }
}

/// What is still known of array storage at the node.
pub open spec fn settled(mx: Machine<'_>, node: OptimizedNode, source: Option<GuardedElementSource>, m: Lowered) -> Lowered {
    let planned = mx.arrays.candidates@.len() > 0;
    let dropped = if node.id < mx.arrays.invalidations@.len() {
        mx.arrays.invalidations@[node.id as int]
    } else {
        true
    };
    if planned && dropped && !(is_loop_poll(node) && source is Some) {
        m.forget()
    } else if !planned && node.kind is Bytecode && node.effect == ScalarHeapEffect::Reentrant {
        m.forget()
    } else {
        m
    }
}

/// The moves that the edges out of the block ask for.
pub open spec fn block_moves(mx: Machine<'_>, block: OptimizedBlock) -> Option<Seq<crate::scalar::Bind>> {
    edge_moves(*mx.ir, mx.edges@, mx.phis@, block.successors@, block.start_pc, block.successors@.len())
}

pub open spec fn edges_ready(mx: Machine<'_>, block: OptimizedBlock, m: Lowered) -> bool {
    block_moves(mx, block) matches Some(moves) && moves_held(m.values, moves)
}

/// The values that enter the successors are in place.
pub open spec fn edges_defined(mx: Machine<'_>, block: OptimizedBlock, m: Lowered, a: Code, b: Code) -> bool {
    &&& a.len() <= b.len()
    &&& block_moves(mx, block) matches Some(moves) && forall|w: World| #[trigger]
        b.at(w) == (match a.at(w) {
            Status::Run(s) => Status::Run(State { vars: moved(s.vars, s.vals, moves, m.values, moves.len()), ..s }),
            st => st,
        })
}

pub open spec fn node_ready(
    mx: Machine<'_>,
    node: OptimizedNode,
    block: OptimizedBlock,
    source: Option<GuardedElementSource>,
    m: Lowered,
) -> bool {
    if node.eliminated {
        elimination_ready(*mx.env, node.pops, node.pushes, m)
    } else {
        &&& leaves_block(node) ==> edges_ready(mx, block, m)
        &&& op_ready(mx, node, block.start_pc, source, settled(mx, node, source, m))
    }
}

/// Why a node is not lowered.
pub open spec fn node_refusal(
    mx: Machine<'_>,
    node: OptimizedNode,
    block: OptimizedBlock,
    source: Option<GuardedElementSource>,
    m: Lowered,
) -> Refusal {
    if node.eliminated || leaves_block(node) && !edges_ready(mx, block, m) {
        unstaged(CompileFailure::InvalidArtifact)
    } else {
        op_refusal(mx, node, block.start_pc, source, settled(mx, node, source, m))
    }
}

/// Everything that lowering a node emits.
pub open spec fn node_lowered(
    mx: Machine<'_>,
    node: OptimizedNode,
    block: OptimizedBlock,
    source: Option<GuardedElementSource>,
    a: Code,
    m: Lowered,
    b: Code,
    m2: Lowered,
) -> bool {
    if node.eliminated {
        eliminated(*mx.env, node.pops, node.pushes, a, m, b, m2)
    } else {
        exists|c1: Code, c2: Code|
            {
                &&& #[trigger] boundary_code(mx, node, a, c1)
                &&& if leaves_block(node) {
                    edges_defined(mx, block, m, c1, c2)
                } else {
                    c2 == c1
                }
                &&& #[trigger] op_lowered(
                    mx,
                    node,
                    block.start_pc,
                    source,
                    c2,
                    settled(mx, node, source, m),
                    b,
                    m2,
                )
            }
    }
}

impl<'a> Machine<'a> {
    fn lower_guard(
        &self,
        code: &mut Code,
        ls: &LowerState,
        node: &OptimizedNode,
        guard: u32,
        mid_loop: bool,
        source: Option<GuardedElementSource>,
    ) -> (r: Result<(), CompileFailure>)
        requires
            self.wf(old(code).len()),
            ls@.wf(*self.env, old(code).len()),
            node.kind == (OptimizedNodeKind::GuardNumeric { guard, mid_loop }),
            source matches Some(found) ==> storage_known(found.storage, old(code).len()),
        ensures
            kept(*old(code), *final(code)),
            r is Ok && self.typed(*old(code)) && source_held(*old(code), source) ==> steady(*old(code), *final(code)),
            r is Ok <==> op_ready(*self, *node, 0, source, ls@),
            r matches Err(e) ==> e == op_failure(*self, *node, 0, source, ls@),
            r is Ok ==> old(code).len() <= final(code).len() && op_lowered(
                *self,
                *node,
                0,
                source,
                *old(code),
                ls@,
                *final(code),
                ls@,
            ),
    {
        if !mid_loop {
            return Ok(());
        }
        let requirements = SlotRequirements {
            argument_count: self.env.arguments.len(),
            owned_locals: self.owned_locals,
            representations: &self.specialization.arguments,
            representation: EntryRepresentation::Numeric,
        };
        let side_path = match self.side_path {
            Some(profile) => if profile.guard == guard {
                Some(profile)
            } else {
                None
            },
            None => None,
        };
        let p = PollContext {
            requirements: &requirements,
            side_path,
            hoisted: self.hoisted,
            guards: self.guards,
            cache: self.cache,
            budget: self.budget,
            defer_locals: self.defer_locals,
            source,
            pc: node.pc,
            guard,
        };
        assert(p == poll_context(*self, *node, guard, source));
        if self.amortized_poll {
            lower_amortized_poll(code, self.env, ls, &p)
        } else {
            lower_poll(code, self.env, ls, &p)
        }
    }

    /// Lowers what the node itself does.
    #[verifier::rlimit(40)]
    fn lower_op(
        &self,
        code: &mut Code,
        ls: &mut LowerState,
        node: &'a OptimizedNode,
        block: u32,
        source: Option<GuardedElementSource>,
    ) -> (r: Result<(), Refusal>)
        requires
            self.wf(old(code).len()),
            old(ls)@.wf(*self.env, old(code).len()),
            self.owns(*node),
            source matches Some(found) ==> storage_known(found.storage, old(code).len()),
        ensures
            kept(*old(code), *final(code)),
            r is Ok && self.typed(*old(code)) && state_held(*old(code), *old(ls))
                && source_held(*old(code), source) && !(node.kind is Bytecode && op_kind(*node) is Flow)
                ==> steady(*old(code), *final(code)) && state_held(*final(code), *final(ls)),
            r is Ok && self.typed(*old(code)) && state_held(*old(code), *old(ls))
                && source_held(*old(code), source) && (node.kind is Bytecode && op_kind(*node) is Flow)
                ==> closing(*old(code), *final(code)) && source_held(*final(code), final(ls).source),
            r is Ok <==> op_ready(*self, *node, block, source, old(ls)@),
            r matches Err(e) ==> e == op_refusal(*self, *node, block, source, old(ls)@),
            r is Ok ==> final(ls)@.wf(*self.env, final(code).len()) && old(code).len() <= final(code).len() && op_lowered(
                *self,
                *node,
                block,
                source,
                *old(code),
                old(ls)@,
                *final(code),
                final(ls)@,
            ),
    {
        assert(self.ir.nodes@[node.id as int].wf());
        let lowered = match &node.kind {
            OptimizedNodeKind::GuardNumeric { guard, mid_loop } => self.lower_guard(code, ls, node, *guard, *mid_loop, source),
            OptimizedNodeKind::Reuse { source: from } => lower_reuse(
                code,
                self.env,
                ls,
                node.id,
                *from,
                node.pops as usize,
            ),
            OptimizedNodeKind::Bytecode { .. } => match classify(node) {
                OpKind::Move(kind) => self.lower_move(code, ls, node, kind),
                OpKind::Number(kind) => self.lower_number(code, ls, node, kind),
                OpKind::Heap(kind) => {
                    return self.lower_heap_node(code, ls, node, kind, block);
                },
                OpKind::Flow(kind) => self.lower_flow_node(code, ls, node, kind, block),
                OpKind::Unsupported => Err(CompileFailure::UnsupportedOpcode),
                OpKind::Malformed => Err(CompileFailure::InvalidArtifact),
            },
        };
        match lowered {
            Ok(_) => Ok(()),
            Err(e) => Err(fail(e)),
        }
    }

    fn lower_boundary(&self, code: &mut Code, node: &OptimizedNode)
        requires
            self.boundaries@.len() == self.ir.nodes@.len(),
            node.id < self.ir.nodes@.len(),
        ensures
            kept(*old(code), *final(code)),
            self.typed(*old(code)) ==> steady(*old(code), *final(code)),
            old(code).len() <= final(code).len(),
            boundary_code(*self, *node, *old(code), *final(code)),
    {
        let poll = match &node.kind {
            OptimizedNodeKind::GuardNumeric { mid_loop, .. } => *mid_loop,
            _ => false,
        };
        if !(poll && self.amortized_poll) {
            match self.boundaries[node.id as usize] {
                PropertyBoundary::Keep => {},
                PropertyBoundary::Flush => {
                    flush(code, &self.cache.entries);
                },
                PropertyBoundary::FlushInvalidate => {
                    clear_cache(code, &self.cache.entries);
                },
            }
        }
    }

    fn settle(&self, node: &OptimizedNode, source: Option<GuardedElementSource>, ls: &mut LowerState)
        ensures
            final(ls)@ == settled(*self, *node, source, old(ls)@),
    {
        let poll = match &node.kind {
            OptimizedNodeKind::GuardNumeric { mid_loop, .. } => *mid_loop,
            _ => false,
        };
        let bytecode = matches!(&node.kind, OptimizedNodeKind::Bytecode { .. });
        if !self.arrays.is_empty() {
            if self.arrays.invalidates_before(node.id) && !(poll && source.is_some()) {
                ls.forget_source();
            }
        } else if bytecode && node.effect == ScalarHeapEffect::Reentrant {
            ls.forget_source();
        }
    }

    /// Lowers a node; answers whether it ends its block.
    #[verifier::rlimit(40)]
    pub fn lower_node(
        &self,
        code: &mut Code,
        ls: &mut LowerState,
        node: &'a OptimizedNode,
        block: &OptimizedBlock,
        source: Option<GuardedElementSource>,
    ) -> (r: Result<bool, Refusal>)
        requires
            self.wf(old(code).len()),
            old(ls)@.wf(*self.env, old(code).len()),
            self.owns(*node),
            source matches Some(found) ==> storage_known(found.storage, old(code).len()),
        ensures
            kept(*old(code), *final(code)),
            r is Ok && self.typed(*old(code)) && state_held(*old(code), *old(ls))
                && source_held(*old(code), source) && !terminates(*node)
                ==> steady(*old(code), *final(code)) && state_held(*final(code), *final(ls)),
            r is Ok && self.typed(*old(code)) && state_held(*old(code), *old(ls))
                && source_held(*old(code), source) && terminates(*node)
                ==> closing(*old(code), *final(code)) && source_held(*final(code), final(ls).source),
            r is Ok <==> node_ready(*self, *node, *block, source, old(ls)@),
            r matches Err(e) ==> e == node_refusal(*self, *node, *block, source, old(ls)@),
            r matches Ok(ends) ==> {
                &&& ends == terminates(*node)
                &&& final(ls)@.wf(*self.env, final(code).len())
                &&& old(code).len() <= final(code).len()
                &&& node_lowered(
                    *self,
                    *node,
                    *block,
                    source,
                    *old(code),
                    old(ls)@,
                    *final(code),
                    final(ls)@,
                )
            },
    {
        let ghost c0 = *code;
        if node.eliminated {
            return match lower_eliminated(code, self.env, ls, node.pops, node.pushes) {
                Ok(_) => Ok(false),
                Err(e) => Err(fail(e)),
            };
        }
        self.lower_boundary(code, node);
        let ghost c1 = *code;
        let bytecode = matches!(&node.kind, OptimizedNodeKind::Bytecode { .. });
        let kind = if bytecode {
            Some(classify(node))
        } else {
            None
        };
        let ends = matches!(kind, Some(OpKind::Flow(_)));
        let leaves = matches!(kind, Some(OpKind::Flow(FlowKind::Branch { .. } | FlowKind::Jump)));
        if leaves {
            if let Err(e) = opt_define_scalar_edges(code, self.ir, self.edges, self.phis, block, &ls.values) {
                return Err(fail(e));
            }
        }
        let ghost c2 = *code;
        self.settle(node, source, ls);
        if let Err(e) = self.lower_op(code, ls, node, block.start_pc, source) {
            return Err(e);
        }
        proof {
            assert(boundary_code(*self, *node, c0, c1));
            assert(op_lowered(
                *self,
                *node,
                block.start_pc,
                source,
                c2,
                settled(*self, *node, source, old(ls)@),
                *code,
                ls@,
            ));
        }
        Ok(ends)
    }
}

} // verus!
