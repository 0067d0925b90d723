//! What lowering the nodes of a function is given, and the lowering of the
//! opcodes that move values or compute numbers.
use crate::arithmetic::emit_opt_equality;
use crate::arithmetic::emit_opt_mod;
use crate::arithmetic::emit_opt_unary;
use crate::arithmetic::equality_post;
use crate::arithmetic::folded;
use crate::arithmetic::is_unary;
use crate::arithmetic::may_deopt;
use crate::arithmetic::mod_post;
use crate::arithmetic::slot_post;
use crate::arithmetic::unary_result;
use crate::array_plan::ArrayPlan;
use crate::call_guards::HoistedCallGuards;
use crate::code::kept;
use crate::code::Code;
use crate::code::Status;
use crate::code::Ty;
use crate::code::World;
use crate::control::CompileFailure;
use crate::exits::placed_failure;
use crate::frame::helper_known;
use crate::frame::OptEnv;
use crate::guard_code::state_wf;
use crate::guard_code::GuardState;
use crate::helpers::flat_stack_slot;
use crate::helpers::opt_flat_stack_slot;
use crate::inline_frames::FrameRegion;
use crate::inline_frames::InlineApi;
use crate::inline_regions::regions_wf;
use crate::ir::node_name;
use crate::ir::FrameSlot;
use crate::ir::OptimizedIr;
use crate::ir::OptimizedNode;
use crate::lower_calls::SemanticCall;
use crate::lower_heap::lower_owned_copy;
use crate::lower_heap::owned_push_ready;
use crate::lower_heap::owner_copied;
use crate::lower_moves::constant_pushed;
use crate::lower_moves::lower_constant;
use crate::lower_moves::lower_read;
use crate::lower_moves::lower_shuffle;
use crate::lower_moves::lower_store;
use crate::lower_moves::lower_tag_test;
use crate::lower_moves::lower_uninitialized;
use crate::lower_moves::shuffle_ready;
use crate::lower_moves::shuffled;
use crate::lower_moves::slot_pushed;
use crate::lower_moves::store_ready;
use crate::lower_moves::stored;
use crate::lower_moves::tag_tested;
use crate::lower_moves::uninitialized;
use crate::lower_moves::Destination;
use crate::lower_numbers::binary_lowered;
use crate::lower_numbers::binary_ready;
use crate::lower_numbers::bitwise_lowered;
use crate::lower_numbers::bitwise_ready;
use crate::lower_numbers::comparison_lowered;
use crate::lower_numbers::comparison_ready;
use crate::lower_numbers::local_add_lowered;
use crate::lower_numbers::local_add_ready;
use crate::lower_numbers::local_update_lowered;
use crate::lower_numbers::local_update_ready;
use crate::lower_numbers::lower_binary;
use crate::lower_numbers::lower_bitwise;
use crate::lower_numbers::lower_comparison;
use crate::lower_numbers::lower_local_add;
use crate::lower_numbers::lower_local_update;
use crate::lower_numbers::lower_update;
use crate::lower_numbers::update_lowered;
use crate::lower_numbers::update_ready;
use crate::lower_numbers::Scalars;
use crate::lower_values::OptVars;
use crate::lowering::LowerState;
use crate::lowering::Lowered;
use crate::names::name_is;
use crate::opcodes::MoveKind;
use crate::opcodes::NumberKind;
use crate::property_cache::PropertyAccessPlan;
use crate::property_cache::PropertyBoundary;
use crate::property_cache::PropertyCache;
use crate::provenance::OptProvenance;
use crate::runtime::SidePathProfile;
use crate::scalar::OperandMode;
use crate::scalar::PhiEdge;
use crate::scalar_ops::NodeSite;
use crate::scalar_ops::ScalarNode;
use crate::specialization::NumericSpecialization;
use crate::specialized_calls::DirectCallSite;
use std::collections::BTreeMap;
use std::collections::BTreeSet;
use crate::helpers::owned_push_failure;
use crate::lower_moves::release_failure;
use crate::lower_moves::shuffle_failure;
use crate::lower_moves::store_failure;
use crate::lower_moves::tag_failure;
use crate::lower_numbers::number_failure;
use crate::lower_numbers::update_placed;
use crate::scalar::ScalarOperation;
use crate::typing::steady;
use crate::typing::closing;
use crate::typing::calm;
use crate::assemble::Known;
use crate::frame_typing::pair_held;
use crate::frame_typing::slot_named;
use crate::frame_typing::slots_named;
use crate::frame_typing::cached_named;
use crate::frame_typing::cache_named;
use crate::frame_typing::state_held;
use vstd::prelude::*;

verus! {

broadcast use {
    crate::typing::group_typing,
    crate::frame_typing::group_frame,
    vstd::std_specs::btree::group_btree_axioms,
    crate::exits::own_failures,
};

/// Everything that is settled before the first node is lowered.
pub struct Machine<'a> {
    pub env: &'a OptEnv<'a>,
    pub ir: &'a OptimizedIr,
    pub specialization: &'a NumericSpecialization,
    /// The locals that may own their value.
    pub owned_locals: &'a Vec<bool>,
    /// Locals are published at polls and exits alone.
    pub defer_locals: bool,
    pub amortized_poll: bool,
    pub side_path: Option<SidePathProfile>,
    /// What is proven of the scalar values.
    pub proven: &'a Vec<Option<OperandMode>>,
    /// What the scalar graph says of each node.
    pub scalar_nodes: &'a Vec<ScalarNode>,
    pub definitions: &'a Vec<Vec<(FrameSlot, usize)>>,
    pub calls: &'a Vec<Option<SemanticCall>>,
    pub edges: &'a Vec<PhiEdge>,
    pub phis: &'a BTreeMap<usize, OptVars>,
    pub direct_calls: &'a BTreeMap<u32, DirectCallSite>,
    /// The increments that cannot overflow, by program counter.
    pub bounded: &'a BTreeSet<u32>,
    pub cache: &'a PropertyCache,
    pub accesses: &'a Vec<Option<PropertyAccessPlan>>,
    pub boundaries: &'a Vec<PropertyBoundary>,
    /// The accesses whose field stays valid around their loop.
    pub forwarded: &'a BTreeSet<u32>,
    pub arrays: &'a ArrayPlan,
    pub hoisted: &'a HoistedCallGuards,
    pub guards: &'a GuardState,
    pub api: &'a InlineApi,
    pub regions: &'a Vec<FrameRegion>,
    /// The code's blocks, by program counter.
    pub blocks: &'a BTreeMap<u32, usize>,
    pub budget: usize,
    pub entry_guard: u32,
}

impl<'a> Machine<'a> {
    pub open spec fn wf(self, n: int) -> bool {
        &&& self.env.wf(n)
        &&& self.ir.wf()
        &&& self.owned_locals@.len() == self.env.locals@.len()
        &&& self.scalar_nodes@.len() == self.ir.nodes@.len()
        &&& self.definitions@.len() == self.ir.nodes@.len()
        &&& self.calls@.len() == self.ir.nodes@.len()
        &&& self.accesses@.len() == self.ir.nodes@.len()
        &&& self.boundaries@.len() == self.ir.nodes@.len()
        &&& self.cache.wf()
        &&& state_wf(self.hoisted.targets@, *self.guards)
        &&& regions_wf(self.regions@)
        &&& forall|pc: u32| #[trigger] self.blocks@.contains_key(pc) ==> self.blocks@[pc] < n
    }

    pub open spec fn local(self, index: usize, release: bool) -> Destination {
        Destination {
            slot: self.env.locals@[index as int],
            buffer: self.env.var_buf,
            index,
            provenance: OptProvenance::Local(index),
            release: release && self.owned_locals@[index as int],
            publish: !self.env.int32_loop && !self.defer_locals,
        }
    }

    pub open spec fn argument(self, index: usize) -> Destination {
        Destination {
            slot: self.env.arguments@[index as int],
            buffer: self.env.arg_buf,
            index,
            provenance: OptProvenance::Argument(index),
            release: false,
            publish: true,
        }
    }

    pub open spec fn has_local(self, index: usize) -> bool {
        index < self.env.locals@.len()
    }

    pub open spec fn has_argument(self, index: usize) -> bool {
        index < self.env.arguments@.len()
    }

    pub open spec fn scalars(self, node: OptimizedNode) -> Scalars<'a> {
        Scalars {
            site: NodeSite { id: node.id, pc: node.pc, guard: node.deopt_guard },
            node: &self.scalar_nodes@[node.id as int],
            proven: self.proven,
        }
    }

    /// The node is one of the function's.
    pub open spec fn owns(self, node: OptimizedNode) -> bool {
        node.id < self.ir.nodes@.len() && self.ir.nodes@[node.id as int] == node
    }

    fn find_local(&self, index: usize, release: bool) -> (r: Destination)
        requires
            self.has_local(index),
            self.owned_locals@.len() == self.env.locals@.len(),
        ensures
            r == self.local(index, release),
    {
        Destination {
            slot: self.env.locals[index],
            buffer: self.env.var_buf,
            index,
            provenance: OptProvenance::Local(index),
            release: release && self.owned_locals[index],
            publish: !self.env.int32_loop && !self.defer_locals,
        }
    }

    fn find_argument(&self, index: usize) -> (r: Destination)
        requires
            self.has_argument(index),
        ensures
            r == self.argument(index),
    {
        Destination {
            slot: self.env.arguments[index],
            buffer: self.env.arg_buf,
            index,
            provenance: OptProvenance::Argument(index),
            release: false,
            publish: true,
        }
    }
}

/// The shuffle copies a value that its stack slot owns.
pub open spec fn copies_owner(node: OptimizedNode, m: Lowered) -> bool {
    let start = m.depth - node.shuffle->Some_0.take;
    node.name() == "dup"@ && 0 <= start < m.provenance.len() && m.provenance[start] == OptProvenance::OwnedSlot
}

/// Why an opcode that moves values is not lowered.
pub open spec fn move_failure(mx: Machine<'_>, node: OptimizedNode, kind: MoveKind, m: Lowered) -> CompileFailure {
    let env = *mx.env;
    match kind {
        MoveKind::Uninitialized(index) => if mx.has_local(index) {
            release_failure(env)
        } else {
            CompileFailure::InvalidArtifact
        },
        MoveKind::Constant(constant) => if mx.specialization.numeric_constants@.contains_key(constant) {
            CompileFailure::InvalidArtifact
        } else {
            CompileFailure::UnsupportedOpcode
        },
        MoveKind::PutLocal(index) => if mx.has_local(index) {
            store_failure(env, *mx.specialization, mx.local(index, true), true, node.deopt_guard, m)
        } else {
            CompileFailure::InvalidArtifact
        },
        MoveKind::SetLocal(index) => if mx.has_local(index) {
            store_failure(env, *mx.specialization, mx.local(index, false), false, node.deopt_guard, m)
        } else {
            CompileFailure::InvalidArtifact
        },
        MoveKind::PutArgument(index) | MoveKind::SetArgument(index) => if mx.has_argument(index) {
            store_failure(env, *mx.specialization, mx.argument(index), false, node.deopt_guard, m)
        } else {
            CompileFailure::InvalidArtifact
        },
        MoveKind::TagTest { .. } => tag_failure(m),
        MoveKind::Shuffle => if !copies_owner(node, m) {
            shuffle_failure(node.shuffle->Some_0, m)
        } else if flat_stack_slot(env, m.depth - node.shuffle->Some_0.take) > u32::MAX {
            CompileFailure::ResourceLimit
        } else {
            owned_push_failure(env, m.provenance, m.depth)
        },
        _ => CompileFailure::InvalidArtifact,
    }
}

pub open spec fn move_ready(mx: Machine<'_>, node: OptimizedNode, kind: MoveKind, m: Lowered) -> bool {
    let env = *mx.env;
    let slots = env.stack@.len();
    match kind {
        MoveKind::Uninitialized(index) => mx.has_local(index) && (mx.owned_locals@[index as int] ==> !env.int32_loop
            && helper_known(env, env.abi.helper_free)),
        MoveKind::Immediate { .. } => m.depth < slots,
        MoveKind::Constant(constant) => mx.specialization.numeric_constants@.contains_key(constant) && m.depth < slots,
        MoveKind::GetArgument(index) => mx.has_argument(index) && m.depth < slots,
        MoveKind::GetLocal(index) => mx.has_local(index) && m.depth < slots,
        MoveKind::GetFirstLocals => env.locals@.len() >= 2 && m.depth + 1 < slots,
        MoveKind::PutLocal(index) => mx.has_local(index) && store_ready(
            env,
            *mx.specialization,
            mx.local(index, true),
            true,
            node.deopt_guard,
            m,
        ),
        MoveKind::SetLocal(index) => mx.has_local(index) && store_ready(
            env,
            *mx.specialization,
            mx.local(index, false),
            false,
            node.deopt_guard,
            m,
        ),
        MoveKind::PutArgument(index) | MoveKind::SetArgument(index) => mx.has_argument(index) && store_ready(
            env,
            *mx.specialization,
            mx.argument(index),
            false,
            node.deopt_guard,
            m,
        ),
        MoveKind::TagTest { .. } => m.depth > 0 && m.provenance[m.depth - 1] != OptProvenance::OwnedSlot,
        MoveKind::Drop => m.depth > 0,
        MoveKind::Shuffle => if copies_owner(node, m) {
            flat_stack_slot(env, m.depth - node.shuffle->Some_0.take) <= u32::MAX && owned_push_ready(env, env.abi.helper_dup, m)
        } else {
            shuffle_ready(env, node.shuffle->Some_0, m)
        },
        MoveKind::Nop => true,
    }
}

pub open spec fn move_lowered(
    mx: Machine<'_>,
    node: OptimizedNode,
    kind: MoveKind,
    a: Code,
    m: Lowered,
    b: Code,
    m2: Lowered,
) -> bool {
    let env = *mx.env;
    let pc = node.pc;
    let guard = node.deopt_guard;
    match kind {
        MoveKind::Uninitialized(index) => uninitialized(env, mx.local(index, true), a, m, b, m2),
        MoveKind::Immediate { payload, tag, reusable } => constant_pushed(
            env,
            if reusable {
                Some(node.id)
            } else {
                None
            },
            env.payload_type,
            payload as int,
            tag as int,
            a,
            m,
            b,
            m2,
        ),
        MoveKind::Constant(constant) => {
            let c = mx.specialization.numeric_constants@[constant];
            constant_pushed(env, None, Ty::I64, (c.payload as i64) as int, c.tag as int, a, m, b, m2)
        },
        MoveKind::GetArgument(index) => slot_pushed(
            env,
            env.arguments@[index as int],
            OptProvenance::Argument(index),
            a,
            m,
            b,
            m2,
        ),
        MoveKind::GetLocal(index) => slot_pushed(env, env.locals@[index as int], OptProvenance::Local(index), a, m, b, m2),
        MoveKind::GetFirstLocals => {
            let m1 = m.push(OptProvenance::Local(0));
            exists|mid: Code| #[trigger]
                slot_pushed(env, env.locals@[0], OptProvenance::Local(0), a, m, mid, m1) && slot_pushed(
                    env,
                    env.locals@[1],
                    OptProvenance::Local(1),
                    mid,
                    m1,
                    b,
                    m2,
                )
        },
        MoveKind::PutLocal(index) => stored(
            env,
            *mx.specialization,
            mx.local(index, true),
            false,
            pc,
            guard,
            a,
            m,
            b,
            m2,
        ),
        MoveKind::SetLocal(index) => stored(
            env,
            *mx.specialization,
            mx.local(index, false),
            true,
            pc,
            guard,
            a,
            m,
            b,
            m2,
        ),
        MoveKind::PutArgument(index) => stored(env, *mx.specialization, mx.argument(index), false, pc, guard, a, m, b, m2),
        MoveKind::SetArgument(index) => stored(env, *mx.specialization, mx.argument(index), true, pc, guard, a, m, b, m2),
        MoveKind::TagTest { first, second } => tag_tested(env, first as int, second, a, m, b, m2),
        MoveKind::Drop => b.insts@ == a.insts@ && m2 == m.pop(1),
        MoveKind::Shuffle => if copies_owner(node, m) {
            owner_copied(env, pc, flat_stack_slot(env, m.depth - node.shuffle->Some_0.take) as u32, a, m, b, m2)
        } else {
            shuffled(env, node.shuffle->Some_0, a, m, b, m2)
        },
        MoveKind::Nop => b.insts@ == a.insts@ && m2 == m,
    }
}

impl<'a> Machine<'a> {
    fn shuffle(&self, code: &mut Code, ls: &mut LowerState, node: &OptimizedNode) -> (r: Result<(), CompileFailure>)
        requires
            self.env.wf(old(code).len()),
            old(ls)@.wf(*self.env, old(code).len()),
            node.wf(),
            node.shuffle is Some,
        ensures
            kept(*old(code), *final(code)),
            r is Ok && self.typed(*old(code)) && state_held(*old(code), *old(ls)) ==> steady(*old(code), *final(code)),
            r is Ok && self.typed(*old(code)) && state_held(*old(code), *old(ls))
                ==> state_held(*final(code), *final(ls)),
            r is Ok <==> move_ready(*self, *node, MoveKind::Shuffle, old(ls)@),
            r matches Err(e) ==> e == move_failure(*self, *node, MoveKind::Shuffle, old(ls)@),
            r is Ok ==> final(ls)@.wf(*self.env, final(code).len()) && move_lowered(
                *self,
                *node,
                MoveKind::Shuffle,
                *old(code),
                old(ls)@,
                *final(code),
                final(ls)@,
            ),
    {
        match &node.shuffle {
            Some(shuffle) => {
                if name_is(node_name(node), "dup") && ls.depth >= shuffle.take && ls.depth - shuffle.take < ls.provenance.len() {
                    let start: usize = ls.depth - shuffle.take;
                    if ls.provenance[start] == OptProvenance::OwnedSlot {
                        let source = match opt_flat_stack_slot(self.env, start) {
                            Ok(source) => source,
                            Err(e) => {
                                return Err(e);
                            },
                        };
                        return lower_owned_copy(code, self.env, ls, node.pc, source);
                    }
                }
                lower_shuffle(code, self.env, ls, shuffle)
            },
            None => Err(CompileFailure::InvalidArtifact),
        }
    }

    /// Lowers an opcode that moves values.
    #[verifier::rlimit(60)]
    pub fn lower_move(&self, code: &mut Code, ls: &mut LowerState, node: &OptimizedNode, kind: MoveKind) -> (r: Result<
        (),
        CompileFailure,
    >)
        requires
            self.wf(old(code).len()),
            old(ls)@.wf(*self.env, old(code).len()),
            node.wf(),
            kind is Shuffle ==> node.shuffle is Some,
        ensures
            kept(*old(code), *final(code)),
            r is Ok && self.typed(*old(code)) && state_held(*old(code), *old(ls)) ==> steady(*old(code), *final(code)),
            r is Ok && self.typed(*old(code)) && state_held(*old(code), *old(ls))
                ==> state_held(*final(code), *final(ls)),
            r is Ok <==> move_ready(*self, *node, kind, old(ls)@),
            r matches Err(e) ==> e == move_failure(*self, *node, kind, old(ls)@),
            r is Ok ==> final(ls)@.wf(*self.env, final(code).len()) && move_lowered(
                *self,
                *node,
                kind,
                *old(code),
                old(ls)@,
                *final(code),
                final(ls)@,
            ),
    {
        let env = self.env;
        match kind {
            MoveKind::Uninitialized(index) => {
                if index >= env.locals.len() {
                    return Err(CompileFailure::InvalidArtifact);
                }
                let to = self.find_local(index, true);
                lower_uninitialized(code, env, ls, to)
            },
            MoveKind::Immediate { payload, tag, reusable } => {
                let keep = if reusable {
                    Some(node.id)
                } else {
                    None
                };
                lower_constant(code, env, ls, keep, env.payload_type, payload as i64, tag as i64)
            },
            MoveKind::Constant(constant) => {
                match self.specialization.numeric_constants.get(&constant) {
                    Some(c) => lower_constant(code, env, ls, None, Ty::I64, c.payload as i64, c.tag),
                    None => Err(CompileFailure::UnsupportedOpcode),
                }
            },
            MoveKind::GetArgument(index) => {
                if index >= env.arguments.len() {
                    return Err(CompileFailure::InvalidArtifact);
                }
                lower_read(code, env, ls, env.arguments[index], OptProvenance::Argument(index))
            },
            MoveKind::GetLocal(index) => {
                if index >= env.locals.len() {
                    return Err(CompileFailure::InvalidArtifact);
                }
                lower_read(code, env, ls, env.locals[index], OptProvenance::Local(index))
            },
            MoveKind::GetFirstLocals => {
                if env.locals.len() < 2 {
                    return Err(CompileFailure::InvalidArtifact);
                }
                let ghost c0 = *code;
                let ghost m = ls@;
                if let Err(e) = lower_read(code, env, ls, env.locals[0], OptProvenance::Local(0)) {
                    return Err(e);
                }
                let ghost mid = *code;
                assert(slot_pushed(
                    *env,
                    env.locals@[0],
                    OptProvenance::Local(0),
                    c0,
                    m,
                    mid,
                    m.push(OptProvenance::Local(0)),
                ));
                lower_read(code, env, ls, env.locals[1], OptProvenance::Local(1))
            },
            MoveKind::PutLocal(index) => {
                if index >= env.locals.len() {
                    return Err(CompileFailure::InvalidArtifact);
                }
                let to = self.find_local(index, true);
                lower_store(code, env, self.specialization, ls, to, false, true, node.pc, node.deopt_guard)
            },
            MoveKind::SetLocal(index) => {
                if index >= env.locals.len() {
                    return Err(CompileFailure::InvalidArtifact);
                }
                let to = self.find_local(index, false);
                lower_store(code, env, self.specialization, ls, to, true, false, node.pc, node.deopt_guard)
            },
            MoveKind::PutArgument(index) => {
                if index >= env.arguments.len() {
                    return Err(CompileFailure::InvalidArtifact);
                }
                let to = self.find_argument(index);
                lower_store(code, env, self.specialization, ls, to, false, false, node.pc, node.deopt_guard)
            },
            MoveKind::SetArgument(index) => {
                if index >= env.arguments.len() {
                    return Err(CompileFailure::InvalidArtifact);
                }
                let to = self.find_argument(index);
                lower_store(code, env, self.specialization, ls, to, true, false, node.pc, node.deopt_guard)
            },
            MoveKind::TagTest { first, second } => lower_tag_test(code, env, ls, first, second),
            MoveKind::Drop => {
                if ls.depth == 0 {
                    return Err(CompileFailure::InvalidArtifact);
                }
                ls.depth = ls.depth - 1;
                Ok(())
            },
            MoveKind::Shuffle => self.shuffle(code, ls, node),
            MoveKind::Nop => Ok(()),
        }
    }
}

/// Two operands are folded into one, by a node that has a guard to leave
/// through.
pub open spec fn folds(env: OptEnv<'_>, node: OptimizedNode, m: Lowered) -> bool {
    m.depth >= 2 && node.deopt_guard is Some && may_deopt(env, m.provenance, m.depth)
}

pub open spec fn is_bounded(mx: Machine<'_>, node: OptimizedNode) -> bool {
    mx.bounded@.contains(node.pc)
}

/// Why an opcode on numbers is not lowered.
pub open spec fn numeric_failure(mx: Machine<'_>, node: OptimizedNode, kind: NumberKind, m: Lowered) -> CompileFailure {
    let env = *mx.env;
    let g = mx.scalars(node);
    match kind {
        NumberKind::Arithmetic => number_failure(
            env,
            g,
            m.depth >= 2,
            g.node.operation matches Some(ScalarOperation::Binary { .. }) && g.site.guard is Some,
            m,
        ),
        NumberKind::Bitwise | NumberKind::Comparison => number_failure(env, g, m.depth >= 2, false, m),
        NumberKind::Remainder | NumberKind::Equality => placed_failure(
            m.depth >= 2 && node.deopt_guard is Some,
            env,
            m.provenance,
            m.depth,
        ),
        NumberKind::Unary => if node.deopt_guard is Some && m.depth > 0 && !is_unary(node.name()) {
            CompileFailure::UnsupportedOpcode
        } else {
            placed_failure(node.deopt_guard is Some, env, m.provenance, m.depth)
        },
        NumberKind::UpdateLocal(index) => number_failure(env, g, mx.has_local(index), update_placed(env, g), m),
        NumberKind::AddLocal(index) => placed_failure(
            mx.has_local(index) && node.deopt_guard is Some,
            env,
            m.provenance,
            m.depth,
        ),
        NumberKind::Update { post } => number_failure(
            env,
            g,
            m.depth > 0 && (post ==> m.depth < env.stack@.len()),
            update_placed(env, g),
            m,
        ),
    }
}

pub open spec fn number_ready(mx: Machine<'_>, node: OptimizedNode, kind: NumberKind, m: Lowered) -> bool {
    let env = *mx.env;
    let g = mx.scalars(node);
    match kind {
        NumberKind::Arithmetic => binary_ready(env, g, m),
        NumberKind::Bitwise => bitwise_ready(env, g, m),
        NumberKind::Remainder | NumberKind::Equality => folds(env, node, m),
        NumberKind::Unary => m.depth > 0 && node.deopt_guard is Some && is_unary(node.name()) && may_deopt(
            env,
            m.provenance,
            m.depth,
        ),
        NumberKind::UpdateLocal(index) => mx.has_local(index) && local_update_ready(env, g, m),
        NumberKind::AddLocal(index) => mx.has_local(index) && local_add_ready(env, node.deopt_guard, m),
        NumberKind::Comparison => comparison_ready(env, g, m),
        NumberKind::Update { post } => update_ready(
            env,
            g,
            is_bounded(mx, node),
            if post {
                1int
            } else {
                0
            },
            m,
        ),
    }
}

pub open spec fn number_lowered(
    mx: Machine<'_>,
    node: OptimizedNode,
    kind: NumberKind,
    a: Code,
    m: Lowered,
    b: Code,
    m2: Lowered,
) -> bool {
    let env = *mx.env;
    let g = mx.scalars(node);
    let guard = node.deopt_guard->Some_0;
    match kind {
        NumberKind::Arithmetic => binary_lowered(env, g, a, m, b, m2),
        NumberKind::Bitwise => bitwise_lowered(env, g, a, m, b, m2),
        NumberKind::Remainder => {
            &&& a.len() <= b.len()
            &&& m2 == Lowered { depth: m.depth - 1, provenance: folded(m.provenance, m.depth - 2), ..m }
            &&& forall|w: World|
                #![trigger b.at(w)]
                mod_post(env, a.at(w), b.at(w), a.len(), m.provenance, m.depth, node.pc, guard, w)
        },
        NumberKind::Equality => {
            &&& a.len() <= b.len()
            &&& m2 == Lowered { depth: m.depth - 1, provenance: folded(m.provenance, m.depth - 2), ..m }
            &&& forall|w: World|
                #![trigger b.at(w)]
                equality_post(env, a.at(w), b.at(w), a.len(), node.name(), m.provenance, m.depth, node.pc, guard, w)
        },
        NumberKind::Unary => {
            &&& a.len() <= b.len()
            &&& m2 == Lowered { provenance: m.provenance.update(m.depth - 1, OptProvenance::ImmediatePrimitive), ..m }
            &&& forall|w: World|
                #![trigger b.at(w)]
                match a.at(w) {
                    Status::Run(s) => slot_post(
                        env,
                        b.at(w),
                        s,
                        a.len(),
                        unary_result(
                            node.name(),
                            env.int32_loop,
                            s.vars[env.stack@[m.depth - 1].payload as int],
                            s.vars[env.stack@[m.depth - 1].tag as int],
                            w,
                        ),
                        m.depth - 1,
                        m.provenance,
                        m.depth,
                        node.pc,
                        guard,
                        w,
                    ),
                    st => b.at(w) == st,
                }
        },
        NumberKind::UpdateLocal(index) => local_update_lowered(env, g, mx.local(index, false), a, m, b, m2),
        NumberKind::AddLocal(index) => local_add_lowered(
            env,
            mx.local(index, false),
            node.pc,
            node.deopt_guard,
            a,
            m,
            b,
            m2,
        ),
        NumberKind::Comparison => comparison_lowered(env, g, a, m, b, m2),
        NumberKind::Update { post } => update_lowered(env, g, is_bounded(mx, node), post, a, m, b, m2),
    }
}

impl<'a> Machine<'a> {
    /// Lowers an opcode that computes numbers.
    #[verifier::rlimit(60)]
    pub fn lower_number(&self, code: &mut Code, ls: &mut LowerState, node: &OptimizedNode, kind: NumberKind) -> (r: Result<
        (),
        CompileFailure,
    >)
        requires
            self.wf(old(code).len()),
            old(ls)@.wf(*self.env, old(code).len()),
            node.id < self.ir.nodes@.len(),
        ensures
            kept(*old(code), *final(code)),
            r is Ok && self.typed(*old(code)) && state_held(*old(code), *old(ls)) ==> steady(*old(code), *final(code)),
            r is Ok && self.typed(*old(code)) && state_held(*old(code), *old(ls))
                ==> state_held(*final(code), *final(ls)),
            r is Ok <==> number_ready(*self, *node, kind, old(ls)@),
            r matches Err(e) ==> e == numeric_failure(*self, *node, kind, old(ls)@),
            r is Ok ==> final(ls)@.wf(*self.env, final(code).len()) && number_lowered(
                *self,
                *node,
                kind,
                *old(code),
                old(ls)@,
                *final(code),
                final(ls)@,
            ),
    {
        let env = self.env;
        let site = NodeSite { id: node.id, pc: node.pc, guard: node.deopt_guard };
        let g = Scalars { site, node: &self.scalar_nodes[node.id as usize], proven: self.proven };
        match kind {
            NumberKind::Arithmetic => lower_binary(code, env, ls, &g),
            NumberKind::Bitwise => lower_bitwise(code, env, ls, &g),
            NumberKind::Remainder => {
                match node.deopt_guard {
                    Some(guard) => match emit_opt_mod(code, env, &mut ls.provenance, ls.depth, node.pc, guard) {
                        Ok(depth) => {
                            ls.depth = depth;
                            Ok(())
                        },
                        Err(e) => Err(e),
                    },
                    None => Err(CompileFailure::InvalidArtifact),
                }
            },
            NumberKind::Equality => {
                match node.deopt_guard {
                    Some(guard) => match emit_opt_equality(
                        code,
                        env,
                        &mut ls.provenance,
                        ls.depth,
                        node_name(node),
                        node.pc,
                        guard,
                    ) {
                        Ok(depth) => {
                            ls.depth = depth;
                            Ok(())
                        },
                        Err(e) => Err(e),
                    },
                    None => Err(CompileFailure::InvalidArtifact),
                }
            },
            NumberKind::Unary => {
                match node.deopt_guard {
                    Some(guard) => emit_opt_unary(
                        code,
                        env,
                        &mut ls.provenance,
                        ls.depth,
                        node_name(node),
                        node.pc,
                        guard,
                    ),
                    None => Err(CompileFailure::InvalidArtifact),
                }
            },
            NumberKind::UpdateLocal(index) => {
                if index >= env.locals.len() {
                    return Err(CompileFailure::InvalidArtifact);
                }
                let to = self.find_local(index, false);
                lower_local_update(code, env, ls, &g, to)
            },
            NumberKind::AddLocal(index) => {
                if index >= env.locals.len() {
                    return Err(CompileFailure::InvalidArtifact);
                }
                let to = self.find_local(index, false);
                lower_local_add(code, env, ls, to, node.pc, node.deopt_guard)
            },
            NumberKind::Comparison => lower_comparison(code, env, ls, &g),
            NumberKind::Update { post } => {
                let bounded = self.bounded.contains(&node.pc);
                lower_update(code, env, ls, &g, bounded, post)
            },
        }
    }
}

} // verus!
