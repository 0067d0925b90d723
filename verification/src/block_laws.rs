//! What enters a block, what is still known there, and why a node is refused.
use crate::control::CompileFailure;
use crate::element_access::source_after;
use crate::element_access::typed_source;
use crate::element_access::usable_source;
use crate::element_code::StorageIds;
use crate::elements::GuardedElementSource;
use crate::elements::length_known;
use crate::entry_guards::following_pc;
use crate::exits::placed_failure;
use crate::exits::slot_refusal;
use crate::frame::OptEnv;
use crate::frame::helper_known;
use crate::helpers::push_failure;
use crate::ir::FrameSlot;
use crate::ir::OptimizedIr;
use crate::ir::OptimizedNode;
use crate::ir::ScalarHeapEffect;
use crate::lower_block::entered_vars;
use crate::lower_block::input_slot;
use crate::lower_moves::Destination;
use crate::lower_moves::store_failure;
use crate::lower_node::op_failure;
use crate::lower_node::op_ready;
use crate::lower_node::settled;
use crate::lower_polls::drops_owner;
use crate::lowering::Lowered;
use crate::machine::Machine;
use crate::machine::move_failure;
use crate::opcodes::MoveKind;
use crate::opcodes::op_kind;
use crate::provenance::OptProvenance;
use crate::runtime::ArrayMode;
use crate::runtime::first_at_is;
use crate::scalar::OperandMode;
use vstd::prelude::*;

verus! {

/// A frame slot stands for the variables of its own kind and number.
pub proof fn inputs_name_their_slot(env: OptEnv<'_>, index: u16)
    ensures
        index < env.arguments@.len() ==> input_slot(env, FrameSlot::Argument(index)) == Some(env.arguments@[index as int]),
        index < env.locals@.len() ==> input_slot(env, FrameSlot::Local(index)) == Some(env.locals@[index as int]),
        index < env.stack@.len() ==> input_slot(env, FrameSlot::Stack(index)) == Some(env.stack@[index as int]),
        index >= env.arguments@.len() ==> input_slot(env, FrameSlot::Argument(index)) is None,
        index >= env.locals@.len() ==> input_slot(env, FrameSlot::Local(index)) is None,
        index >= env.stack@.len() ==> input_slot(env, FrameSlot::Stack(index)) is None,
{
}

/// The last input of a block puts its value into its slot: the payload as it was
/// carried, and the tag of an Int32 where the value is proven to be one.
pub proof fn inputs_enter_their_slot(mx: Machine<'_>, vars: Map<int, int>, inputs: Seq<(FrameSlot, usize)>, k: nat)
    requires
        0 < k <= inputs.len(),
        input_slot(*mx.env, inputs[k - 1].0) matches Some(slot) && slot.payload != slot.tag,
    ensures
        ({
            let before = entered_vars(mx, vars, inputs, (k - 1) as nat);
            let after = entered_vars(mx, vars, inputs, k);
            let slot = input_slot(*mx.env, inputs[k - 1].0)->Some_0;
            let id = inputs[k - 1].1;
            let proven = id < mx.proven@.len() && mx.proven@[id as int] == Some(OperandMode::Int32);
            &&& after[slot.payload as int] == before[mx.phis@[id].payload as int]
            &&& after[slot.tag as int] == (if proven { 0 } else { before[mx.phis@[id].tag as int] })
            &&& forall|v: int| v != slot.payload && v != slot.tag ==> #[trigger] after[v] == before[v]
        }),
{
}

/// The block behind a block is the next one of the function.
pub proof fn blocks_follow_each_other(ir: OptimizedIr, i: int)
    requires
        0 <= i < ir.blocks@.len(),
        forall|j: int| 0 <= j < i ==> (#[trigger] ir.blocks@[j]).start_pc != ir.blocks@[i].start_pc,
    ensures
        following_pc(ir, ir.blocks@[i].start_pc) == (if i + 1 < ir.blocks@.len() {
            Some(ir.blocks@[i + 1].start_pc)
        } else {
            None
        }),
{
    let pc = ir.blocks@[i].start_pc;
    let f = |k: int| ir.blocks@[k].start_pc == pc;
    assert(f(i));
    assert forall|j: int| 0 <= j < i implies !#[trigger] f(j) by {
        assert(ir.blocks@[j].start_pc != pc);
    }
    first_at_is(f, ir.blocks@.len(), i);
}

/// Storage that was checked is used again only for a value that was read from the
/// same argument or local; storage of a known mode only for that mode.
pub proof fn storage_is_used_for_its_own_value(source: Option<GuardedElementSource>, origin: OptProvenance, mode: ArrayMode)
    ensures
        usable_source(source, origin) matches Some(ids) ==> {
            &&& source matches Some(known) && known.provenance == origin && known.storage == ids
            &&& origin is Argument || origin is Local
        },
        typed_source(source, origin, mode) matches Some(ids) ==> {
            &&& source matches Some(known) && known.provenance == origin && known.storage == ids && known.typed_mode == Some(mode)
        },
        source is None ==> usable_source(source, origin) is None && typed_source(source, origin, mode) is None,
        source matches Some(known) && known.provenance == origin && (origin is Argument || origin is Local) ==> usable_source(
            source,
            origin,
        ) is Some,
{
}

/// A length is known only of storage whose length was proved to be its count.
pub proof fn lengths_are_known_of_exact_storage(source: Option<GuardedElementSource>, provenance: Seq<OptProvenance>, index: int)
    ensures
        length_known(source, provenance, index) ==> {
            &&& source matches Some(known) && known.exact_length && known.provenance == provenance[index]
            &&& provenance[index] is Argument || provenance[index] is Local
        },
{
}

/// A load leaves behind what it found only of a dense array that it was planned
/// for, and never claims to know its length.
pub proof fn loads_leave_dense_storage(
    before: Option<GuardedElementSource>,
    origin: OptProvenance,
    expected: Option<ArrayMode>,
    block: u32,
    found: StorageIds,
)
    requires
        usable_source(before, origin) is None,
    ensures
        source_after(before, origin, expected, block, found) is Some <==> expected == Some(ArrayMode::Packed),
        source_after(before, origin, expected, block, found) matches Some(source) ==> source.provenance == origin && source.storage
            == found && !source.exact_length && source.typed_mode is None && source.block_pc == block,
{
}

/// Without a plan, what is known of storage is forgotten at code of the runtime and
/// kept elsewhere; with one, where the plan says so.
pub proof fn storage_is_forgotten_at_barriers(
    mx: Machine<'_>,
    node: OptimizedNode,
    source: Option<GuardedElementSource>,
    m: Lowered,
)
    requires
        node.kind is Bytecode,
    ensures
        ({
            let after = settled(mx, node, source, m);
            let planned = mx.arrays.candidates@.len() > 0;
            &&& after == m || after == m.forget()
            &&& !planned && node.effect == ScalarHeapEffect::Reentrant ==> after.source is None
            &&& !planned && node.effect != ScalarHeapEffect::Reentrant ==> after == m
            &&& planned && node.id >= mx.arrays.invalidations@.len() ==> after.source is None
            &&& planned && node.id < mx.arrays.invalidations@.len() ==> (if mx.arrays.invalidations@[node.id as int] {
                after.source is None
            } else {
                after == m
            })
        }),
{
}

/// An opcode without a lowering is unsupported, and one whose operand is missing
/// is no valid code.
pub proof fn unknown_opcodes_are_unsupported(
    mx: Machine<'_>,
    node: OptimizedNode,
    block: u32,
    source: Option<GuardedElementSource>,
    m: Lowered,
)
    requires
        node.kind is Bytecode,
    ensures
        op_kind(node) is Unsupported ==> !op_ready(mx, node, block, source, m) && op_failure(mx, node, block, source, m)
            == CompileFailure::UnsupportedOpcode,
        op_kind(node) is Malformed ==> !op_ready(mx, node, block, source, m) && op_failure(mx, node, block, source, m)
            == CompileFailure::InvalidArtifact,
{
}

/// Slots and values that do not exist are no valid code; a constant that is no
/// number is unsupported.
pub proof fn missing_slots_are_invalid(mx: Machine<'_>, node: OptimizedNode, index: usize, constant: u32, m: Lowered)
    ensures
        index >= mx.env.locals@.len() ==> {
            &&& move_failure(mx, node, MoveKind::PutLocal(index), m) == CompileFailure::InvalidArtifact
            &&& move_failure(mx, node, MoveKind::SetLocal(index), m) == CompileFailure::InvalidArtifact
            &&& move_failure(mx, node, MoveKind::GetLocal(index), m) == CompileFailure::InvalidArtifact
            &&& move_failure(mx, node, MoveKind::Uninitialized(index), m) == CompileFailure::InvalidArtifact
        },
        index >= mx.env.arguments@.len() ==> {
            &&& move_failure(mx, node, MoveKind::PutArgument(index), m) == CompileFailure::InvalidArtifact
            &&& move_failure(mx, node, MoveKind::SetArgument(index), m) == CompileFailure::InvalidArtifact
            &&& move_failure(mx, node, MoveKind::GetArgument(index), m) == CompileFailure::InvalidArtifact
        },
        !mx.specialization.numeric_constants@.contains_key(constant) ==> move_failure(mx, node, MoveKind::Constant(constant), m)
            == CompileFailure::UnsupportedOpcode,
        m.depth == 0 ==> move_failure(mx, node, MoveKind::Drop, m) == CompileFailure::InvalidArtifact && move_failure(
            mx,
            node,
            (MoveKind::TagTest { first: 0, second: None }),
            m,
        ) == CompileFailure::InvalidArtifact,
{
}

/// A store that would copy an owner, or a value that may not be copied, is
/// unsupported.
pub proof fn owners_are_not_copied(
    env: OptEnv<'_>,
    s: crate::specialization::NumericSpecialization,
    to: Destination,
    guard: Option<u32>,
    m: Lowered,
)
    requires
        m.depth > 0,
    ensures
        m.provenance[m.depth - 1] == OptProvenance::OwnedSlot ==> store_failure(env, s, to, false, guard, m)
            == CompileFailure::UnsupportedOpcode,
        !env.int32_loop && m.provenance[m.depth - 1] == OptProvenance::Unknown && to.provenance != OptProvenance::Unknown
            ==> store_failure(env, s, to, true, guard, m) == CompileFailure::UnsupportedOpcode,
{
}

/// Helpers push nothing in a raw loop, and nothing above the end of the stack.
pub proof fn pushes_need_room(env: OptEnv<'_>, depth: int)
    ensures
        env.int32_loop ==> push_failure(env, depth) == Some(CompileFailure::UnsupportedOpcode),
        !env.int32_loop && depth >= env.stack@.len() ==> push_failure(env, depth) == Some(CompileFailure::ResourceLimit),
        !env.int32_loop && depth < env.stack@.len() ==> push_failure(env, depth) is None,
{
}

/// The first slot of the stack that cannot be made an owner decides why the
/// function cannot leave there: nothing is known of it, or its number is too
/// large.
pub proof fn unknown_slots_cannot_be_published(env: OptEnv<'_>, provenance: Seq<OptProvenance>, i: int)
    requires
        0 <= i < provenance.len(),
    ensures
        provenance[i] == OptProvenance::Unknown ==> slot_refusal(env, provenance, i) == Some(CompileFailure::InvalidArtifact),
        provenance[i] == OptProvenance::OwnedSlot || provenance[i] == OptProvenance::ImmediatePrimitive ==> slot_refusal(
            env,
            provenance,
            i,
        ) is None,
        (provenance[i] is Argument || provenance[i] is Local) && !helper_known(env, env.abi.helper_materialize_owner) ==> slot_refusal(
            env,
            provenance,
            i,
        ) == Some(CompileFailure::InvalidArtifact),
        placed_failure(false, env, provenance, i) == CompileFailure::InvalidArtifact,
{
}

/// A node that was eliminated releases the owner that it would have dropped, and
/// only that.
pub proof fn eliminated_drops_release_their_owner(pops: u16, pushes: u16, m: Lowered)
    ensures
        drops_owner(pops, pushes, m) <==> pops == 1 && pushes == 0 && m.depth > 0 && m.provenance[m.depth - 1]
            == OptProvenance::OwnedSlot,
{
}

} // verus!
