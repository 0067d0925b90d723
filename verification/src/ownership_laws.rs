//! What the ownership scan reports is what the lowering of the same nodes leaves.
use crate::ir::OptimizedNode;
use crate::lower_moves::shuffled_provenance;
use crate::lower_node::op_ready;
use crate::machine::copies_owner;
use crate::names::has_prefix;
use crate::opcode_laws::NodeStep;
use crate::opcode_laws::begins;
use crate::opcodes::HeapKind;
use crate::opcodes::MoveKind;
use crate::opcodes::OpKind;
use crate::opcodes::op_kind;
use crate::ownership::AliasStore;
use crate::ownership::OwnershipState;
use crate::ownership::alias_store;
use crate::ownership::entry_owned;
use crate::ownership::node_step;
use crate::provenance::OptProvenance;
use crate::runtime::FeedbackRepresentation;
use crate::specialization::EntryRepresentation;
use crate::specialization::NumericSpecialization;
use crate::spelling::spelling;
use vstd::prelude::*;

verus! {

/// The opcode leaves no value of its own on the stack.
pub open spec fn leaves_nothing(kind: OpKind) -> bool {
    match kind {
        OpKind::Move(kind) => kind is PutLocal || kind is PutArgument || kind is Uninitialized || kind is Drop || kind is Nop,
        OpKind::Number(kind) => kind is UpdateLocal || kind is AddLocal,
        OpKind::Heap(kind) => kind is ElementStore || kind == HeapKind::Field { store: true },
        _ => true,
    }
}

impl<'a> NodeStep<'a> {
    /// The node takes from the stack and leaves there what the scan is told.
    pub open spec fn arity_agrees(self) -> bool {
        &&& self.node.wf()
        &&& self.m2.depth == self.m.depth - self.node.pops + self.node.pushes
        &&& self.node.shuffle is Some ==> op_kind(self.node) == OpKind::Move(MoveKind::Shuffle)
        &&& self.named("dup"@) && self.node.shuffle is Some ==> self.node.shuffle->Some_0.order@ == seq![0usize, 0usize]
        &&& leaves_nothing(op_kind(self.node)) ==> self.node.pushes == 0
        &&& self.named("get_field2"@) ==> self.node.pushes == 2
    }

    /// The scan and the lowering know the same of the node's call: whether the
    /// callee's code stands in place. What feedback says of the result is no
    /// reference.
    pub open spec fn call_agrees(self) -> bool {
        let call = self.mx.calls@[self.node.id as int];
        let feedback = self.mx.specialization.calls@;
        &&& call is Some && call->Some_0.frame_region is Some ==> self.node.call is Some && self.node.call->Some_0.frame_inline
        &&& feedback.contains_key(self.node.pc) ==> feedback[self.node.pc].result != FeedbackRepresentation::HeapRef
    }

    /// The scan has reached the node, and misses no owner among its operands.
    pub open spec fn scanned(self, st: OwnershipState) -> bool {
        &&& st.depth == self.m.depth
        &&& forall|k: int|
            0 <= k < self.m.depth && #[trigger] self.m.provenance[k] == OptProvenance::OwnedSlot ==> st.owned[k]
    }
}

/// Where the lowering of a node leaves an owner on top of the operand stack, the
/// scan reports that slot as one.
#[verifier::spinoff_prover]
#[verifier::rlimit(100)]
pub proof fn owners_on_top_are_reported(x: NodeStep<'_>, st: OwnershipState)
    requires
        x.lowers(),
        op_ready(x.mx, x.node, x.block, x.source, x.m),
        x.arity_agrees(),
        x.call_agrees(),
        x.scanned(st),
        x.node.pushes > 0,
        x.m2.provenance[x.m2.depth - 1] == OptProvenance::OwnedSlot,
    ensures
        node_step(*x.mx.specialization, x.node, st) matches Ok(after) ==> after.owned[x.m2.depth - 1],
{
    spelling();
    let name = x.node.name();
    match op_kind(x.node) {
        OpKind::Heap(HeapKind::Call) => {
            calls_begin(name);
            assert(node_step(*x.mx.specialization, x.node, st) matches Ok(after) ==> after.owned[x.m2.depth - 1]);
        },
        OpKind::Heap(kind) => {
            assert(node_step(*x.mx.specialization, x.node, st) matches Ok(after) ==> after.owned[x.m2.depth - 1]);
        },
        OpKind::Number(kind) => {
            assert(node_step(*x.mx.specialization, x.node, st) matches Ok(after) ==> after.owned[x.m2.depth - 1]);
        },
        OpKind::Move(MoveKind::Shuffle) => {
            let shuffle = x.node.shuffle->Some_0;
            let start = x.m.depth - shuffle.take;
            if !copies_owner(x.node, x.m) {
                shuffled_owners(x.m.provenance, start, shuffle.order@, shuffle.order@.len(), x.m2.depth - 1);
            }
            assert(node_step(*x.mx.specialization, x.node, st) matches Ok(after) ==> after.owned[x.m2.depth - 1]);
        },
        OpKind::Move(kind) => {
            assert(node_step(*x.mx.specialization, x.node, st) matches Ok(after) ==> after.owned[x.m2.depth - 1]);
        },
        _ => {},
    }
}

proof fn shuffled_owners(provenance: Seq<OptProvenance>, start: int, order: Seq<usize>, k: nat, i: int)
    requires
        0 <= start,
        start + order.len() <= provenance.len(),
        k <= order.len(),
    ensures
        shuffled_provenance(provenance, start, order, k).len() == provenance.len(),
        start <= i < start + k ==> shuffled_provenance(provenance, start, order, k)[i] == provenance[start + order[i - start]],
    decreases k,
{
    if k > 0 {
        shuffled_owners(provenance, start, order, (k - 1) as nat, i);
    }
}

proof fn calls_begin(name: Seq<char>)
    requires
        name == "call"@ || name == "call0"@ || name == "call1"@ || name == "call2"@ || name == "call3"@ || name == "call_method"@,
    ensures
        has_prefix(name, "call"@),
{
    spelling();
    let start = name.take(4);
    assert forall|k: int| 0 <= k < 4 implies start[k] == "call"@[k] by {
        if k == 0 || k == 1 || k == 2 {
        } else {
            assert(k == 3);
        }
    }
    assert(start =~= "call"@);
}

/// A store into a local, by its name: the first four are part of it, others stand
/// behind the opcode.
pub open spec fn stores_into(node: OptimizedNode, local: int) -> bool {
    let name = node.name();
    ||| (name == "put_loc0"@ || name == "set_loc0"@) && local == 0
    ||| (name == "put_loc1"@ || name == "set_loc1"@) && local == 1
    ||| (name == "put_loc2"@ || name == "set_loc2"@) && local == 2
    ||| (name == "put_loc3"@ || name == "set_loc3"@) && local == 3
    ||| (name == "put_loc8"@ || name == "set_loc8"@) && local == node.bytes@[1]
    ||| (name == "put_loc"@ || name == "set_loc"@) && local == node.bytes@[1] + 0x100 * node.bytes@[2]
}

/// Storing an owner marks the local that it is stored into, and no other. Storing
/// what is no owner marks none.
#[verifier::spinoff_prover]
#[verifier::rlimit(60)]
pub proof fn stores_of_owners_mark_their_local(s: NumericSpecialization, node: OptimizedNode, st: OwnershipState, local: int)
    requires
        node.kind is Bytecode,
        stores_into(node, local),
        node.pops == 1,
    ensures
        node_step(s, node, st) matches Ok(after) ==> {
            &&& st.owned[st.depth - 1] && 0 <= local < st.locals.len() ==> after.locals[local]
            &&& forall|k: int|
                0 <= k < st.locals.len() && (k != local || !st.owned[st.depth - 1]) ==> #[trigger] after.locals[k] == st.locals[k]
            &&& after.locals.len() == st.locals.len()
        },
{
    spelling();
    let name = node.name();
    if name.len() > 0 && name[0] == 'p' {
        begins(name, "put_loc"@);
    } else {
        begins(name, "set_loc"@);
    }
}

/// Nothing but a store into a local marks one.
#[verifier::spinoff_prover]
#[verifier::rlimit(60)]
pub proof fn only_stores_mark_locals(s: NumericSpecialization, node: OptimizedNode, st: OwnershipState, k: int)
    requires
        0 <= k < st.locals.len(),
        !st.locals[k],
        !has_prefix(node.name(), "put_loc"@),
        !has_prefix(node.name(), "set_loc"@),
    ensures
        node_step(s, node, st) matches Ok(after) ==> !after.locals[k],
{
}

/// What a number, a truth value or a constant is pushed by leaves no owner.
#[verifier::spinoff_prover]
#[verifier::rlimit(60)]
pub proof fn primitives_are_no_owners(s: NumericSpecialization, node: OptimizedNode, st: OwnershipState)
    requires
        node.kind is Bytecode,
        op_kind(node) is Number || (op_kind(node) matches OpKind::Move(kind) && (kind is Immediate || kind is Constant || kind is TagTest
            || kind is GetArgument || kind is GetLocal || kind is GetFirstLocals)) || op_kind(node) == OpKind::Heap(
            HeapKind::ElementLoad,
        ),
        node.shuffle is None,
        0 <= st.depth,
    ensures
        node_step(s, node, st) matches Ok(after) ==> forall|k: int|
            st.depth - node.pops <= k < after.depth ==> !#[trigger] after.owned[k],
{
    spelling();
}

/// Slots below the operands of a node stay as they were, unless an owner is
/// duplicated: then every slot below becomes one.
pub proof fn slots_below_stay(s: NumericSpecialization, node: OptimizedNode, st: OwnershipState, k: int)
    requires
        node.wf(),
        0 <= k < st.depth - node.pops,
        st.depth <= st.owned.len(),
    ensures
        node_step(s, node, st) matches Ok(after) ==> {
            &&& node.name() != "dup"@ ==> after.owned[k] == st.owned[k]
            &&& st.owned[k] ==> after.owned[k]
        },
{
}

/// At the entry of a block a slot counts as an owner where it is one and where
/// nothing is known of it, and nowhere else.
pub proof fn entries_own_what_may_be_owned(entry: Seq<OptProvenance>, slots: nat, k: int)
    requires
        0 <= k < slots,
    ensures
        entry_owned(entry, slots)[k] <==> k < entry.len() && (entry[k] == OptProvenance::OwnedSlot || entry[k]
            == OptProvenance::Unknown),
{
}

/// What a store of one slot's value into another asks for, by what the entry
/// guards know of the first: a number or truth value nothing, an unknown value a
/// check, a reference is refused. Locals come behind the arguments.
pub proof fn stores_are_guarded_by_what_is_known(s: NumericSpecialization, arguments: int, slot: usize, to: OptProvenance)
    requires
        0 <= arguments,
        to != OptProvenance::Argument(slot),
        to != OptProvenance::Local(slot),
    ensures
        ({
            let known = |k: int| if k < s.arguments@.len() { s.arguments@[k] } else { s.entry };
            let asks = |r: EntryRepresentation| match r {
                EntryRepresentation::HeapRef => AliasStore::Reject,
                EntryRepresentation::Any => AliasStore::GuardHeap,
                _ => AliasStore::Safe,
            };
            &&& alias_store(s, arguments, OptProvenance::Argument(slot), to) == asks(known(slot as int))
            &&& alias_store(s, arguments, OptProvenance::Local(slot), to) == asks(known(arguments + slot))
        }),
        to != OptProvenance::Unknown ==> alias_store(s, arguments, OptProvenance::Unknown, to) == AliasStore::Reject,
        alias_store(s, arguments, OptProvenance::ImmediatePrimitive, to) == AliasStore::Safe,
        alias_store(s, arguments, OptProvenance::OwnedSlot, to) == AliasStore::Safe,
        alias_store(s, arguments, to, to) == AliasStore::Safe,
{
}

} // verus!
