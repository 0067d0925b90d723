//! Which values own a reference, and which stores may copy a borrowed one.
use crate::control::CompileFailure;
use crate::ir::node_name;
use crate::ir::OptimizedBlock;
use crate::ir::OptimizedIr;
use crate::ir::OptimizedNode;
use crate::names::has_prefix;
use crate::names::name_is;
use crate::names::name_starts;
use crate::names::opt_index;
use crate::names::spec_index;
use crate::provenance::OptProvenance;
use crate::runtime::ObservedType;
use crate::runtime::ShapeObservation;
use crate::specialization::EntryRepresentation;
use crate::specialization::NumericSpecialization;
use std::collections::BTreeMap;
use vstd::prelude::*;

verus! {

broadcast use vstd::std_specs::btree::group_btree_axioms;

/// How a value may be stored into an interpreter-owned argument or local
/// buffer. Borrowed aliases are spilled into those buffers at every exit
/// without transferring ownership, so an alias that is a heap reference must
/// never be copied into a different slot.
#[derive(Clone, Copy, Debug, PartialEq, Eq, Structural)]
pub enum AliasStore {
    /// Proven scalar, slot-owned (moved by the caller), or the slot's own value.
    Safe,
    /// Unproven representation: check the tag at run time and deoptimize
    /// before the store when the value is reference counted.
    GuardHeap,
    /// Proven or unknowable heap alias: fail closed.
    Reject,
}

pub open spec fn representation_of(s: NumericSpecialization, slot: int) -> EntryRepresentation {
    if slot < s.arguments@.len() {
        s.arguments@[slot]
    } else {
        s.entry
    }
}

pub open spec fn store_of(representation: EntryRepresentation) -> AliasStore {
    match representation {
        EntryRepresentation::Bool | EntryRepresentation::Numeric | EntryRepresentation::Int32
        | EntryRepresentation::Float64 => AliasStore::Safe,
        EntryRepresentation::Any => AliasStore::GuardHeap,
        EntryRepresentation::HeapRef => AliasStore::Reject,
    }
}

pub open spec fn alias_store(
    s: NumericSpecialization,
    argument_count: int,
    source: OptProvenance,
    destination: OptProvenance,
) -> AliasStore {
    if source == destination {
        AliasStore::Safe
    } else {
        match source {
            OptProvenance::ImmediatePrimitive | OptProvenance::OwnedSlot => AliasStore::Safe,
            OptProvenance::Argument(slot) => store_of(representation_of(s, slot as int)),
            OptProvenance::Local(slot) => store_of(representation_of(s, argument_count + slot)),
            OptProvenance::Unknown => AliasStore::Reject,
        }
    }
}

pub fn opt_alias_store(
    specialization: &NumericSpecialization,
    argument_count: usize,
    source: OptProvenance,
    destination: OptProvenance,
) -> (r: AliasStore)
    requires
        source matches OptProvenance::Local(slot) ==> argument_count + slot <= usize::MAX,
    ensures
        r == alias_store(*specialization, argument_count as int, source, destination),
{
    if source == destination {
        return AliasStore::Safe;
    }
    let slot: usize = match source {
        OptProvenance::ImmediatePrimitive | OptProvenance::OwnedSlot => return AliasStore::Safe,
        OptProvenance::Unknown => return AliasStore::Reject,
        OptProvenance::Argument(slot) => slot,
        OptProvenance::Local(slot) => argument_count + slot,
    };
    let representation: EntryRepresentation = if slot < specialization.arguments.len() {
        specialization.arguments[slot]
    } else {
        specialization.entry
    };
    match representation {
        EntryRepresentation::Bool | EntryRepresentation::Numeric | EntryRepresentation::Int32
        | EntryRepresentation::Float64 => AliasStore::Safe,
        EntryRepresentation::Any => AliasStore::GuardHeap,
        EntryRepresentation::HeapRef => AliasStore::Reject,
    }
}

/// A borrowed value of which nothing is known, or which is known to be a heap
/// reference, is never stored into another slot without a run-time check.
pub proof fn heap_aliases_are_not_copied(
    s: NumericSpecialization,
    argument_count: int,
    source: OptProvenance,
    destination: OptProvenance,
)
    requires
        source != destination,
        alias_store(s, argument_count, source, destination) == AliasStore::Safe,
    ensures
        source != OptProvenance::Unknown,
        source matches OptProvenance::Argument(slot) ==> representation_of(s, slot as int) != EntryRepresentation::HeapRef
            && representation_of(s, slot as int) != EntryRepresentation::Any,
        source matches OptProvenance::Local(slot) ==> representation_of(s, argument_count + slot)
            != EntryRepresentation::HeapRef && representation_of(s, argument_count + slot) != EntryRepresentation::Any,
{
}

/// Compilation fails closed where an opcode would copy or silently discard a
/// value owned by its interpreter stack slot.
pub fn opt_reject_owned(provenance: &Vec<OptProvenance>, from: usize, to: usize) -> (r: Result<(), CompileFailure>)
    requires
        from <= to <= provenance@.len(),
    ensures
        r is Ok <==> forall|k: int| from <= k < to ==> #[trigger] provenance@[k] != OptProvenance::OwnedSlot,
        r is Err ==> r == Err::<(), CompileFailure>(CompileFailure::UnsupportedOpcode),
{
    let mut i: usize = from;
    while i < to
        invariant
            from <= i <= to <= provenance@.len(),
            forall|k: int| from <= k < i ==> #[trigger] provenance@[k] != OptProvenance::OwnedSlot,
        decreases to - i,
    {
        if provenance[i] == OptProvenance::OwnedSlot {
            return Err(CompileFailure::UnsupportedOpcode);
        }
        i = i + 1;
    }
    Ok(())
}

pub open spec fn invalidated(provenance: Seq<OptProvenance>, depth: int, stale: OptProvenance) -> Seq<OptProvenance> {
    Seq::new(
        provenance.len(),
        |k: int|
            if k < depth && provenance[k] == stale {
                OptProvenance::ImmediatePrimitive
            } else {
                provenance[k]
            },
    )
}

/// Stack slots that alias a frame slot stop describing it once the slot is
/// redefined; their value is the primitive that the slot held before.
pub fn opt_invalidate_provenance(provenance: &mut Vec<OptProvenance>, depth: usize, stale: OptProvenance)
    ensures
        final(provenance)@ == invalidated(old(provenance)@, depth as int, stale),
{
    let n: usize = provenance.len();
    let mut i: usize = 0;
    while i < n && i < depth
        invariant
            n == provenance@.len() == old(provenance)@.len(),
            i <= n,
            i <= depth,
            forall|k: int| 0 <= k < i ==> provenance@[k] == invalidated(old(provenance)@, depth as int, stale)[k],
            forall|k: int| i <= k < n ==> provenance@[k] == old(provenance)@[k],
        decreases n - i,
    {
        if provenance[i] == stale {
            provenance.set(i, OptProvenance::ImmediatePrimitive);
        }
        i = i + 1;
    }
    assert(provenance@ =~= invalidated(old(provenance)@, depth as int, stale));
}

/// After a frame slot was redefined no live stack slot claims to alias it.
pub proof fn invalidation_removes_every_alias(provenance: Seq<OptProvenance>, depth: int, stale: OptProvenance, k: int)
    requires
        stale != OptProvenance::ImmediatePrimitive,
        0 <= k < provenance.len(),
        k < depth,
    ensures
        invalidated(provenance, depth, stale)[k] != stale,
{
}

/// Ownership while a block is scanned: which locals were ever stored an owned
/// value, which stack slots own theirs, and the stack depth.
pub struct OwnershipState {
    pub locals: Seq<bool>,
    pub owned: Seq<bool>,
    pub depth: int,
}

pub open spec fn filled(owned: Seq<bool>, from: int, to: int, value: bool) -> Seq<bool> {
    Seq::new(
        owned.len(),
        |k: int|
            if from <= k < to {
                value
            } else {
                owned[k]
            },
    )
}

/// The node pushes a value that its stack slot owns.
pub open spec fn produces_owned(s: NumericSpecialization, node: OptimizedNode) -> bool {
    let name = node.name();
    if name == "get_var"@ || name == "get_length"@ || name == "get_field2"@ {
        true
    } else if name == "get_field"@ {
        s.properties@.contains_key(node.pc) && exists|k: int|
            0 <= k < s.properties@[node.pc]@.len() && (#[trigger] s.properties@[node.pc]@[k]).value == ObservedType::Object
    } else if has_prefix(name, "call"@) {
        (node.call matches Some(call) && call.frame_inline) || !s.calls@.contains_key(node.pc)
    } else {
        false
    }
}

/// The local that the node stores the top of the stack into.
pub open spec fn store_target(node: OptimizedNode) -> Result<Option<usize>, CompileFailure> {
    let name = node.name();
    if has_prefix(name, "put_loc"@) {
        spec_index(name, node.bytes@, "put_loc"@)
    } else if has_prefix(name, "set_loc"@) && name != "set_loc_uninitialized"@ {
        spec_index(name, node.bytes@, "set_loc"@)
    } else {
        Ok(None)
    }
}

pub open spec fn shuffled(owned: Seq<bool>, start: int, order: Seq<usize>) -> Seq<bool> {
    Seq::new(
        owned.len(),
        |k: int|
            if start <= k < start + order.len() {
                owned[start + order[k - start]]
            } else {
                owned[k]
            },
    )
}

pub open spec fn stack_after(s: NumericSpecialization, node: OptimizedNode, owned: Seq<bool>, depth: int) -> Seq<bool> {
    let base = depth - node.pops;
    let top_owned = node.pops > 0 && owned[depth - 1];
    match node.shuffle {
        Some(shuffle) => {
            let moved = shuffled(owned, depth - shuffle.take, shuffle.order@);
            // An owning `dup` publishes any borrowed prefix roots too.
            if node.name() == "dup"@ && top_owned {
                filled(moved, 0, depth - shuffle.take, true)
            } else {
                moved
            }
        },
        None => if node.name() == "get_field2"@ {
            owned.update(base + 1, true)
        } else {
            filled(owned, base, base + node.pushes, produces_owned(s, node))
        },
    }
}

pub open spec fn node_step(s: NumericSpecialization, node: OptimizedNode, st: OwnershipState) -> Result<
    OwnershipState,
    CompileFailure,
> {
    if st.depth < node.pops {
        Err(CompileFailure::InvalidArtifact)
    } else if st.depth - node.pops + node.pushes > st.owned.len() {
        Err(CompileFailure::ResourceLimit)
    } else {
        let top_owned = node.pops > 0 && st.owned[st.depth - 1];
        let target = if top_owned {
            store_target(node)
        } else {
            Ok(None)
        };
        match target {
            Err(e) => Err(e),
            Ok(local) => Ok(
                OwnershipState {
                    locals: if local is Some && local->Some_0 < st.locals.len() {
                        st.locals.update(local->Some_0 as int, true)
                    } else {
                        st.locals
                    },
                    owned: stack_after(s, node, st.owned, st.depth),
                    depth: st.depth - node.pops + node.pushes,
                },
            ),
        }
    }
}

pub open spec fn nodes_step(ir: OptimizedIr, s: NumericSpecialization, block: OptimizedBlock, st: OwnershipState, n: nat) -> Result<
    OwnershipState,
    CompileFailure,
>
    decreases n,
{
    if n == 0 {
        Ok(st)
    } else {
        match nodes_step(ir, s, block, st, (n - 1) as nat) {
            Err(e) => Err(e),
            Ok(before) => if block.nodes@[n - 1] < ir.nodes@.len() {
                node_step(s, ir.nodes@[block.nodes@[n - 1] as int], before)
            } else {
                Err(CompileFailure::InvalidArtifact)
            },
        }
    }
}

pub open spec fn may_own(origin: OptProvenance) -> bool {
    origin == OptProvenance::OwnedSlot || origin == OptProvenance::Unknown
}

pub open spec fn entry_owned(entry: Seq<OptProvenance>, slots: nat) -> Seq<bool> {
    Seq::new(slots, |k: int| k < entry.len() && may_own(entry[k]))
}

pub open spec fn block_step(
    ir: OptimizedIr,
    s: NumericSpecialization,
    entries: Map<u32, Vec<OptProvenance>>,
    block: OptimizedBlock,
    locals: Seq<bool>,
    slots: nat,
) -> Result<Seq<bool>, CompileFailure> {
    if !entries.contains_key(block.start_pc) {
        Err(CompileFailure::InvalidArtifact)
    } else {
        let entry = entries[block.start_pc]@;
        if entry.len() != block.stack_depth || block.stack_depth > slots {
            Err(CompileFailure::InvalidArtifact)
        } else {
            let st = OwnershipState { locals, owned: entry_owned(entry, slots), depth: block.stack_depth as int };
            match nodes_step(ir, s, block, st, block.nodes@.len()) {
                Err(e) => Err(e),
                Ok(after) => Ok(after.locals),
            }
        }
    }
}

pub open spec fn blocks_step(
    ir: OptimizedIr,
    s: NumericSpecialization,
    entries: Map<u32, Vec<OptProvenance>>,
    locals: Seq<bool>,
    slots: nat,
    n: nat,
) -> Result<Seq<bool>, CompileFailure>
    decreases n,
{
    if n == 0 {
        Ok(locals)
    } else {
        match blocks_step(ir, s, entries, locals, slots, (n - 1) as nat) {
            Err(e) => Err(e),
            Ok(before) => block_step(ir, s, entries, ir.blocks@[n - 1], before, slots),
        }
    }
}

/// The locals that some path may store an owned value into.
pub open spec fn owned_locals(ir: OptimizedIr, s: NumericSpecialization, entries: Map<u32, Vec<OptProvenance>>) -> Result<
    Seq<bool>,
    CompileFailure,
> {
    match ir.entry_shape {
        None => Err(CompileFailure::InvalidArtifact),
        Some(shape) => blocks_step(
            ir,
            s,
            entries,
            Seq::new(shape.locals as nat, |k: int| false),
            (ir.max_stack + ir.helper_scratch_slots) as nat,
            ir.blocks@.len(),
        ),
    }
}

/// A local that was marked stays marked, whatever is scanned later.
pub proof fn owned_locals_only_grow(ir: OptimizedIr, s: NumericSpecialization, block: OptimizedBlock, st: OwnershipState, n: nat)
    ensures
        nodes_step(ir, s, block, st, n) matches Ok(after) ==> after.locals.len() == st.locals.len() && forall|k: int|
            0 <= k < st.locals.len() && st.locals[k] ==> #[trigger] after.locals[k],
    decreases n,
{
    if n > 0 {
        owned_locals_only_grow(ir, s, block, st, (n - 1) as nat);
    }
}

/// Storing an owned value into a local marks the local.
pub proof fn owned_store_is_recorded(s: NumericSpecialization, node: OptimizedNode, st: OwnershipState)
    requires
        node_step(s, node, st) is Ok,
        node.pops > 0,
        st.owned[st.depth - 1],
        store_target(node) matches Ok(Some(local)) && local < st.locals.len(),
    ensures
        node_step(s, node, st)->Ok_0.locals[store_target(node)->Ok_0->Some_0 as int],
{
}

/// Whatever the first marks, the second marks too.
pub open spec fn covers(owned: Seq<bool>, more: Seq<bool>) -> bool {
    owned.len() == more.len() && forall|k: int| 0 <= k < owned.len() && #[trigger] owned[k] ==> more[k]
}

spec fn covered_by(st: OwnershipState, more: OwnershipState) -> bool {
    &&& covers(st.locals, more.locals)
    &&& covers(st.owned, more.owned)
    &&& st.depth == more.depth
    &&& 0 <= st.depth <= st.owned.len()
}

proof fn node_step_covers(s: NumericSpecialization, node: OptimizedNode, st: OwnershipState, more: OwnershipState)
    requires
        node.wf(),
        covered_by(st, more),
        node_step(s, node, st) is Ok,
        node_step(s, node, more) is Ok,
    ensures
        covered_by(node_step(s, node, st)->Ok_0, node_step(s, node, more)->Ok_0),
{
    let a = stack_after(s, node, st.owned, st.depth);
    let b = stack_after(s, node, more.owned, more.depth);
    assert forall|k: int| 0 <= k < a.len() && #[trigger] a[k] implies b[k] by {
        if let Some(shuffle) = node.shuffle {
            let start = st.depth - shuffle.take;
            if start <= k < start + shuffle.order@.len() {
                assert(shuffle.order@[k - start] < shuffle.take);
                assert(st.owned[start + shuffle.order@[k - start]] ==> more.owned[start + shuffle.order@[k - start]]);
            }
        }
    }
}

proof fn nodes_step_covers(
    ir: OptimizedIr,
    s: NumericSpecialization,
    block: OptimizedBlock,
    st: OwnershipState,
    more: OwnershipState,
    n: nat,
)
    requires
        ir.wf(),
        covered_by(st, more),
        nodes_step(ir, s, block, st, n) is Ok,
        nodes_step(ir, s, block, more, n) is Ok,
    ensures
        covered_by(nodes_step(ir, s, block, st, n)->Ok_0, nodes_step(ir, s, block, more, n)->Ok_0),
    decreases n,
{
    if n > 0 {
        nodes_step_covers(ir, s, block, st, more, (n - 1) as nat);
        let node = ir.nodes@[block.nodes@[n - 1] as int];
        assert(node.wf());
        node_step_covers(
            s,
            node,
            nodes_step(ir, s, block, st, (n - 1) as nat)->Ok_0,
            nodes_step(ir, s, block, more, (n - 1) as nat)->Ok_0,
        );
    }
}

/// Wherever the first map has a slot that may own its value, so has the second.
pub open spec fn entries_cover(entries: Map<u32, Vec<OptProvenance>>, more: Map<u32, Vec<OptProvenance>>) -> bool {
    forall|pc: u32, k: int|
        #![trigger entries[pc]@[k]]
        entries.contains_key(pc) && more.contains_key(pc) && 0 <= k < entries[pc]@.len() && k < more[pc]@.len() && may_own(
            entries[pc]@[k],
        ) ==> may_own(more[pc]@[k])
}

proof fn blocks_step_covers(
    ir: OptimizedIr,
    s: NumericSpecialization,
    entries: Map<u32, Vec<OptProvenance>>,
    more: Map<u32, Vec<OptProvenance>>,
    locals: Seq<bool>,
    slots: nat,
    n: nat,
)
    requires
        ir.wf(),
        n <= ir.blocks@.len(),
        entries_cover(entries, more),
        blocks_step(ir, s, entries, locals, slots, n) is Ok,
        blocks_step(ir, s, more, locals, slots, n) is Ok,
    ensures
        blocks_step(ir, s, entries, locals, slots, n)->Ok_0.len() == locals.len(),
        covers(blocks_step(ir, s, entries, locals, slots, n)->Ok_0, blocks_step(ir, s, more, locals, slots, n)->Ok_0),
    decreases n,
{
    if n > 0 {
        blocks_step_covers(ir, s, entries, more, locals, slots, (n - 1) as nat);
        let block = ir.blocks@[n - 1];
        let depth = block.stack_depth as int;
        let before = OwnershipState {
            locals: blocks_step(ir, s, entries, locals, slots, (n - 1) as nat)->Ok_0,
            owned: entry_owned(entries[block.start_pc]@, slots),
            depth,
        };
        let wider = OwnershipState {
            locals: blocks_step(ir, s, more, locals, slots, (n - 1) as nat)->Ok_0,
            owned: entry_owned(more[block.start_pc]@, slots),
            depth,
        };
        assert forall|k: int| 0 <= k < slots && #[trigger] before.owned[k] implies wider.owned[k] by {
            assert(may_own(entries[block.start_pc]@[k]));
        }
        nodes_step_covers(ir, s, block, before, wider, block.nodes@.len());
        owned_locals_only_grow(ir, s, block, before, block.nodes@.len());
    }
}

/// Knowing less at the block entries marks no fewer locals: where every slot that
/// may own its value under one map may own it under another, a local that is
/// marked under the first is marked under the second. There is one mark for each
/// local.
pub proof fn doubt_marks_more_locals(
    ir: OptimizedIr,
    s: NumericSpecialization,
    entries: Map<u32, Vec<OptProvenance>>,
    more: Map<u32, Vec<OptProvenance>>,
)
    requires
        ir.wf(),
        entries_cover(entries, more),
        owned_locals(ir, s, entries) is Ok,
        owned_locals(ir, s, more) is Ok,
    ensures
        ir.entry_shape matches Some(shape) && owned_locals(ir, s, entries)->Ok_0.len() == shape.locals,
        covers(owned_locals(ir, s, entries)->Ok_0, owned_locals(ir, s, more)->Ok_0),
{
    blocks_step_covers(
        ir,
        s,
        entries,
        more,
        Seq::new(ir.entry_shape->Some_0.locals as nat, |k: int| false),
        (ir.max_stack + ir.helper_scratch_slots) as nat,
        ir.blocks@.len(),
    );
}

/// A block whose entry state is missing, or does not have one origin for each
/// stack slot, is refused.
pub proof fn every_block_needs_its_entry(
    ir: OptimizedIr,
    s: NumericSpecialization,
    entries: Map<u32, Vec<OptProvenance>>,
    b: int,
)
    requires
        0 <= b < ir.blocks@.len(),
        !entries.contains_key(ir.blocks@[b].start_pc) || entries[ir.blocks@[b].start_pc]@.len() != ir.blocks@[b].stack_depth,
    ensures
        owned_locals(ir, s, entries) is Err,
{
    if let Some(shape) = ir.entry_shape {
        let locals = Seq::new(shape.locals as nat, |k: int| false);
        let slots = (ir.max_stack + ir.helper_scratch_slots) as nat;
        assert(blocks_step(ir, s, entries, locals, slots, (b + 1) as nat) is Err);
        failure_stays(ir, s, entries, locals, slots, (b + 1) as nat, ir.blocks@.len());
    }
}

fn fill(owned: &mut Vec<bool>, from: usize, to: usize, value: bool)
    requires
        from <= to <= old(owned)@.len(),
    ensures
        final(owned)@ == filled(old(owned)@, from as int, to as int, value),
{
    let mut i: usize = from;
    while i < to
        invariant
            from <= i <= to <= owned@.len(),
            owned@.len() == old(owned)@.len(),
            forall|k: int| from <= k < i ==> owned@[k] == value,
            forall|k: int| 0 <= k < owned@.len() && !(from <= k < i) ==> owned@[k] == old(owned)@[k],
        decreases to - i,
    {
        owned.set(i, value);
        i = i + 1;
    }
    assert(owned@ =~= filled(old(owned)@, from as int, to as int, value));
}

fn any_object(observations: &Vec<ShapeObservation>) -> (r: bool)
    ensures
        r == exists|k: int| 0 <= k < observations@.len() && (#[trigger] observations@[k]).value == ObservedType::Object,
{
    let mut i: usize = 0;
    while i < observations.len()
        invariant
            i <= observations@.len(),
            forall|k: int| 0 <= k < i ==> (#[trigger] observations@[k]).value != ObservedType::Object,
        decreases observations@.len() - i,
    {
        if observations[i].value == ObservedType::Object {
            assert(observations@[i as int].value == ObservedType::Object);
            return true;
        }
        i = i + 1;
    }
    false
}

fn node_produces_owned(s: &NumericSpecialization, node: &OptimizedNode) -> (r: bool)
    ensures
        r == produces_owned(*s, *node),
{
    let name: &str = node_name(node);
    if name_is(name, "get_var") || name_is(name, "get_length") || name_is(name, "get_field2") {
        return true;
    }
    if name_is(name, "get_field") {
        return match s.properties.get(&node.pc) {
            Some(observations) => any_object(observations),
            None => false,
        };
    }
    if name_starts(name, "call") {
        let inlined: bool = match &node.call {
            Some(call) => call.frame_inline,
            None => false,
        };
        return inlined || !s.calls.contains_key(&node.pc);
    }
    false
}

fn node_store_target(node: &OptimizedNode) -> (r: Result<Option<usize>, CompileFailure>)
    ensures
        r == store_target(*node),
{
    let name: &str = node_name(node);
    if name_starts(name, "put_loc") {
        opt_index(name, node.bytes.as_slice(), "put_loc")
    } else if name_starts(name, "set_loc") && !name_is(name, "set_loc_uninitialized") {
        opt_index(name, node.bytes.as_slice(), "set_loc")
    } else {
        Ok(None)
    }
}

fn shuffle_owned(owned: &mut Vec<bool>, start: usize, take: usize, order: &Vec<usize>)
    requires
        start + take <= old(owned)@.len(),
        start + order@.len() <= old(owned)@.len(),
        forall|k: int| 0 <= k < order@.len() ==> #[trigger] order@[k] < take,
    ensures
        final(owned)@ == shuffled(old(owned)@, start as int, order@),
{
    let total: usize = owned.len();
    let mut inputs: Vec<bool> = Vec::new();
    let mut i: usize = 0;
    while i < take
        invariant
            total == owned@.len(),
            i <= take,
            owned@ == old(owned)@,
            start + take <= owned@.len(),
            inputs@.len() == i,
            forall|k: int| 0 <= k < i ==> #[trigger] inputs@[k] == old(owned)@[start + k],
        decreases take - i,
    {
        inputs.push(owned[start + i]);
        i = i + 1;
    }
    let mut j: usize = 0;
    while j < order.len()
        invariant
            j <= order@.len(),
            total == owned@.len() == old(owned)@.len(),
            start + order@.len() <= owned@.len(),
            inputs@.len() == take,
            forall|k: int| 0 <= k < take ==> #[trigger] inputs@[k] == old(owned)@[start + k],
            forall|k: int| 0 <= k < order@.len() ==> #[trigger] order@[k] < take,
            forall|k: int| start <= k < start + j ==> #[trigger] owned@[k] == old(owned)@[start + order@[k - start]],
            forall|k: int| 0 <= k < owned@.len() && !(start <= k < start + j) ==> #[trigger] owned@[k] == old(owned)@[k],
        decreases order@.len() - j,
    {
        assert(order@[j as int] < take);
        owned.set(start + j, inputs[order[j]]);
        j = j + 1;
    }
    assert(owned@ =~= shuffled(old(owned)@, start as int, order@));
}

fn scan_node(
    s: &NumericSpecialization,
    node: &OptimizedNode,
    locals: &mut Vec<bool>,
    owned: &mut Vec<bool>,
    depth: usize,
) -> (r: Result<usize, CompileFailure>)
    requires
        node.wf(),
        depth <= old(owned)@.len(),
        old(owned)@.len() <= 0x2_0000,
    ensures
        final(owned)@.len() == old(owned)@.len(),
        match node_step(*s, *node, OwnershipState { locals: old(locals)@, owned: old(owned)@, depth: depth as int }) {
            Ok(after) => r == Ok::<usize, CompileFailure>(after.depth as usize) && after.depth == r->Ok_0 && final(locals)@ == after.locals && final(owned)@ == after.owned && after.depth <= final(owned)@.len(),
            Err(e) => r == Err::<usize, CompileFailure>(e),
        },
{
    let pops: usize = node.pops as usize;
    let pushes: usize = node.pushes as usize;
    if depth < pops {
        return Err(CompileFailure::InvalidArtifact);
    }
    let base: usize = depth - pops;
    if base + pushes > owned.len() {
        return Err(CompileFailure::ResourceLimit);
    }
    let top_owned: bool = pops > 0 && owned[depth - 1];
    if top_owned {
        match node_store_target(node) {
            Err(e) => return Err(e),
            Ok(Some(local)) => {
                if local < locals.len() {
                    locals.set(local, true);
                }
            },
            Ok(None) => {},
        }
    }
    let name: &str = node_name(node);
    match &node.shuffle {
        Some(shuffle) => {
            let start: usize = depth - shuffle.take;
            shuffle_owned(owned, start, shuffle.take, &shuffle.order);
            if top_owned && name_is(name, "dup") {
                fill(owned, 0, start, true);
            }
        },
        None => {
            if name_is(name, "get_field2") {
                owned.set(base + 1, true);
            } else {
                fill(owned, base, base + pushes, node_produces_owned(s, node));
            }
        },
    }
    Ok(base + pushes)
}

/// Finds the locals that may hold an owned value.
pub fn owned_local_targets(
    ir: &OptimizedIr,
    specialization: &NumericSpecialization,
    cfg_entry_provenance: &BTreeMap<u32, Vec<OptProvenance>>,
) -> (r: Result<Vec<bool>, CompileFailure>)
    requires
        ir.wf(),
    ensures
        match owned_locals(*ir, *specialization, cfg_entry_provenance@) {
            Ok(locals) => r matches Ok(v) && v@ == locals,
            Err(e) => r == Err::<Vec<bool>, CompileFailure>(e),
        },
{
    let shape = match ir.entry_shape {
        Some(shape) => shape,
        None => return Err(CompileFailure::InvalidArtifact),
    };
    let count: usize = shape.locals as usize;
    let mut locals: Vec<bool> = Vec::new();
    let mut f: usize = 0;
    while f < count
        invariant
            f <= count,
            locals@.len() == f,
            forall|k: int| 0 <= k < f ==> !#[trigger] locals@[k],
        decreases count - f,
    {
        locals.push(false);
        f = f + 1;
    }
    let slots: usize = ir.max_stack as usize + ir.helper_scratch_slots as usize;
    let ghost start = Seq::new(count as nat, |k: int| false);
    assert(locals@ =~= start);
    let ghost whole = blocks_step(*ir, *specialization, cfg_entry_provenance@, start, slots as nat, ir.blocks@.len());
    let mut b: usize = 0;
    while b < ir.blocks.len()
        invariant
            ir.wf(),
            b <= ir.blocks@.len(),
            slots <= 0x2_0000,
            blocks_step(*ir, *specialization, cfg_entry_provenance@, start, slots as nat, b as nat) == Ok::<
                Seq<bool>,
                CompileFailure,
            >(locals@),
            whole == blocks_step(*ir, *specialization, cfg_entry_provenance@, start, slots as nat, ir.blocks@.len()),
            whole == owned_locals(*ir, *specialization, cfg_entry_provenance@),
        decreases ir.blocks@.len() - b,
    {
        let block = &ir.blocks[b];
        let ghost step = block_step(*ir, *specialization, cfg_entry_provenance@, *block, locals@, slots as nat);
        proof {
            if step is Err {
                failure_stays(
                    *ir,
                    *specialization,
                    cfg_entry_provenance@,
                    start,
                    slots as nat,
                    (b + 1) as nat,
                    ir.blocks@.len(),
                );
            }
        }
        let entry = match cfg_entry_provenance.get(&block.start_pc) {
            Some(entry) => entry,
            None => return Err(CompileFailure::InvalidArtifact),
        };
        let mut depth: usize = block.stack_depth as usize;
        if entry.len() != depth || depth > slots {
            return Err(CompileFailure::InvalidArtifact);
        }
        let mut owned: Vec<bool> = Vec::new();
        let mut k: usize = 0;
        while k < slots
            invariant
                k <= slots,
                owned@.len() == k,
                forall|j: int| 0 <= j < k ==> #[trigger] owned@[j] == (j < entry@.len() && may_own(entry@[j])),
            decreases slots - k,
        {
            let own: bool = k < entry.len() && (entry[k] == OptProvenance::OwnedSlot || entry[k] == OptProvenance::Unknown);
            owned.push(own);
            k = k + 1;
        }
        assert(owned@ =~= entry_owned(entry@, slots as nat));
        let ghost st = OwnershipState { locals: locals@, owned: owned@, depth: depth as int };
        let mut n: usize = 0;
        while n < block.nodes.len()
            invariant
                ir.wf(),
                n <= block.nodes@.len(),
                slots <= 0x2_0000,
                owned@.len() == slots,
                depth <= slots,
                nodes_step(*ir, *specialization, *block, st, n as nat) == Ok::<OwnershipState, CompileFailure>(
                    (OwnershipState { locals: locals@, owned: owned@, depth: depth as int }),
                ),
                step is Err ==> whole == Err::<Seq<bool>, CompileFailure>(step->Err_0),
                whole == owned_locals(*ir, *specialization, cfg_entry_provenance@),
                step == (match nodes_step(*ir, *specialization, *block, st, block.nodes@.len()) {
                    Err(e) => Err::<Seq<bool>, CompileFailure>(e),
                    Ok(after) => Ok(after.locals),
                }),
            decreases block.nodes@.len() - n,
        {
            let id: u32 = block.nodes[n];
            proof {
                node_failure_stays(*ir, *specialization, *block, st, (n + 1) as nat, block.nodes@.len());
            }
            if id as usize >= ir.nodes.len() {
                return Err(CompileFailure::InvalidArtifact);
            }
            assert(ir.nodes@[id as int].wf());
            match scan_node(specialization, &ir.nodes[id as usize], &mut locals, &mut owned, depth) {
                Ok(after) => {
                    depth = after;
                },
                Err(e) => return Err(e),
            }
            n = n + 1;
        }
        b = b + 1;
    }
    Ok(locals)
}

proof fn node_failure_stays(ir: OptimizedIr, s: NumericSpecialization, block: OptimizedBlock, st: OwnershipState, a: nat, n: nat)
    requires
        a <= n,
    ensures
        nodes_step(ir, s, block, st, a) matches Err(e) ==> nodes_step(ir, s, block, st, n) == Err::<
            OwnershipState,
            CompileFailure,
        >(e),
    decreases n,
{
    if a < n {
        node_failure_stays(ir, s, block, st, a, (n - 1) as nat);
    }
}

proof fn failure_stays(
    ir: OptimizedIr,
    s: NumericSpecialization,
    entries: Map<u32, Vec<OptProvenance>>,
    locals: Seq<bool>,
    slots: nat,
    a: nat,
    n: nat,
)
    requires
        a <= n,
    ensures
        blocks_step(ir, s, entries, locals, slots, a) matches Err(e) ==> blocks_step(ir, s, entries, locals, slots, n)
            == Err::<Seq<bool>, CompileFailure>(e),
    decreases n,
{
    if a < n {
        failure_stays(ir, s, entries, locals, slots, a, (n - 1) as nat);
    }
}

} // verus!
