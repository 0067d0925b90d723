//! What feedback specializes a function for, and what plans may rely on.
use crate::array_plan::ArrayContext;
use crate::array_plan::access_of;
use crate::array_plan::invalidates;
use crate::call_guards::hoistable;
use crate::counted_loops::ends_increment;
use crate::counted_loops::header_counter;
use crate::counted_loops::kept_code;
use crate::counted_loops::latch;
use crate::counted_loops::node_at;
use crate::counted_loops::writes_local;
use crate::entry_guards::SlotRequirements;
use crate::ir::FrameSlot;
use crate::ir::KnownFacts;
use crate::ir::LoopAnalysis;
use crate::ir::OptimizedIr;
use crate::ir::OptimizedNode;
use crate::ir::ScalarHeapEffect;
use crate::ir::ScalarHeapOperation;
use crate::machine_plan::Refinement;
use crate::machine_plan::access_specialized;
use crate::machine_plan::array_access_of;
use crate::machine_plan::assumes_property;
use crate::machine_plan::defers_locals;
use crate::machine_plan::is_int32_loop;
use crate::machine_plan::keeps_arrays;
use crate::machine_plan::keeps_field;
use crate::machine_plan::knows_operation;
use crate::machine_plan::refinement_of;
use crate::names::has_prefix;
use crate::names::spec_is_call_site;
use crate::names::spec_local_slot;
use crate::numeric::FoldOutcome;
use crate::numeric::NumericBinaryOp;
use crate::numeric::NumericConstant;
use crate::numeric::fold_outcome;
use crate::opcode_laws::begins;
use crate::opcodes::HeapKind;
use crate::opcodes::NumberKind;
use crate::opcodes::OpKind;
use crate::opcodes::op_kind;
use crate::property_cache::PropertyAccessPlan;
use crate::property_cache::PropertyBoundary;
use crate::property_cache::tag_of;
use crate::runtime::ArrayAccess;
use crate::runtime::ArrayFeedback;
use crate::runtime::ArrayMode;
use crate::runtime::Constant;
use crate::runtime::FeedbackRepresentation;
use crate::runtime::FeedbackSnapshot;
use crate::runtime::FunctionKey;
use crate::runtime::ObservedType;
use crate::runtime::PropertySite;
use crate::runtime::VerifiedFunction;
use crate::scalar::ScalarOperation;
use crate::scalar_ops::ScalarNode;
use crate::specialization::EntryRepresentation;
use crate::specialization::NumericSpecialization;
use crate::specialization::ScalarNumericMode;
use crate::specialization::is_update;
use crate::specialization::numeric_mode_at;
use crate::specialization::numeric_pool;
use crate::specialization::observed_entry;
use crate::specialization::represented_entry;
use crate::specialization::safe_property;
use crate::specialization::specialized;
use crate::specialization::uniform_entry;
use crate::specialized_calls::representation_tag;
use crate::spelling::spelling;
use vstd::prelude::*;

verus! {

/// The entry guard for a representation admits exactly the values of it, and the
/// guard for an observed type exactly the values of that type.
pub proof fn guards_admit_what_was_observed(
    r: SlotRequirements<'_>,
    index: int,
    representation: FeedbackRepresentation,
    observed: ObservedType,
    tag: int,
)
    requires
        0 <= index < r.argument_count,
    ensures
        r.required(index) == represented_entry(representation) ==> (r.admits(index, tag) <==> tag == representation_tag(
            representation,
        )),
        r.required(index) == observed_entry(observed) && (observed == ObservedType::Int32 || observed == ObservedType::Float64
            || observed == ObservedType::Bool) ==> (r.admits(index, tag) <==> Some(tag) == tag_of(observed)),
        r.required(index) == observed_entry(ObservedType::Object) ==> (r.admits(index, tag) <==> tag == -1),
        observed_entry(ObservedType::Null) == EntryRepresentation::Any,
        observed_entry(ObservedType::Undefined) == EntryRepresentation::Any,
        observed_entry(ObservedType::Int32) == represented_entry(FeedbackRepresentation::Int32),
        observed_entry(ObservedType::Float64) == represented_entry(FeedbackRepresentation::Float64),
        observed_entry(ObservedType::Bool) == represented_entry(FeedbackRepresentation::Bool),
        observed_entry(ObservedType::Object) == represented_entry(FeedbackRepresentation::HeapRef),
{
}

/// Code on Int32 is made for an instruction only where feedback saw nothing but
/// Int32 operands there, and results of the operation's own type.
#[verifier::spinoff_prover]
#[verifier::rlimit(60)]
pub proof fn integer_code_was_seen_on_integers(
    s: NumericSpecialization,
    function: VerifiedFunction,
    key: FunctionKey,
    feedback: FeedbackSnapshot,
    pc: u32,
)
    requires
        specialized(s, function, key, feedback),
    ensures
        s.int_pcs@.contains(pc) ==> exists|i: int, site: int|
            {
                let name = (#[trigger] function.instructions@[i]).name@;
                let seen = #[trigger] feedback.binaries@[site];
                let compares = name == "lt"@ || name == "lte"@ || name == "gt"@ || name == "gte"@;
                &&& 0 <= i < function.instructions@.len()
                &&& function.instructions@[i].pc == pc
                &&& compares || name == "add"@ || name == "sub"@ || name == "mul"@ || name == "div"@ || name == "or"@
                &&& feedback.spec_binary_at(key, pc) == Some(site)
                &&& seen.monomorphic
                &&& seen.lhs@ == seq![ObservedType::Int32] && seen.rhs@ == seq![ObservedType::Int32]
                &&& seen.result@ == seq![if compares { ObservedType::Bool } else { ObservedType::Int32 }]
            },
        s.float_pcs@.contains(pc) ==> exists|i: int, site: int|
            {
                let name = (#[trigger] function.instructions@[i]).name@;
                let seen = #[trigger] feedback.binaries@[site];
                &&& 0 <= i < function.instructions@.len()
                &&& function.instructions@[i].pc == pc
                &&& name == "add"@ || name == "sub"@ || name == "mul"@ || name == "div"@
                &&& feedback.spec_binary_at(key, pc) == Some(site)
                &&& seen.monomorphic
                &&& seen.lhs@ == seq![ObservedType::Float64] && seen.rhs@ == seq![ObservedType::Float64]
                &&& seen.result@ == seq![ObservedType::Float64]
            },
        s.key == Some(key),
        s.entry == EntryRepresentation::Int32 || s.entry == EntryRepresentation::Float64 || s.entry == EntryRepresentation::Any,
{
    if s.int_pcs@.contains(pc) {
        let n = function.instructions@.len() as int;
        let i = choose|i: int|
            0 <= i < n && function.instructions@[i].pc == pc && #[trigger] crate::specialization::int_site(
                function,
                key,
                feedback,
                i,
            );
        let site = feedback.spec_binary_at(key, pc)->Some_0;
        let a = function.instructions@[i];
        let b = feedback.binaries@[site];
    }
    if s.float_pcs@.contains(pc) {
        let n = function.instructions@.len() as int;
        let i = choose|i: int|
            0 <= i < n && function.instructions@[i].pc == pc && #[trigger] crate::specialization::float_site(
                function,
                key,
                feedback,
                i,
            );
        let site = feedback.spec_binary_at(key, pc)->Some_0;
        let a = function.instructions@[i];
        let b = feedback.binaries@[site];
    }
}

/// Where a function is entered with one representation for all its arguments,
/// feedback saw it for each argument and for the result.
pub proof fn uniform_entries_were_seen_throughout(
    function: VerifiedFunction,
    key: FunctionKey,
    feedback: FeedbackSnapshot,
    k: int,
)
    ensures
        uniform_entry(function, key, feedback) != EntryRepresentation::Any ==> {
            &&& feedback.spec_signature(key) matches Some(s) && {
                let signature = feedback.signatures@[s];
                &&& signature.arguments@.len() == function.arg_count
                &&& signature.result == FeedbackRepresentation::Int32 || signature.result == FeedbackRepresentation::Float64
                &&& 0 <= k < signature.arguments@.len() ==> signature.arguments@[k] == signature.result
                &&& uniform_entry(function, key, feedback) == (if signature.result == FeedbackRepresentation::Int32 {
                    EntryRepresentation::Int32
                } else {
                    EntryRepresentation::Float64
                })
            }
        },
{
}

/// Accesses to a property are specialized for at most three shapes, each with the
/// property on the object itself and as a value. References are only read, and
/// stores need a property that can be written.
#[verifier::spinoff_prover]
#[verifier::rlimit(60)]
pub proof fn specialized_properties_are_plain(name: Seq<char>, site: PropertySite, k: int)
    requires
        safe_property(name, site),
        0 <= k < site.observations@.len(),
    ensures
        1 <= site.observations@.len() <= 3,
        !site.megamorphic,
        ({
            let o = site.observations@[k];
            &&& o.prototype_identity == 0 && o.prototype_generation == 0 && !o.accessor
            &&& name == "put_field"@ ==> o.writable && tag_of(o.value) is Some
            &&& name == "get_field"@ ==> tag_of(o.value) is Some || o.value == ObservedType::Object
        }),
{
    spelling();
    let o = site.observations@[k];
}

/// The constants that code may push are the function's numbers, each at its own
/// index and as it is.
pub proof fn pooled_constants_are_the_numbers(constants: Seq<Constant>, n: nat, index: u32)
    requires
        n <= constants.len(),
    ensures
        numeric_pool(constants, n).contains_key(index) <==> exists|k: int|
            0 <= k < n && (#[trigger] constants[k]).index == index && (constants[k].tag == 0 || constants[k].tag == 8),
        numeric_pool(constants, n).contains_key(index) ==> {
            let v = numeric_pool(constants, n)[index];
            exists|k: int|
                0 <= k < n && (#[trigger] constants[k]).index == index && v.payload == constants[k].payload && v.tag
                    == constants[k].tag && (v.tag == 0 || v.tag == 8)
        },
    decreases n,
{
    if n > 0 {
        pooled_constants_are_the_numbers(constants, (n - 1) as nat, index);
        let c = constants[n - 1];
        if numeric_pool(constants, n).contains_key(index) && c.index == index && (c.tag == 0 || c.tag == 8) {
            assert(constants[n - 1].index == index);
        }
    }
}

/// Where two modes are possible the double one is taken, except for updates and
/// lengths that are known to be Int32; where nothing was seen there is none.
pub proof fn modes_follow_feedback(s: NumericSpecialization, function: VerifiedFunction, pc: u32)
    ensures
        ({
            let mode = numeric_mode_at(s, function, pc);
            &&& mode is None ==> !s.int_pcs@.contains(pc) && !s.float_pcs@.contains(pc)
            &&& mode == Some(ScalarNumericMode::Float64) ==> s.float_pcs@.contains(pc)
            &&& s.float_pcs@.contains(pc) && mode == Some(ScalarNumericMode::Int32) ==> (exists|i: int|
                0 <= i < function.instructions@.len() && (#[trigger] function.instructions@[i]).pc == pc && is_update(
                    function.instructions@[i].name@,
                )) || exists|i: int| 0 <= i < s.arrays@.len() && (#[trigger] s.arrays@[i]).pc == pc && s.arrays@[i].access
                == ArrayAccess::Length && s.arrays@[i].only_mode is Some
        }),
{
}

/// Constants fold to the exact integer where it is an Int32, and a product of zero
/// and a negative number to the negative zero. Everything else is left to doubles.
pub proof fn constants_fold_exactly(op: NumericBinaryOp, l: i32, r: i32, x: i32)
    ensures
        ({
            let folded = fold_outcome(op, NumericConstant::Int32(l), NumericConstant::Int32(r));
            let exact = folded == FoldOutcome::Constant(NumericConstant::Int32(x));
            let negative_zero = l == 0 && r < 0 || l < 0 && r == 0;
            &&& op == NumericBinaryOp::Add ==> (exact <==> x == l + r)
            &&& op == NumericBinaryOp::Sub ==> (exact <==> x + r == l)
            &&& op == NumericBinaryOp::Mul ==> (exact <==> x == l * r && !negative_zero)
            &&& op == NumericBinaryOp::Div ==> folded == FoldOutcome::Double
            &&& op == NumericBinaryOp::Mul && negative_zero ==> folded == FoldOutcome::Constant(
                NumericConstant::Float64(0x8000_0000_0000_0000),
            )
            &&& folded != FoldOutcome::Double ==> op != NumericBinaryOp::Div
        }),
        forall|bits: u64, other: NumericConstant|
            #[trigger] fold_outcome(op, NumericConstant::Float64(bits), other) == FoldOutcome::Double,
        forall|bits: u64, other: NumericConstant|
            #[trigger] fold_outcome(op, other, NumericConstant::Float64(bits)) == FoldOutcome::Double,
{
}

/// Plans and the lowering call the same opcodes accesses to arrays, and the same
/// ones arithmetic, operations on bits and comparisons.
#[verifier::spinoff_prover]
#[verifier::rlimit(60)]
pub proof fn plans_and_lowering_agree_on_opcodes(node: OptimizedNode, scalar: ScalarNode)
    requires
        node.kind is Bytecode,
    ensures
        array_access_of(node.name()) == Some(ArrayAccess::Load) <==> op_kind(node) == OpKind::Heap(HeapKind::ElementLoad),
        array_access_of(node.name()) == Some(ArrayAccess::Length) <==> op_kind(node) == OpKind::Heap(HeapKind::Length),
        array_access_of(node.name()) == Some(ArrayAccess::Store) <==> op_kind(node) == OpKind::Heap(HeapKind::ElementStore),
        knows_operation(node.name(), scalar) ==> op_kind(node) == OpKind::Number(NumberKind::Arithmetic) || op_kind(node)
            == OpKind::Number(NumberKind::Bitwise) || op_kind(node) == OpKind::Number(NumberKind::Comparison),
        op_kind(node) == OpKind::Number(NumberKind::Comparison) ==> (knows_operation(node.name(), scalar) <==> scalar.operation matches Some(ScalarOperation::Compare { .. })),
        op_kind(node) == OpKind::Number(NumberKind::Arithmetic) ==> (knows_operation(node.name(), scalar) <==> scalar.operation matches Some(ScalarOperation::Binary { .. })),
{
    spelling();
}

/// Which accesses to arrays are specialized: only what was always of one kind, of
/// that access; lengths of a known kind, and stores into numbers alone.
pub proof fn specialized_accesses_are_of_one_kind(site: ArrayFeedback, access: ArrayAccess)
    requires
        access_specialized(site, access),
    ensures
        site.access == access,
        site.can_specialize,
        site.only_mode is Some,
        access == ArrayAccess::Store ==> site.only_mode == Some(ArrayMode::Int32) || site.only_mode == Some(ArrayMode::Float64),
        access == ArrayAccess::Length ==> site.only_mode != Some(ArrayMode::Generic),
{
}

/// What an operation on the heap does to an array: an element is read or written
/// at an index, and the property `length` is read.
pub proof fn heap_operations_are_accesses(operation: ScalarHeapOperation, length: u32)
    ensures
        access_of(operation, length) matches Some((base, access, index, result)) ==> {
            &&& access == ArrayAccess::Length <==> index is None
            &&& access == ArrayAccess::Store <==> result is None
            &&& operation matches ScalarHeapOperation::GetElement { base: b, index: i, result: r } ==> access == ArrayAccess::Load
                && base == b && index == Some(i) && result == Some(r)
            &&& operation matches ScalarHeapOperation::PutElement { base: b, index: i } ==> access == ArrayAccess::Store && base
                == b && index == Some(i)
            &&& operation matches ScalarHeapOperation::GetProperty { base: b, atom, result: r } ==> atom == length && access
                == ArrayAccess::Length && base == b && result == Some(r)
        },
        operation is PutProperty ==> access_of(operation, length) is None,
        operation matches ScalarHeapOperation::GetProperty { atom, .. } ==> (access_of(operation, length) is Some <==> atom == length),
{
}

/// What is known of arrays survives a node that computes, and no node that writes
/// the heap or a slot; code of the runtime is survived where it was certified or
/// replaced by guarded code.
pub proof fn array_knowledge_survives_computation(ctx: ArrayContext<'_>, i: int)
    ensures
        ctx.ir.nodes@[i].effect == ScalarHeapEffect::Pure ==> !invalidates(ctx, i),
        ctx.ir.nodes@[i].effect == ScalarHeapEffect::HeapWrite ==> invalidates(ctx, i),
        ctx.ir.nodes@[i].effect == ScalarHeapEffect::FrameWrite ==> invalidates(ctx, i),
        ctx.ir.nodes@[i].effect == ScalarHeapEffect::Reentrant ==> (invalidates(ctx, i) <==> !ctx.planned(i) && !(i
            < ctx.non_reentrant@.len() && ctx.non_reentrant@[i])),
{
}

/// Array storage stays known over a node that computes or that writes one local
/// which owns nothing, and not over one that writes the heap.
#[verifier::spinoff_prover]
#[verifier::rlimit(60)]
pub proof fn storage_survives_plain_writes(node: OptimizedNode, scalar: ScalarNode, owned: Seq<bool>, guarded: bool)
    ensures
        node.effect == ScalarHeapEffect::Pure ==> keeps_arrays(node, scalar, owned, guarded),
        node.effect == ScalarHeapEffect::HeapWrite ==> !keeps_arrays(node, scalar, owned, guarded),
        node.effect == ScalarHeapEffect::FrameWrite && keeps_arrays(node, scalar, owned, guarded) ==> node.frame_definitions@.len()
            == 1 && (node.frame_definitions@[0] matches FrameSlot::Local(index) && index < owned.len() && !owned[index as int]),
        node.effect == ScalarHeapEffect::Reentrant && !node.is_bytecode() ==> !keeps_arrays(node, scalar, owned, guarded),
        node.effect == ScalarHeapEffect::Reentrant && node.name() == "get_array_el"@ && node.is_bytecode() ==> (keeps_arrays(
            node,
            scalar,
            owned,
            guarded,
        ) <==> guarded),
        node.effect == ScalarHeapEffect::Reentrant && spec_is_call_site(node.name()) ==> !keeps_arrays(node, scalar, owned, guarded),
{
    spelling();
    if spec_is_call_site(node.name()) {
        let name = node.name();
        if has_prefix(name, "call"@) {
            assert(name.take(4)[0] == name[0]);
            assert(name.take(4)[1] == name[1]);
        } else {
            assert(name.take(9)[0] == name[0]);
            assert(name.take(9)[1] == name[1]);
        }
    }
}

/// A plan is settled where it relies on exactly the sites that it has; it is
/// dropped where it lost one that it relied on, and refined where it only gained.
pub proof fn plans_settle_on_their_own_sites(guarded: Seq<bool>, next: Seq<bool>, i: int)
    requires
        guarded.len() == next.len(),
        0 <= i < guarded.len(),
    ensures
        refinement_of(guarded, next) == Refinement::Settled ==> guarded[i] == next[i],
        refinement_of(guarded, next) != Refinement::Discard && guarded[i] ==> next[i],
        guarded[i] && !next[i] ==> refinement_of(guarded, next) == Refinement::Discard,
        guarded =~= next ==> refinement_of(guarded, next) == Refinement::Settled,
{
}

/// Raw code on Int32 is made only for a loop of a function that is entered with
/// Int32 throughout and calls nothing; locals are published late only elsewhere,
/// and only where none owns its value.
pub proof fn raw_loops_call_nothing(s: NumericSpecialization, ir: OptimizedIr, amortized: bool, owned: Seq<bool>, k: int)
    ensures
        is_int32_loop(s, ir) ==> s.entry == EntryRepresentation::Int32 && s.calls@.dom().len() == 0 && ir.frame_inlined_calls == 0
            && exists|b: int| 0 <= b < ir.blocks@.len() && (#[trigger] ir.blocks@[b]).is_loop_header,
        defers_locals(amortized, true, owned) == false,
        defers_locals(false, false, owned) == false,
        defers_locals(amortized, false, owned) && 0 <= k < owned.len() ==> !owned[k],
        (forall|j: int| 0 <= j < owned.len() ==> !owned[j]) ==> defers_locals(true, false, owned),
{
}

/// A counter that bounds its increments is tested at the end of the loop's header:
/// the local is read, compared as less than what is read next, and the loop is
/// left where it is not.
#[verifier::spinoff_prover]
#[verifier::rlimit(60)]
pub proof fn counters_are_tested_in_the_header(ir: OptimizedIr, header: int, members: Set<int>, counter: usize)
    requires
        header_counter(ir, header, members) == Some(counter),
    ensures
        ({
            let tail = kept_code(ir, ir.blocks@[header]);
            let n = tail.len() as int;
            &&& n >= 4
            &&& has_prefix(node_at(ir, tail, n - 4).name(), "get_loc"@)
            &&& spec_local_slot(node_at(ir, tail, n - 4).name(), node_at(ir, tail, n - 4).bytes@) == Some(counter)
            &&& node_at(ir, tail, n - 2).name() == "lt"@
            &&& has_prefix(node_at(ir, tail, n - 1).name(), "if_false"@)
            &&& node_at(ir, tail, n - 1).branch_target matches Some(target) && forall|b: int|
                0 <= b < ir.blocks@.len() && members.contains(b) ==> (#[trigger] ir.blocks@[b]).start_pc != target
        }),
{
}

/// A bounded increment reads the counter, adds one and writes it back.
pub proof fn bounded_increments_add_one(ir: OptimizedIr, code: Seq<u32>, p: int, counter: usize)
    requires
        ends_increment(ir, code, p, counter),
        writes_local(node_at(ir, code, p), counter),
    ensures
        p >= 2,
        has_prefix(node_at(ir, code, p - 2).name(), "get_loc"@),
        spec_local_slot(node_at(ir, code, p - 2).name(), node_at(ir, code, p - 2).bytes@) == Some(counter),
        node_at(ir, code, p - 1).name() == "inc"@ || node_at(ir, code, p - 1).name() == "post_inc"@,
        has_prefix(node_at(ir, code, p).name(), "put_loc"@),
        spec_local_slot(node_at(ir, code, p).name(), node_at(ir, code, p).bytes@) == Some(counter),
{
}

/// Every opcode that writes a local counts as a write of it, by the slot that it
/// names.
#[verifier::spinoff_prover]
#[verifier::rlimit(60)]
pub proof fn writes_of_locals_are_seen(node: OptimizedNode, local: usize)
    requires
        node.kind is Bytecode,
        node.bytes@.len() >= 3,
        ({
            let name = node.name();
            let short = node.bytes@[1] as int;
            let long = node.bytes@[1] + 0x100 * node.bytes@[2];
            ||| (name == "put_loc0"@ || name == "set_loc0"@) && local == 0
            ||| (name == "put_loc1"@ || name == "set_loc1"@) && local == 1
            ||| (name == "put_loc2"@ || name == "set_loc2"@) && local == 2
            ||| (name == "put_loc3"@ || name == "set_loc3"@) && local == 3
            ||| (name == "put_loc8"@ || name == "set_loc8"@ || name == "inc_loc"@ || name == "dec_loc"@ || name == "add_loc"@)
                && local == short
            ||| (name == "put_loc"@ || name == "set_loc"@) && local == long
        }),
    ensures
        writes_local(node, local),
{
    spelling();
    let name = node.name();
    if name[0] == 'p' {
        begins(name, "put_loc"@);
    } else if name[0] == 's' {
        begins(name, "set_loc"@);
    } else if name[0] == 'i' {
        begins(name, "inc_loc"@);
    } else if name[0] == 'd' {
        begins(name, "dec_loc"@);
    } else {
        begins(name, "add_loc"@);
    }
}

/// A latch is a block that goes back to the header.
pub proof fn latches_go_back(ir: OptimizedIr, header: int, block: int)
    ensures
        latch(ir, header, block) <==> ir.blocks@[block].successors@.contains(ir.blocks@[header].start_pc) && ir.blocks@[header].start_pc
            <= ir.blocks@[block].start_pc,
{
}

/// Which accesses to arrays can be lowered: none of an unknown kind, stores into
/// numbers alone, and lengths of typed arrays only where the runtime can guard
/// them.
pub proof fn lowerable_accesses(ctx: ArrayContext<'_>, access: ArrayAccess, mode: ArrayMode)
    ensures
        !ctx.lowerable(access, ArrayMode::Generic),
        ctx.lowerable(ArrayAccess::Store, mode) <==> mode == ArrayMode::Int32 || mode == ArrayMode::Float64,
        ctx.lowerable(ArrayAccess::Load, mode) <==> mode != ArrayMode::Generic,
        ctx.lowerable(ArrayAccess::Length, mode) <==> mode == ArrayMode::Packed || mode != ArrayMode::Generic
            && ctx.typed_length_guard,
{
}

/// A call target is guarded ahead of a loop only for a call in the loop of a callee
/// that is computed in place, read from an argument that nothing redefines.
pub proof fn hoisted_targets_stay_the_same(ir: OptimizedIr, loops: LoopAnalysis, facts: KnownFacts, i: int, n: int, k: int)
    requires
        hoistable(ir, loops, facts, i) is Some,
        0 <= n < ir.nodes@.len(),
        ir.nodes@[n].is_bytecode(),
        0 <= k < ir.nodes@[n].frame_definitions@.len(),
    ensures
        ({
            let fact = hoistable(ir, loops, facts, i)->Some_0;
            let call = ir.nodes@[i].call->Some_0;
            &&& ir.nodes@[n].frame_definitions@[k] != FrameSlot::Argument(fact.argument)
            &&& loops.in_loop(i)
            &&& ir.nodes@[i].call is Some && call.inline is Some && call.frame_state_node == i
            &&& facts.argument_of(call.target) == Some(fact.argument)
            &&& fact.object == call.inline->Some_0.object_identity && fact.bytecode == call.inline->Some_0.bytecode_identity
        }),
{
    let d = ir.nodes@[n].frame_definitions@[k];
}

/// A promoted field survives a node that does not clear the fields and that does
/// not touch another name for it; polls of a loop that is polled now and then
/// clear nothing.
pub proof fn fields_survive_other_nodes(
    node: OptimizedNode,
    access: Option<PropertyAccessPlan>,
    boundary: PropertyBoundary,
    amortized: bool,
    candidate: usize,
)
    ensures
        access matches Some(other) && other.aliases@.contains(candidate) ==> !keeps_field(node, access, boundary, amortized, candidate),
        boundary == PropertyBoundary::FlushInvalidate && !amortized ==> !keeps_field(node, access, boundary, amortized, candidate),
        access is None && (boundary == PropertyBoundary::Keep || boundary == PropertyBoundary::Flush) ==> keeps_field(
            node,
            access,
            boundary,
            amortized,
            candidate,
        ),
{
}

/// A field is promoted only where one shape was seen.
pub proof fn promoted_fields_have_one_shape(node: OptimizedNode, s: NumericSpecialization, promotable: Seq<bool>)
    requires
        assumes_property(node, s, promotable),
    ensures
        s.properties@.contains_key(node.pc) && s.properties@[node.pc]@.len() == 1,
        node.id < promotable.len() && promotable[node.id as int],
        node.heap_operation matches Some(operation) && (operation is GetProperty || operation is PutProperty),
{
}

} // verus!
