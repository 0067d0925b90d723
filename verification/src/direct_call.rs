//! The secondary entry of a function: arguments and result are unboxed, so that
//! a compiled caller reaches it without a frame.
use crate::bool_leaf::bool_entry;
use crate::bool_leaf::bool_plan;
use crate::bool_leaf::cfg_fits;
use crate::bool_leaf::cfg_wf;
use crate::bool_leaf::lower_direct_bool_leaf;
use crate::bool_leaf::LeafBlock;
use crate::bool_leaf::LeafScan;
use crate::code::World;
use crate::control::is_interruption;
use crate::control::CompileControl;
use crate::control::CompileFailure;
use crate::direct_leaf::constants_encoded;
use crate::direct_leaf::constants_fit;
use crate::direct_leaf::plan_ends;
use crate::direct_leaf::direct_plan;
use crate::direct_leaf::emit_entry;
use crate::direct_leaf::entry_types;
use crate::direct_leaf::has_argument;
use crate::direct_leaf::leaf_outcome;
use crate::direct_leaf::number_type;
use crate::direct_leaf::linked_entry;
use crate::direct_leaf::linked_plan;
use crate::direct_leaf::linked_refusal;
use crate::direct_leaf::lower_target_only_linked_leaf;
use crate::direct_leaf::plan_direct;
use crate::direct_leaf::LeafEntry;
use crate::direct_leaf::LeafPlan;
use crate::inline_frames::InlineOp;
use crate::runtime::BoundedSignature;
use crate::runtime::FeedbackRepresentation;
use crate::runtime::VerifiedFunction;
use crate::code::Ty;
use crate::specialized_calls::passed_type;
use vstd::prelude::*;

verus! {

/// A function with what is known of its control flow: its basic blocks, and
/// the operations of the first one.
#[derive(Debug)]
pub struct DirectCallee {
    pub function: VerifiedFunction,
    pub blocks: Vec<LeafBlock>,
    pub ops: Vec<InlineOp>,
}

/// What decides which kind of entry a signature asks for.
#[derive(Clone, Copy, Debug, PartialEq, Eq, Structural)]
pub enum DirectKind {
    /// A signature of another function, or one that no entry can have.
    Invalid,
    /// Some argument is a reference.
    Linked,
    /// Some argument is a truth value.
    Bool,
    Int32,
    Float64,
}

pub open spec fn direct_kind(function: VerifiedFunction, signature: BoundedSignature) -> DirectKind {
    if signature.function != function.key || signature.arguments@.len() != function.arg_count {
        DirectKind::Invalid
    } else if signature.arguments@.contains(FeedbackRepresentation::HeapRef) {
        DirectKind::Linked
    } else if signature.arguments@.contains(FeedbackRepresentation::Bool) {
        DirectKind::Bool
    } else if exists|i: int| 0 <= i < signature.arguments@.len() && #[trigger] signature.arguments@[i] != signature.result {
        DirectKind::Invalid
    } else {
        match signature.result {
            FeedbackRepresentation::Int32 => DirectKind::Int32,
            FeedbackRepresentation::Float64 => DirectKind::Float64,
            _ => DirectKind::Invalid,
        }
    }
}

fn find_kind(function: &VerifiedFunction, signature: &BoundedSignature) -> (r: DirectKind)
    ensures
        r == direct_kind(*function, *signature),
{
    if signature.function != function.key || signature.arguments.len() != function.arg_count as usize {
        return DirectKind::Invalid;
    }
    if has_argument(signature, FeedbackRepresentation::HeapRef) {
        return DirectKind::Linked;
    }
    if has_argument(signature, FeedbackRepresentation::Bool) {
        return DirectKind::Bool;
    }
    let mut i: usize = 0;
    while i < signature.arguments.len()
        invariant
            i <= signature.arguments@.len(),
            signature.function == function.key,
            signature.arguments@.len() == function.arg_count,
            !signature.arguments@.contains(FeedbackRepresentation::HeapRef),
            !signature.arguments@.contains(FeedbackRepresentation::Bool),
            forall|k: int| 0 <= k < i ==> #[trigger] signature.arguments@[k] == signature.result,
        decreases signature.arguments@.len() - i,
    {
        if signature.arguments[i] != signature.result {
            return DirectKind::Invalid;
        }
        i = i + 1;
    }
    match signature.result {
        FeedbackRepresentation::Int32 => DirectKind::Int32,
        FeedbackRepresentation::Float64 => DirectKind::Float64,
        _ => DirectKind::Invalid,
    }
}

/// An entry on one kind of number, or why there is none.
pub open spec fn numeric_result(
    callee: DirectCallee,
    signature: BoundedSignature,
    float: bool,
    r: Result<LeafEntry, CompileFailure>,
) -> bool {
    match direct_plan(callee.function.instructions@, float, signature.arguments@.len() as int, 0, 0) {
        LeafPlan::Fails(e) => r == Err::<LeafEntry, CompileFailure>(e),
        LeafPlan::Ready(ops) => r matches Ok(entry) && linked_entry(entry, signature, ops),
        LeafPlan::Malformed => false,
    }
}

pub open spec fn linked_result(
    callee: DirectCallee,
    signature: BoundedSignature,
    controlled: bool,
    r: Result<LeafEntry, CompileFailure>,
) -> bool {
    match linked_refusal(callee.function, signature, callee.blocks@.len() as int) {
        Some(e) => r == Err::<LeafEntry, CompileFailure>(e),
        None => {
            ||| controlled && r is Err && is_interruption(r->Err_0)
            ||| match linked_plan(callee.ops@, signature, 0, Seq::empty()) {
                LeafPlan::Ready(planned) => r matches Ok(entry) && linked_entry(entry, signature, planned),
                LeafPlan::Fails(e) => r == Err::<LeafEntry, CompileFailure>(e),
                LeafPlan::Malformed => false,
            }
        },
    }
}

pub open spec fn bool_result(callee: DirectCallee, signature: BoundedSignature, r: Result<LeafEntry, CompileFailure>) -> bool {
    match bool_plan(callee.function, callee.blocks@, signature) {
        LeafScan::Fails(e) => r == Err::<LeafEntry, CompileFailure>(e),
        LeafScan::Ready(models) => r matches Ok(entry) && bool_entry(entry, signature, models),
    }
}

pub open spec fn direct_result(
    callee: DirectCallee,
    signature: BoundedSignature,
    controlled: bool,
    r: Result<LeafEntry, CompileFailure>,
) -> bool {
    match direct_kind(callee.function, signature) {
        DirectKind::Invalid => r == Err::<LeafEntry, CompileFailure>(CompileFailure::InvalidArtifact),
        DirectKind::Linked => linked_result(callee, signature, controlled, r),
        DirectKind::Bool => bool_result(callee, signature, r),
        DirectKind::Int32 => numeric_result(callee, signature, false, r),
        DirectKind::Float64 => numeric_result(callee, signature, true, r),
    }
}

/// What lowering relies on: constants have their bytes, the blocks are those of
/// the function, and a function on one kind of number ends at its return.
pub open spec fn callee_wf(callee: DirectCallee, signature: BoundedSignature) -> bool {
    &&& constants_encoded(callee.function.instructions@)
    &&& match direct_kind(callee.function, signature) {
        DirectKind::Bool => cfg_wf(callee.blocks@, callee.function.instructions@),
        DirectKind::Int32 => direct_plan(
            callee.function.instructions@,
            false,
            signature.arguments@.len() as int,
            0,
            0,
        ) != LeafPlan::Malformed,
        DirectKind::Float64 => direct_plan(
            callee.function.instructions@,
            true,
            signature.arguments@.len() as int,
            0,
            0,
        ) != LeafPlan::Malformed,
        _ => true,
    }
}

impl DirectCallee {
    /// Whether an entry with the signature can be lowered.
    pub fn is_wf(&self, signature: &BoundedSignature) -> (r: bool)
        ensures
            r == callee_wf(*self, *signature),
    {
        let instructions = &self.function.instructions;
        constants_fit(instructions) && match find_kind(&self.function, signature) {
            DirectKind::Bool => cfg_fits(&self.blocks, instructions),
            DirectKind::Int32 => plan_ends(instructions, false, signature.arguments.len()),
            DirectKind::Float64 => plan_ends(instructions, true, signature.arguments.len()),
            _ => true,
        }
    }
}

fn lower_numeric(callee: &DirectCallee, signature: &BoundedSignature, float: bool) -> (r: Result<LeafEntry, CompileFailure>)
    requires
        constants_encoded(callee.function.instructions@),
        forall|i: int| 0 <= i < signature.arguments@.len() ==> #[trigger] signature.arguments@[i] == signature.result,
        passed_type(signature.result) == (if float {
            Ty::F64
        } else {
            Ty::I32
        }),
        direct_plan(callee.function.instructions@, float, signature.arguments@.len() as int, 0, 0) != LeafPlan::Malformed,
    ensures
        numeric_result(*callee, *signature, float, r),
{
    let planned = match plan_direct(&callee.function.instructions, float, signature.arguments.len()) {
        Ok(planned) => planned,
        Err(e) => {
            return Err(e);
        },
    };
    let ty = if float {
        Ty::F64
    } else {
        Ty::I32
    };
    let types = entry_types(&signature.arguments);
    let ghost arity = (types@.len() - 1) as nat;
    assert(types@.skip(1) =~= Seq::new(arity, |i: int| number_type(float))) by {
        assert forall|i: int| 0 <= i < arity implies types@.skip(1)[i] == number_type(float) by {
            assert(signature.arguments@[i] == signature.result);
        }
    }
    let entry = emit_entry(&planned, types, ty);
    proof {
        assert(arity == signature.arguments@.len());
        assert forall|w: World| #[trigger]
            leaf_outcome(planned@, signature.arguments@.len(), passed_type(signature.result), entry.code.at(w), w) by {
            assert(leaf_outcome(planned@, arity, ty, entry.code.at(w), w));
        }
    }
    Ok(entry)
}

/// Builds the entry that the signature asks for. Its parameters are the address
/// of the output and the unboxed arguments; it answers zero where it stored the
/// result, and one where the caller has to repeat the call.
pub fn lower_direct_call_machine(callee: &DirectCallee, signature: &BoundedSignature, control: Option<&CompileControl>) -> (r: Result<
    LeafEntry,
    CompileFailure,
>)
    requires
        callee_wf(*callee, *signature),
    ensures
        direct_result(*callee, *signature, control is Some, r),
{
    match find_kind(&callee.function, signature) {
        DirectKind::Invalid => Err(CompileFailure::InvalidArtifact),
        DirectKind::Linked => lower_target_only_linked_leaf(
            &callee.function,
            signature,
            callee.blocks.len(),
            &callee.ops,
            control,
        ),
        DirectKind::Bool => lower_direct_bool_leaf(&callee.function, &callee.blocks, signature),
        DirectKind::Int32 => lower_numeric(callee, signature, false),
        DirectKind::Float64 => lower_numeric(callee, signature, true),
    }
}

} // verus!
