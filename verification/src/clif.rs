//! The outside code builder: what it holds, and how code is appended to it.
//!
//! A builder's contents are the operations that it was given, in order, each with
//! the number that it answered. Values, variables, blocks, stack slots and
//! signatures go by their numbers.
use crate::code::BinaryOp;
use crate::code::ConvertOp;
use crate::code::FloatCc;
use crate::code::FloatOp;
use crate::code::FloatUnaryOp;
use crate::code::IntCc;
use crate::code::Ty;
use crate::code::UnaryOp;
use cranelift_codegen::ir::condcodes::FloatCC;
use cranelift_codegen::ir::condcodes::IntCC;
use cranelift_codegen::ir::immediates::Ieee64;
use cranelift_codegen::ir::types;
use cranelift_codegen::ir::AbiParam;
use cranelift_codegen::ir::ArgumentPurpose;
use cranelift_codegen::ir::Block;
use cranelift_codegen::ir::Function;
use cranelift_codegen::ir::InstBuilder;
use cranelift_codegen::ir::MemFlags;
use cranelift_codegen::ir::SigRef;
use cranelift_codegen::ir::Signature;
use cranelift_codegen::ir::StackSlot;
use cranelift_codegen::ir::StackSlotData;
use cranelift_codegen::ir::StackSlotKind;
use cranelift_codegen::ir::UserFuncName;
use cranelift_codegen::ir::Value;
use cranelift_codegen::isa::CallConv;
use cranelift_frontend::FunctionBuilder;
use cranelift_frontend::FunctionBuilderContext;
use cranelift_frontend::Variable;
use vstd::prelude::*;

verus! {

/// A function of the code generator.
#[verifier::external_type_specification]
#[verifier::external_body]
pub struct ExFunction(cranelift_codegen::ir::Function);

/// A calling convention.
#[verifier::external_type_specification]
#[verifier::external_body]
pub struct ExCallConv(cranelift_codegen::isa::CallConv);

/// What a builder keeps from one function to the next.
#[verifier::external_type_specification]
#[verifier::external_body]
pub struct ExFunctionBuilderContext(cranelift_frontend::FunctionBuilderContext);

/// A function that is being built.
#[verifier::external_type_specification]
#[verifier::external_body]
pub struct ExFunctionBuilder<'a>(cranelift_frontend::FunctionBuilder<'a>);

/// An operation on a builder. Names are numbers that the builder gave.
#[allow(inconsistent_fields)]
pub enum Op {
    CreateBlock,
    SetCold { block: u32 },
    SwitchTo { block: u32 },
    BlockParam { block: u32, ty: Ty },
    DeclareVar { var: u32, ty: Ty },
    CreateSlot { size: u32, align_shift: u8 },
    ImportSignature { params: Seq<Ty>, results: Seq<Ty> },
    Const { ty: Ty, imm: i64 },
    FloatConst { bits: i64 },
    Binary { op: BinaryOp, a: u32, b: u32 },
    /// Answers the wrapped result; the flag has the second number.
    Overflowing { op: BinaryOp, a: u32, b: u32, flag: u32 },
    Unary { op: UnaryOp, a: u32 },
    Compare { cc: IntCc, a: u32, b: u32 },
    FloatBinary { op: FloatOp, a: u32, b: u32 },
    FloatUnary { op: FloatUnaryOp, a: u32 },
    FloatCompare { cc: FloatCc, a: u32, b: u32 },
    Convert { op: ConvertOp, to: Ty, a: u32 },
    Select { cond: u32, a: u32, b: u32 },
    Load { ty: Ty, base: u32, offset: i32 },
    Store { value: u32, base: u32, offset: i32 },
    SlotAddr { slot: u32, offset: i32 },
    SlotLoad { ty: Ty, slot: u32, offset: i32 },
    SlotStore { value: u32, slot: u32, offset: i32 },
    Call { signature: u32, callee: u32, args: Seq<u32> },
    UseVar { var: u32 },
    DefVar { var: u32, value: u32 },
    Branch { cond: u32, then_block: u32, then_args: Seq<u32>, else_block: u32, else_args: Seq<u32> },
    Jump { block: u32, args: Seq<u32> },
    Return { values: Seq<u32> },
    /// No block is jumped to from anywhere else.
    SealAll,
}

/// An operation with the number that was answered, where there is one.
pub struct Built {
    pub op: Op,
    pub result: u32,
}

/// The operations that a builder was given.
pub uninterp spec fn built(builder: FunctionBuilder<'_>) -> Seq<Built>;

/// What a function takes and answers, and how it is called.
pub struct Interface {
    pub params: Seq<Passed>,
    pub results: Seq<Ty>,
    pub conv: CallConv,
}

/// The interface of the function that a builder writes to.
pub uninterp spec fn interface(builder: FunctionBuilder<'_>) -> Interface;

/// The interface that a function was made with.
pub uninterp spec fn declared(function: Function) -> Interface;

/// The operations that a function was made of.
pub uninterp spec fn held(function: Function) -> Seq<Built>;

/// What a builder's contents amount to.
pub struct Outline {
    pub values: Map<u32, Ty>,
    pub variables: Map<u32, Ty>,
    pub slots: Set<u32>,
    pub signatures: Map<u32, (Seq<Ty>, Seq<Ty>)>,
    /// Blocks, and whether any code was written for them.
    pub blocks: Map<u32, bool>,
    /// The block that code is appended to.
    pub current: Option<u32>,
    /// The current block has nothing but parameters.
    pub pristine: bool,
    /// The parameters that the current block was given.
    pub taken: nat,
    /// The operations so far.
    pub given: nat,
    /// The blocks so far.
    pub made: nat,
    /// The variables so far.
    pub named: nat,
    /// Every block has all its predecessors.
    pub sealed: bool,
}

/// The variables of a function, and the parameters that one block is given: the
/// builder adds a parameter of its own to a block for each variable at most, and
/// a block has no more than twice this number in all.
pub const MOST_NAMES: u32 = 0x8000;

/// The values of a function, and its instructions, have numbers below this one.
pub const MOST_VALUES: u32 = 0xff_ffff;

/// The values that the builder adds on its own account, at most: one parameter
/// and one constant for each variable in each block.
pub open spec fn merged(made: nat, named: nat) -> nat {
    2 * ((made + 1) * (named + 1))
}

impl Outline {
    pub open spec fn ty(self, value: u32) -> Option<Ty> {
        if self.values.dom().contains(value) {
            Some(self.values[value])
        } else {
            None
        }
    }

    pub open spec fn has_all(self, values: Seq<u32>) -> bool {
        forall|k: int| 0 <= k < values.len() ==> #[trigger] self.ty(values[k]) is Some
    }

    pub open spec fn appended(self) -> Outline {
        Outline { pristine: false, ..self }
    }

    pub open spec fn with_value(self, value: u32, ty: Ty) -> Outline {
        Outline { values: self.values.insert(value, ty), ..self.appended() }
    }

    /// Blocks are still open to jumps, and so many further operations do not run
    /// out of numbers, one of them making a block or a variable. An operation
    /// answers two values at most.
    pub open spec fn room(self, more: int) -> bool {
        !self.sealed && 2 * (self.given + more) + merged(self.made, self.named) < MOST_VALUES
    }

    pub open spec fn filled(self) -> Outline {
        Outline { current: None, ..self.appended() }
    }
}

/// The type of an operation's result.
pub open spec fn result_type(outline: Outline, op: Op) -> Ty {
    match op {
        Op::BlockParam { ty, .. } => ty,
        Op::Const { ty, .. } => ty,
        Op::FloatConst { .. } => Ty::F64,
        Op::Binary { a, .. } => outline.values[a],
        Op::Overflowing { a, .. } => outline.values[a],
        Op::Unary { a, .. } => outline.values[a],
        Op::Compare { .. } => Ty::I8,
        Op::FloatBinary { .. } => Ty::F64,
        Op::FloatUnary { .. } => Ty::F64,
        Op::FloatCompare { .. } => Ty::I8,
        Op::Convert { to, .. } => to,
        Op::Select { a, .. } => outline.values[a],
        Op::Load { ty, .. } => ty,
        Op::SlotAddr { .. } => Ty::I64,
        Op::SlotLoad { ty, .. } => ty,
        Op::Call { signature, .. } => outline.signatures[signature].1[0],
        Op::UseVar { var } => outline.variables[var],
        _ => Ty::I8,
    }
}

pub open spec fn next(outline: Outline, step: Built) -> Outline {
    Outline { given: outline.given + 1, ..changed(outline, step) }
}

pub open spec fn changed(outline: Outline, step: Built) -> Outline {
    match step.op {
        Op::CreateBlock => Outline {
            blocks: outline.blocks.insert(step.result, false),
            made: outline.made + 1,
            ..outline
        },
        Op::SetCold { .. } => outline,
        Op::SwitchTo { block } => Outline {
            blocks: outline.blocks.insert(block, true),
            current: Some(block),
            pristine: true,
            taken: 0,
            ..outline
        },
        Op::BlockParam { ty, .. } => Outline {
            values: outline.values.insert(step.result, ty),
            taken: outline.taken + 1,
            ..outline
        },
        Op::DeclareVar { var, ty } => Outline {
            variables: outline.variables.insert(var, ty),
            named: outline.named + 1,
            ..outline
        },
        Op::CreateSlot { .. } => Outline { slots: outline.slots.insert(step.result), ..outline },
        Op::ImportSignature { params, results } => Outline {
            signatures: outline.signatures.insert(step.result, (params, results)),
            ..outline
        },
        Op::Overflowing { flag, .. } => outline.with_value(step.result, result_type(outline, step.op)).with_value(
            flag,
            Ty::I8,
        ),
        Op::Store { .. } | Op::SlotStore { .. } | Op::DefVar { .. } => outline.appended(),
        Op::Branch { .. } | Op::Jump { .. } | Op::Return { .. } => outline.filled(),
        Op::SealAll => Outline { sealed: true, ..outline },
        _ => outline.with_value(step.result, result_type(outline, step.op)),
    }
}

pub open spec fn empty_outline() -> Outline {
    Outline {
        values: Map::empty(),
        variables: Map::empty(),
        slots: Set::empty(),
        signatures: Map::empty(),
        blocks: Map::empty(),
        current: None,
        pristine: false,
        taken: 0,
        given: 0,
        made: 0,
        named: 0,
        sealed: false,
    }
}

pub open spec fn outline(steps: Seq<Built>) -> Outline
    decreases steps.len(),
{
    if steps.len() == 0 {
        empty_outline()
    } else {
        next(outline(steps.drop_last()), steps.last())
    }
}

pub proof fn outline_of_push(steps: Seq<Built>, step: Built)
    ensures
        outline(steps.push(step)) == next(outline(steps), step),
{
    assert(steps.push(step).drop_last() =~= steps);
}

pub open spec fn is_int(ty: Ty) -> bool {
    ty != Ty::F64
}

pub open spec fn width(ty: Ty) -> int {
    match ty {
        Ty::I8 => 8,
        Ty::I16 => 16,
        Ty::I32 => 32,
        Ty::I64 | Ty::F64 => 64,
    }
}

pub open spec fn converts(op: ConvertOp, from: Ty, to: Ty) -> bool {
    match op {
        ConvertOp::Reduce => is_int(from) && is_int(to) && width(to) < width(from),
        ConvertOp::SignExtend | ConvertOp::ZeroExtend => is_int(from) && is_int(to) && width(from) < width(to),
        ConvertOp::Bitcast => from == Ty::I64 && to == Ty::F64 || from == Ty::F64 && to == Ty::I64,
        ConvertOp::FloatFromSigned | ConvertOp::FloatFromUnsigned => is_int(from) && to == Ty::F64,
        ConvertOp::FloatToSigned => from == Ty::F64 && is_int(to),
    }
}

/// The operation may be given to a builder with these contents.
pub open spec fn fits(outline: Outline, op: Op) -> bool {
    outline.room(1) && match op {
        Op::CreateBlock | Op::CreateSlot { .. } | Op::ImportSignature { .. } => true,
        Op::SetCold { block } => outline.blocks.dom().contains(block),
        Op::SwitchTo { block } => outline.current is None && outline.blocks.dom().contains(block)
            && !outline.blocks[block],
        Op::BlockParam { block, .. } => outline.current == Some(block) && outline.pristine && outline.taken < MOST_NAMES,
        Op::DeclareVar { var, .. } => var < MOST_NAMES && !outline.variables.dom().contains(var),
        Op::SealAll => outline.current is None,
        _ => outline.current is Some && appends(outline, op),
    }
}

pub open spec fn appends(outline: Outline, op: Op) -> bool {
    match op {
        Op::Const { ty, .. } => is_int(ty),
        Op::FloatConst { .. } => true,
        Op::Binary { a, b, .. } => outline.ty(a) is Some && is_int(outline.values[a]) && outline.ty(b) == outline.ty(a),
        Op::Overflowing { op, a, b, .. } => {
            &&& op == BinaryOp::Add || op == BinaryOp::Sub || op == BinaryOp::Mul
            &&& outline.ty(a) is Some && is_int(outline.values[a]) && outline.ty(b) == outline.ty(a)
        },
        Op::Unary { a, .. } => outline.ty(a) is Some && is_int(outline.values[a]),
        Op::Compare { a, b, .. } => outline.ty(a) is Some && is_int(outline.values[a]) && outline.ty(b) == outline.ty(a),
        Op::FloatBinary { a, b, .. } => outline.ty(a) == Some(Ty::F64) && outline.ty(b) == Some(Ty::F64),
        Op::FloatUnary { a, .. } => outline.ty(a) == Some(Ty::F64),
        Op::FloatCompare { a, b, .. } => outline.ty(a) == Some(Ty::F64) && outline.ty(b) == Some(Ty::F64),
        Op::Convert { op, to, a } => outline.ty(a) is Some && converts(op, outline.values[a], to),
        Op::Select { cond, a, b } => outline.ty(cond) is Some && is_int(outline.values[cond]) && outline.ty(a) is Some
            && outline.ty(b) == outline.ty(a),
        Op::Load { base, .. } => outline.ty(base) == Some(Ty::I64),
        Op::Store { value, base, .. } => outline.ty(value) is Some && outline.ty(base) == Some(Ty::I64),
        Op::SlotAddr { slot, .. } => outline.slots.contains(slot),
        Op::SlotLoad { slot, .. } => outline.slots.contains(slot),
        Op::SlotStore { value, slot, .. } => outline.ty(value) is Some && outline.slots.contains(slot),
        Op::Call { signature, callee, args } => {
            &&& outline.signatures.dom().contains(signature)
            &&& outline.signatures[signature].1.len() == 1
            &&& outline.ty(callee) == Some(Ty::I64)
            &&& args.len() == outline.signatures[signature].0.len()
            &&& forall|k: int|
                0 <= k < args.len() ==> #[trigger] outline.ty(args[k]) == Some(outline.signatures[signature].0[k])
        },
        Op::UseVar { var } => outline.variables.dom().contains(var),
        Op::DefVar { var, value } => outline.variables.dom().contains(var) && outline.ty(value) == Some(
            outline.variables[var],
        ),
        Op::Branch { cond, then_block, then_args, else_block, else_args } => {
            &&& outline.ty(cond) is Some && is_int(outline.values[cond])
            &&& outline.blocks.dom().contains(then_block)
            &&& outline.blocks.dom().contains(else_block)
            &&& outline.has_all(then_args)
            &&& outline.has_all(else_args)
        },
        Op::Jump { block, args } => outline.blocks.dom().contains(block) && outline.has_all(args),
        Op::Return { values } => outline.has_all(values),
        _ => false,
    }
}

/// The operation answers a value.
pub open spec fn answers(op: Op) -> bool {
    match op {
        Op::CreateBlock | Op::SetCold { .. } | Op::SwitchTo { .. } | Op::DeclareVar { .. } | Op::CreateSlot { .. }
        | Op::ImportSignature { .. } | Op::Store { .. } | Op::SlotStore { .. } | Op::DefVar { .. } | Op::Branch { .. }
        | Op::Jump { .. } | Op::Return { .. } | Op::SealAll => false,
        _ => true,
    }
}

/// The builder took the operation and answered the number. A block or a
/// signature is a new one. A value is a new one too, but for what a variable
/// holds: that may be known already, and has the variable's type.
pub open spec fn took(before: Seq<Built>, after: Seq<Built>, op: Op, result: u32) -> bool {
    &&& after == before.push(Built { op, result })
    &&& op is CreateBlock ==> !outline(before).blocks.dom().contains(result)
    &&& op is ImportSignature ==> !outline(before).signatures.dom().contains(result)
    &&& answers(op) && outline(before).ty(result) is Some ==> op is UseVar && outline(before).ty(result) == Some(
        result_type(outline(before), op),
    )
}

/// The context holds nothing of another function.
pub uninterp spec fn blank(context: FunctionBuilderContext) -> bool;

/// Starts a function: `FunctionBuilder::new`. Neither the function nor the
/// context holds anything yet. The new builder holds nothing either, and writes
/// to the given function. What that function holds once the builder is
/// done is left unsaid here: the builder borrows it.
#[verifier::external_body]
pub(crate) fn begin<'a>(function: &'a mut Function, context: &'a mut FunctionBuilderContext) -> (r: FunctionBuilder<'a>)
    requires
        held(*old(function)).len() == 0,
        blank(*old(context)),
    ensures
        built(r).len() == 0,
        interface(r) == declared(*old(function)),
{
    FunctionBuilder::new(function, context)
}

/// A function that holds nothing: `Function::with_name_signature`. Parameters and
/// results have the types of the lists; the first parameter of a function that
/// answers through memory is marked as such.
#[verifier::external_body]
pub(crate) fn new_function(conv: CallConv, params: &Vec<Passed>, results: &Vec<Ty>) -> (r: Function)
    ensures
        declared(r) == (Interface { params: params@, results: results@, conv }),
        held(r).len() == 0,
{
    let mut signature = Signature::new(conv);
    signature.params = params.iter().map(|p| match p {
        Passed::StructReturn => AbiParam::special(types::I64, ArgumentPurpose::StructReturn),
        Passed::Plain(ty) => AbiParam::new(match ty { Ty::I8 => types::I8, Ty::I16 => types::I16, Ty::I32 => types::I32, Ty::I64 => types::I64, Ty::F64 => types::F64 }),
    }).collect();
    signature.returns = results.iter().map(|ty| AbiParam::new(match ty { Ty::I8 => types::I8, Ty::I16 => types::I16, Ty::I32 => types::I32, Ty::I64 => types::I64, Ty::F64 => types::F64 })).collect();
    Function::with_name_signature(UserFuncName::default(), signature)
}

/// A context that holds nothing: `FunctionBuilderContext::new`.
#[verifier::external_body]
pub(crate) fn new_context() -> (r: FunctionBuilderContext)
    ensures
        blank(r),
{
    FunctionBuilderContext::new()
}

/// How a parameter is passed.
#[derive(Clone, Copy, Debug, PartialEq, Eq, Structural)]
pub enum Passed {
    Plain(Ty),
    /// The address through which the function answers.
    StructReturn,
}

/// Tells that no jump is to come: `FunctionBuilder::seal_all_blocks`.
#[verifier::external_body]
pub(crate) fn seal_all_blocks(builder: &mut FunctionBuilder<'_>)
    requires
        fits(outline(built(*old(builder))), Op::SealAll),
    ensures
        interface(*final(builder)) == interface(*old(builder)),
        took(built(*old(builder)), built(*final(builder)), Op::SealAll, 0),
{
    builder.seal_all_blocks();
}

/// Ends a function: `FunctionBuilder::finalize`, after which the builder lets go
/// of the function that it wrote to. No block is left open, and all are sealed.
/// The function holds the operations that its builder was given, under the
/// interface that it was made with.
#[verifier::external_body]
pub(crate) fn finish(builder: FunctionBuilder<'_>) -> (r: Function)
    requires
        outline(built(builder)).current is None,
        outline(built(builder)).sealed,
    ensures
        held(r) == built(builder),
        declared(r) == interface(builder),
{
    let function = builder.func.clone();
    builder.finalize();
    function
}

/// Makes a block: `FunctionBuilder::create_block`.
#[verifier::external_body]
pub(crate) fn create_block(builder: &mut FunctionBuilder<'_>) -> (r: u32)
    requires
        fits(outline(built(*old(builder))), Op::CreateBlock),
    ensures
        interface(*final(builder)) == interface(*old(builder)),
        took(built(*old(builder)), built(*final(builder)), Op::CreateBlock, r),
{
    builder.create_block().as_u32()
}

/// Marks a block: `FunctionBuilder::set_cold_block`.
#[verifier::external_body]
pub(crate) fn set_cold_block(builder: &mut FunctionBuilder<'_>, block: u32)
    requires
        fits(outline(built(*old(builder))), (Op::SetCold { block })),
    ensures
        interface(*final(builder)) == interface(*old(builder)),
        took(built(*old(builder)), built(*final(builder)), (Op::SetCold { block }), 0),
{
    builder.set_cold_block(Block::from_u32(block));
}

/// Goes on in a block: `FunctionBuilder::switch_to_block`.
#[verifier::external_body]
pub(crate) fn switch_to_block(builder: &mut FunctionBuilder<'_>, block: u32)
    requires
        fits(outline(built(*old(builder))), (Op::SwitchTo { block })),
    ensures
        interface(*final(builder)) == interface(*old(builder)),
        took(built(*old(builder)), built(*final(builder)), (Op::SwitchTo { block }), 0),
{
    builder.switch_to_block(Block::from_u32(block));
}

/// Gives a block a parameter: `FunctionBuilder::append_block_param`.
#[verifier::external_body]
pub(crate) fn append_block_param(builder: &mut FunctionBuilder<'_>, block: u32, ty: Ty) -> (r: u32)
    requires
        fits(outline(built(*old(builder))), (Op::BlockParam { block, ty })),
    ensures
        interface(*final(builder)) == interface(*old(builder)),
        took(built(*old(builder)), built(*final(builder)), (Op::BlockParam { block, ty }), r),
{
    builder.append_block_param(Block::from_u32(block), match ty { Ty::I8 => types::I8, Ty::I16 => types::I16, Ty::I32 => types::I32, Ty::I64 => types::I64, Ty::F64 => types::F64 }).as_u32()
}

/// Declares a variable: `FunctionBuilder::declare_var`.
#[verifier::external_body]
pub(crate) fn declare_var(builder: &mut FunctionBuilder<'_>, var: u32, ty: Ty)
    requires
        fits(outline(built(*old(builder))), (Op::DeclareVar { var, ty })),
    ensures
        interface(*final(builder)) == interface(*old(builder)),
        took(built(*old(builder)), built(*final(builder)), (Op::DeclareVar { var, ty }), 0),
{
    builder.declare_var(Variable::from_u32(var), match ty { Ty::I8 => types::I8, Ty::I16 => types::I16, Ty::I32 => types::I32, Ty::I64 => types::I64, Ty::F64 => types::F64 });
}

/// Makes a stack slot: `FunctionBuilder::create_sized_stack_slot`.
#[verifier::external_body]
pub(crate) fn create_slot(builder: &mut FunctionBuilder<'_>, size: u32, align_shift: u8) -> (r: u32)
    requires
        fits(outline(built(*old(builder))), (Op::CreateSlot { size, align_shift })),
    ensures
        interface(*final(builder)) == interface(*old(builder)),
        took(built(*old(builder)), built(*final(builder)), (Op::CreateSlot { size, align_shift }), r),
{
    builder.create_sized_stack_slot(StackSlotData::new(StackSlotKind::ExplicitSlot, size, align_shift)).as_u32()
}

/// Makes a signature known: `FunctionBuilder::import_signature`. Its calling
/// convention is that of the function itself.
#[verifier::external_body]
pub(crate) fn import_signature(builder: &mut FunctionBuilder<'_>, params: &Vec<Ty>, results: &Vec<Ty>) -> (r: u32)
    requires
        fits(outline(built(*old(builder))), (Op::ImportSignature { params: params@, results: results@ })),
    ensures
        interface(*final(builder)) == interface(*old(builder)),
        took(
            built(*old(builder)),
            built(*final(builder)),
            (Op::ImportSignature { params: params@, results: results@ }),
            r,
        ),
{
    let mut signature = Signature::new(builder.func.signature.call_conv);
    signature.params = params.iter().map(|ty| AbiParam::new(match ty { Ty::I8 => types::I8, Ty::I16 => types::I16, Ty::I32 => types::I32, Ty::I64 => types::I64, Ty::F64 => types::F64 })).collect();
    signature.returns = results.iter().map(|ty| AbiParam::new(match ty { Ty::I8 => types::I8, Ty::I16 => types::I16, Ty::I32 => types::I32, Ty::I64 => types::I64, Ty::F64 => types::F64 })).collect();
    builder.import_signature(signature).as_u32()
}

/// A constant: `InstBuilder::iconst`. The low bits of the number are taken.
#[verifier::external_body]
pub(crate) fn iconst(builder: &mut FunctionBuilder<'_>, ty: Ty, imm: i64) -> (r: u32)
    requires
        fits(outline(built(*old(builder))), (Op::Const { ty, imm })),
    ensures
        interface(*final(builder)) == interface(*old(builder)),
        took(built(*old(builder)), built(*final(builder)), (Op::Const { ty, imm }), r),
{
    builder.ins().iconst(match ty { Ty::I8 => types::I8, Ty::I16 => types::I16, Ty::I32 => types::I32, Ty::I64 => types::I64, Ty::F64 => types::F64 }, imm).as_u32()
}

/// A double by its bits: `InstBuilder::f64const`.
#[verifier::external_body]
pub(crate) fn float_const(builder: &mut FunctionBuilder<'_>, bits: i64) -> (r: u32)
    requires
        fits(outline(built(*old(builder))), (Op::FloatConst { bits })),
    ensures
        interface(*final(builder)) == interface(*old(builder)),
        took(built(*old(builder)), built(*final(builder)), (Op::FloatConst { bits }), r),
{
    builder.ins().f64const(Ieee64::with_bits(bits as u64)).as_u32()
}

/// The sum: `InstBuilder::iadd`.
#[verifier::external_body]
pub(crate) fn iadd(builder: &mut FunctionBuilder<'_>, a: u32, b: u32) -> (r: u32)
    requires
        fits(outline(built(*old(builder))), (Op::Binary { op: BinaryOp::Add, a, b })),
    ensures
        interface(*final(builder)) == interface(*old(builder)),
        took(built(*old(builder)), built(*final(builder)), (Op::Binary { op: BinaryOp::Add, a, b }), r),
{
    builder.ins().iadd(Value::from_u32(a), Value::from_u32(b)).as_u32()
}

/// The difference: `InstBuilder::isub`.
#[verifier::external_body]
pub(crate) fn isub(builder: &mut FunctionBuilder<'_>, a: u32, b: u32) -> (r: u32)
    requires
        fits(outline(built(*old(builder))), (Op::Binary { op: BinaryOp::Sub, a, b })),
    ensures
        interface(*final(builder)) == interface(*old(builder)),
        took(built(*old(builder)), built(*final(builder)), (Op::Binary { op: BinaryOp::Sub, a, b }), r),
{
    builder.ins().isub(Value::from_u32(a), Value::from_u32(b)).as_u32()
}

/// The product: `InstBuilder::imul`.
#[verifier::external_body]
pub(crate) fn imul(builder: &mut FunctionBuilder<'_>, a: u32, b: u32) -> (r: u32)
    requires
        fits(outline(built(*old(builder))), (Op::Binary { op: BinaryOp::Mul, a, b })),
    ensures
        interface(*final(builder)) == interface(*old(builder)),
        took(built(*old(builder)), built(*final(builder)), (Op::Binary { op: BinaryOp::Mul, a, b }), r),
{
    builder.ins().imul(Value::from_u32(a), Value::from_u32(b)).as_u32()
}

/// The conjunction of the bits: `InstBuilder::band`.
#[verifier::external_body]
pub(crate) fn band(builder: &mut FunctionBuilder<'_>, a: u32, b: u32) -> (r: u32)
    requires
        fits(outline(built(*old(builder))), (Op::Binary { op: BinaryOp::And, a, b })),
    ensures
        interface(*final(builder)) == interface(*old(builder)),
        took(built(*old(builder)), built(*final(builder)), (Op::Binary { op: BinaryOp::And, a, b }), r),
{
    builder.ins().band(Value::from_u32(a), Value::from_u32(b)).as_u32()
}

/// The disjunction of the bits: `InstBuilder::bor`.
#[verifier::external_body]
pub(crate) fn bor(builder: &mut FunctionBuilder<'_>, a: u32, b: u32) -> (r: u32)
    requires
        fits(outline(built(*old(builder))), (Op::Binary { op: BinaryOp::Or, a, b })),
    ensures
        interface(*final(builder)) == interface(*old(builder)),
        took(built(*old(builder)), built(*final(builder)), (Op::Binary { op: BinaryOp::Or, a, b }), r),
{
    builder.ins().bor(Value::from_u32(a), Value::from_u32(b)).as_u32()
}

/// The exclusive disjunction of the bits: `InstBuilder::bxor`.
#[verifier::external_body]
pub(crate) fn bxor(builder: &mut FunctionBuilder<'_>, a: u32, b: u32) -> (r: u32)
    requires
        fits(outline(built(*old(builder))), (Op::Binary { op: BinaryOp::Xor, a, b })),
    ensures
        interface(*final(builder)) == interface(*old(builder)),
        took(built(*old(builder)), built(*final(builder)), (Op::Binary { op: BinaryOp::Xor, a, b }), r),
{
    builder.ins().bxor(Value::from_u32(a), Value::from_u32(b)).as_u32()
}

/// The left shift: `InstBuilder::ishl`.
#[verifier::external_body]
pub(crate) fn ishl(builder: &mut FunctionBuilder<'_>, a: u32, b: u32) -> (r: u32)
    requires
        fits(outline(built(*old(builder))), (Op::Binary { op: BinaryOp::Shl, a, b })),
    ensures
        interface(*final(builder)) == interface(*old(builder)),
        took(built(*old(builder)), built(*final(builder)), (Op::Binary { op: BinaryOp::Shl, a, b }), r),
{
    builder.ins().ishl(Value::from_u32(a), Value::from_u32(b)).as_u32()
}

/// The signed right shift: `InstBuilder::sshr`.
#[verifier::external_body]
pub(crate) fn sshr(builder: &mut FunctionBuilder<'_>, a: u32, b: u32) -> (r: u32)
    requires
        fits(outline(built(*old(builder))), (Op::Binary { op: BinaryOp::Sshr, a, b })),
    ensures
        interface(*final(builder)) == interface(*old(builder)),
        took(built(*old(builder)), built(*final(builder)), (Op::Binary { op: BinaryOp::Sshr, a, b }), r),
{
    builder.ins().sshr(Value::from_u32(a), Value::from_u32(b)).as_u32()
}

/// The unsigned right shift: `InstBuilder::ushr`.
#[verifier::external_body]
pub(crate) fn ushr(builder: &mut FunctionBuilder<'_>, a: u32, b: u32) -> (r: u32)
    requires
        fits(outline(built(*old(builder))), (Op::Binary { op: BinaryOp::Ushr, a, b })),
    ensures
        interface(*final(builder)) == interface(*old(builder)),
        took(built(*old(builder)), built(*final(builder)), (Op::Binary { op: BinaryOp::Ushr, a, b }), r),
{
    builder.ins().ushr(Value::from_u32(a), Value::from_u32(b)).as_u32()
}

/// The signed quotient: `InstBuilder::sdiv`.
#[verifier::external_body]
pub(crate) fn sdiv(builder: &mut FunctionBuilder<'_>, a: u32, b: u32) -> (r: u32)
    requires
        fits(outline(built(*old(builder))), (Op::Binary { op: BinaryOp::Sdiv, a, b })),
    ensures
        interface(*final(builder)) == interface(*old(builder)),
        took(built(*old(builder)), built(*final(builder)), (Op::Binary { op: BinaryOp::Sdiv, a, b }), r),
{
    builder.ins().sdiv(Value::from_u32(a), Value::from_u32(b)).as_u32()
}

/// The signed remainder: `InstBuilder::srem`.
#[verifier::external_body]
pub(crate) fn srem(builder: &mut FunctionBuilder<'_>, a: u32, b: u32) -> (r: u32)
    requires
        fits(outline(built(*old(builder))), (Op::Binary { op: BinaryOp::Srem, a, b })),
    ensures
        interface(*final(builder)) == interface(*old(builder)),
        took(built(*old(builder)), built(*final(builder)), (Op::Binary { op: BinaryOp::Srem, a, b }), r),
{
    builder.ins().srem(Value::from_u32(a), Value::from_u32(b)).as_u32()
}

/// The wrapped sum, and whether it lost anything: `InstBuilder::sadd_overflow`.
#[verifier::external_body]
pub(crate) fn sadd_overflow(builder: &mut FunctionBuilder<'_>, a: u32, b: u32) -> (r: (u32, u32))
    requires
        fits(outline(built(*old(builder))), (Op::Overflowing { op: BinaryOp::Add, a, b, flag: 0 })),
    ensures
        interface(*final(builder)) == interface(*old(builder)),
        took(built(*old(builder)), built(*final(builder)), (Op::Overflowing { op: BinaryOp::Add, a, b, flag: r.1 }), r.0),
        outline(built(*old(builder))).ty(r.1) is None,
        r.1 != r.0,
{
    let (value, flag) = builder.ins().sadd_overflow(Value::from_u32(a), Value::from_u32(b));
    (value.as_u32(), flag.as_u32())
}

/// The wrapped difference, and whether it lost anything: `InstBuilder::ssub_overflow`.
#[verifier::external_body]
pub(crate) fn ssub_overflow(builder: &mut FunctionBuilder<'_>, a: u32, b: u32) -> (r: (u32, u32))
    requires
        fits(outline(built(*old(builder))), (Op::Overflowing { op: BinaryOp::Sub, a, b, flag: 0 })),
    ensures
        interface(*final(builder)) == interface(*old(builder)),
        took(built(*old(builder)), built(*final(builder)), (Op::Overflowing { op: BinaryOp::Sub, a, b, flag: r.1 }), r.0),
        outline(built(*old(builder))).ty(r.1) is None,
        r.1 != r.0,
{
    let (value, flag) = builder.ins().ssub_overflow(Value::from_u32(a), Value::from_u32(b));
    (value.as_u32(), flag.as_u32())
}

/// The wrapped product, and whether it lost anything: `InstBuilder::smul_overflow`.
#[verifier::external_body]
pub(crate) fn smul_overflow(builder: &mut FunctionBuilder<'_>, a: u32, b: u32) -> (r: (u32, u32))
    requires
        fits(outline(built(*old(builder))), (Op::Overflowing { op: BinaryOp::Mul, a, b, flag: 0 })),
    ensures
        interface(*final(builder)) == interface(*old(builder)),
        took(built(*old(builder)), built(*final(builder)), (Op::Overflowing { op: BinaryOp::Mul, a, b, flag: r.1 }), r.0),
        outline(built(*old(builder))).ty(r.1) is None,
        r.1 != r.0,
{
    let (value, flag) = builder.ins().smul_overflow(Value::from_u32(a), Value::from_u32(b));
    (value.as_u32(), flag.as_u32())
}

/// The negation: `InstBuilder::ineg`.
#[verifier::external_body]
pub(crate) fn ineg(builder: &mut FunctionBuilder<'_>, a: u32) -> (r: u32)
    requires
        fits(outline(built(*old(builder))), (Op::Unary { op: UnaryOp::Neg, a })),
    ensures
        interface(*final(builder)) == interface(*old(builder)),
        took(built(*old(builder)), built(*final(builder)), (Op::Unary { op: UnaryOp::Neg, a }), r),
{
    builder.ins().ineg(Value::from_u32(a)).as_u32()
}

/// The complement of the bits: `InstBuilder::bnot`.
#[verifier::external_body]
pub(crate) fn bnot(builder: &mut FunctionBuilder<'_>, a: u32) -> (r: u32)
    requires
        fits(outline(built(*old(builder))), (Op::Unary { op: UnaryOp::Not, a })),
    ensures
        interface(*final(builder)) == interface(*old(builder)),
        took(built(*old(builder)), built(*final(builder)), (Op::Unary { op: UnaryOp::Not, a }), r),
{
    builder.ins().bnot(Value::from_u32(a)).as_u32()
}

/// Whether a comparison of integers holds: `InstBuilder::icmp`.
#[verifier::external_body]
pub(crate) fn icmp(builder: &mut FunctionBuilder<'_>, cc: IntCc, a: u32, b: u32) -> (r: u32)
    requires
        fits(outline(built(*old(builder))), (Op::Compare { cc, a, b })),
    ensures
        interface(*final(builder)) == interface(*old(builder)),
        took(built(*old(builder)), built(*final(builder)), (Op::Compare { cc, a, b }), r),
{
    builder.ins().icmp(match cc { IntCc::Equal => IntCC::Equal, IntCc::NotEqual => IntCC::NotEqual, IntCc::SignedLessThan => IntCC::SignedLessThan, IntCc::SignedLessThanOrEqual => IntCC::SignedLessThanOrEqual, IntCc::SignedGreaterThan => IntCC::SignedGreaterThan, IntCc::SignedGreaterThanOrEqual => IntCC::SignedGreaterThanOrEqual, IntCc::UnsignedLessThan => IntCC::UnsignedLessThan }, Value::from_u32(a), Value::from_u32(b)).as_u32()
}

/// The sum of doubles: `InstBuilder::fadd`.
#[verifier::external_body]
pub(crate) fn fadd(builder: &mut FunctionBuilder<'_>, a: u32, b: u32) -> (r: u32)
    requires
        fits(outline(built(*old(builder))), (Op::FloatBinary { op: FloatOp::Add, a, b })),
    ensures
        interface(*final(builder)) == interface(*old(builder)),
        took(built(*old(builder)), built(*final(builder)), (Op::FloatBinary { op: FloatOp::Add, a, b }), r),
{
    builder.ins().fadd(Value::from_u32(a), Value::from_u32(b)).as_u32()
}

/// The difference of doubles: `InstBuilder::fsub`.
#[verifier::external_body]
pub(crate) fn fsub(builder: &mut FunctionBuilder<'_>, a: u32, b: u32) -> (r: u32)
    requires
        fits(outline(built(*old(builder))), (Op::FloatBinary { op: FloatOp::Sub, a, b })),
    ensures
        interface(*final(builder)) == interface(*old(builder)),
        took(built(*old(builder)), built(*final(builder)), (Op::FloatBinary { op: FloatOp::Sub, a, b }), r),
{
    builder.ins().fsub(Value::from_u32(a), Value::from_u32(b)).as_u32()
}

/// The product of doubles: `InstBuilder::fmul`.
#[verifier::external_body]
pub(crate) fn fmul(builder: &mut FunctionBuilder<'_>, a: u32, b: u32) -> (r: u32)
    requires
        fits(outline(built(*old(builder))), (Op::FloatBinary { op: FloatOp::Mul, a, b })),
    ensures
        interface(*final(builder)) == interface(*old(builder)),
        took(built(*old(builder)), built(*final(builder)), (Op::FloatBinary { op: FloatOp::Mul, a, b }), r),
{
    builder.ins().fmul(Value::from_u32(a), Value::from_u32(b)).as_u32()
}

/// The quotient of doubles: `InstBuilder::fdiv`.
#[verifier::external_body]
pub(crate) fn fdiv(builder: &mut FunctionBuilder<'_>, a: u32, b: u32) -> (r: u32)
    requires
        fits(outline(built(*old(builder))), (Op::FloatBinary { op: FloatOp::Div, a, b })),
    ensures
        interface(*final(builder)) == interface(*old(builder)),
        took(built(*old(builder)), built(*final(builder)), (Op::FloatBinary { op: FloatOp::Div, a, b }), r),
{
    builder.ins().fdiv(Value::from_u32(a), Value::from_u32(b)).as_u32()
}

/// The negation of a double: `InstBuilder::fneg`.
#[verifier::external_body]
pub(crate) fn fneg(builder: &mut FunctionBuilder<'_>, a: u32) -> (r: u32)
    requires
        fits(outline(built(*old(builder))), (Op::FloatUnary { op: FloatUnaryOp::Neg, a })),
    ensures
        interface(*final(builder)) == interface(*old(builder)),
        took(built(*old(builder)), built(*final(builder)), (Op::FloatUnary { op: FloatUnaryOp::Neg, a }), r),
{
    builder.ins().fneg(Value::from_u32(a)).as_u32()
}

/// The integral part of a double: `InstBuilder::trunc`.
#[verifier::external_body]
pub(crate) fn ftrunc(builder: &mut FunctionBuilder<'_>, a: u32) -> (r: u32)
    requires
        fits(outline(built(*old(builder))), (Op::FloatUnary { op: FloatUnaryOp::Trunc, a })),
    ensures
        interface(*final(builder)) == interface(*old(builder)),
        took(built(*old(builder)), built(*final(builder)), (Op::FloatUnary { op: FloatUnaryOp::Trunc, a }), r),
{
    builder.ins().trunc(Value::from_u32(a)).as_u32()
}

/// Whether a comparison of doubles holds: `InstBuilder::fcmp`.
#[verifier::external_body]
pub(crate) fn fcmp(builder: &mut FunctionBuilder<'_>, cc: FloatCc, a: u32, b: u32) -> (r: u32)
    requires
        fits(outline(built(*old(builder))), (Op::FloatCompare { cc, a, b })),
    ensures
        interface(*final(builder)) == interface(*old(builder)),
        took(built(*old(builder)), built(*final(builder)), (Op::FloatCompare { cc, a, b }), r),
{
    builder.ins().fcmp(match cc { FloatCc::Equal => FloatCC::Equal, FloatCc::LessThan => FloatCC::LessThan, FloatCc::LessThanOrEqual => FloatCC::LessThanOrEqual, FloatCc::GreaterThan => FloatCC::GreaterThan, FloatCc::GreaterThanOrEqual => FloatCC::GreaterThanOrEqual }, Value::from_u32(a), Value::from_u32(b)).as_u32()
}

/// The low bits: `InstBuilder::ireduce`.
#[verifier::external_body]
pub(crate) fn ireduce(builder: &mut FunctionBuilder<'_>, to: Ty, a: u32) -> (r: u32)
    requires
        fits(outline(built(*old(builder))), (Op::Convert { op: ConvertOp::Reduce, to, a })),
    ensures
        interface(*final(builder)) == interface(*old(builder)),
        took(built(*old(builder)), built(*final(builder)), (Op::Convert { op: ConvertOp::Reduce, to, a }), r),
{
    builder.ins().ireduce(match to { Ty::I8 => types::I8, Ty::I16 => types::I16, Ty::I32 => types::I32, Ty::I64 => types::I64, Ty::F64 => types::F64 }, Value::from_u32(a)).as_u32()
}

/// A wider integer with the same signed value: `InstBuilder::sextend`.
#[verifier::external_body]
pub(crate) fn sextend(builder: &mut FunctionBuilder<'_>, to: Ty, a: u32) -> (r: u32)
    requires
        fits(outline(built(*old(builder))), (Op::Convert { op: ConvertOp::SignExtend, to, a })),
    ensures
        interface(*final(builder)) == interface(*old(builder)),
        took(built(*old(builder)), built(*final(builder)), (Op::Convert { op: ConvertOp::SignExtend, to, a }), r),
{
    builder.ins().sextend(match to { Ty::I8 => types::I8, Ty::I16 => types::I16, Ty::I32 => types::I32, Ty::I64 => types::I64, Ty::F64 => types::F64 }, Value::from_u32(a)).as_u32()
}

/// A wider integer with the same unsigned value: `InstBuilder::uextend`.
#[verifier::external_body]
pub(crate) fn uextend(builder: &mut FunctionBuilder<'_>, to: Ty, a: u32) -> (r: u32)
    requires
        fits(outline(built(*old(builder))), (Op::Convert { op: ConvertOp::ZeroExtend, to, a })),
    ensures
        interface(*final(builder)) == interface(*old(builder)),
        took(built(*old(builder)), built(*final(builder)), (Op::Convert { op: ConvertOp::ZeroExtend, to, a }), r),
{
    builder.ins().uextend(match to { Ty::I8 => types::I8, Ty::I16 => types::I16, Ty::I32 => types::I32, Ty::I64 => types::I64, Ty::F64 => types::F64 }, Value::from_u32(a)).as_u32()
}

/// The double of a signed integer: `InstBuilder::fcvt_from_sint`.
#[verifier::external_body]
pub(crate) fn fcvt_from_sint(builder: &mut FunctionBuilder<'_>, to: Ty, a: u32) -> (r: u32)
    requires
        fits(outline(built(*old(builder))), (Op::Convert { op: ConvertOp::FloatFromSigned, to, a })),
    ensures
        interface(*final(builder)) == interface(*old(builder)),
        took(built(*old(builder)), built(*final(builder)), (Op::Convert { op: ConvertOp::FloatFromSigned, to, a }), r),
{
    builder.ins().fcvt_from_sint(match to { Ty::I8 => types::I8, Ty::I16 => types::I16, Ty::I32 => types::I32, Ty::I64 => types::I64, Ty::F64 => types::F64 }, Value::from_u32(a)).as_u32()
}

/// The double of an unsigned integer: `InstBuilder::fcvt_from_uint`.
#[verifier::external_body]
pub(crate) fn fcvt_from_uint(builder: &mut FunctionBuilder<'_>, to: Ty, a: u32) -> (r: u32)
    requires
        fits(outline(built(*old(builder))), (Op::Convert { op: ConvertOp::FloatFromUnsigned, to, a })),
    ensures
        interface(*final(builder)) == interface(*old(builder)),
        took(built(*old(builder)), built(*final(builder)), (Op::Convert { op: ConvertOp::FloatFromUnsigned, to, a }), r),
{
    builder.ins().fcvt_from_uint(match to { Ty::I8 => types::I8, Ty::I16 => types::I16, Ty::I32 => types::I32, Ty::I64 => types::I64, Ty::F64 => types::F64 }, Value::from_u32(a)).as_u32()
}

/// The integer of a double, within the bounds: `InstBuilder::fcvt_to_sint_sat`.
#[verifier::external_body]
pub(crate) fn fcvt_to_sint_sat(builder: &mut FunctionBuilder<'_>, to: Ty, a: u32) -> (r: u32)
    requires
        fits(outline(built(*old(builder))), (Op::Convert { op: ConvertOp::FloatToSigned, to, a })),
    ensures
        interface(*final(builder)) == interface(*old(builder)),
        took(built(*old(builder)), built(*final(builder)), (Op::Convert { op: ConvertOp::FloatToSigned, to, a }), r),
{
    builder.ins().fcvt_to_sint_sat(match to { Ty::I8 => types::I8, Ty::I16 => types::I16, Ty::I32 => types::I32, Ty::I64 => types::I64, Ty::F64 => types::F64 }, Value::from_u32(a)).as_u32()
}

/// The value with the same bits: `InstBuilder::bitcast`.
#[verifier::external_body]
pub(crate) fn bitcast(builder: &mut FunctionBuilder<'_>, to: Ty, a: u32) -> (r: u32)
    requires
        fits(outline(built(*old(builder))), (Op::Convert { op: ConvertOp::Bitcast, to, a })),
    ensures
        interface(*final(builder)) == interface(*old(builder)),
        took(built(*old(builder)), built(*final(builder)), (Op::Convert { op: ConvertOp::Bitcast, to, a }), r),
{
    builder.ins().bitcast(match to { Ty::I8 => types::I8, Ty::I16 => types::I16, Ty::I32 => types::I32, Ty::I64 => types::I64, Ty::F64 => types::F64 }, MemFlags::new(), Value::from_u32(a)).as_u32()
}

/// One of two values: `InstBuilder::select`.
#[verifier::external_body]
pub(crate) fn select(builder: &mut FunctionBuilder<'_>, cond: u32, a: u32, b: u32) -> (r: u32)
    requires
        fits(outline(built(*old(builder))), (Op::Select { cond, a, b })),
    ensures
        interface(*final(builder)) == interface(*old(builder)),
        took(built(*old(builder)), built(*final(builder)), (Op::Select { cond, a, b }), r),
{
    builder.ins().select(Value::from_u32(cond), Value::from_u32(a), Value::from_u32(b)).as_u32()
}

/// A value in memory: `InstBuilder::load`.
#[verifier::external_body]
pub(crate) fn load(builder: &mut FunctionBuilder<'_>, ty: Ty, base: u32, offset: i32) -> (r: u32)
    requires
        fits(outline(built(*old(builder))), (Op::Load { ty, base, offset })),
    ensures
        interface(*final(builder)) == interface(*old(builder)),
        took(built(*old(builder)), built(*final(builder)), (Op::Load { ty, base, offset }), r),
{
    builder.ins().load(match ty { Ty::I8 => types::I8, Ty::I16 => types::I16, Ty::I32 => types::I32, Ty::I64 => types::I64, Ty::F64 => types::F64 }, MemFlags::new(), Value::from_u32(base), offset).as_u32()
}

/// Writes to memory: `InstBuilder::store`.
#[verifier::external_body]
pub(crate) fn store(builder: &mut FunctionBuilder<'_>, value: u32, base: u32, offset: i32)
    requires
        fits(outline(built(*old(builder))), (Op::Store { value, base, offset })),
    ensures
        interface(*final(builder)) == interface(*old(builder)),
        took(built(*old(builder)), built(*final(builder)), (Op::Store { value, base, offset }), 0),
{
    builder.ins().store(MemFlags::new(), Value::from_u32(value), Value::from_u32(base), offset);
}

/// The address of a stack slot: `InstBuilder::stack_addr`.
#[verifier::external_body]
pub(crate) fn stack_addr(builder: &mut FunctionBuilder<'_>, slot: u32, offset: i32) -> (r: u32)
    requires
        fits(outline(built(*old(builder))), (Op::SlotAddr { slot, offset })),
    ensures
        interface(*final(builder)) == interface(*old(builder)),
        took(built(*old(builder)), built(*final(builder)), (Op::SlotAddr { slot, offset }), r),
{
    builder.ins().stack_addr(types::I64, StackSlot::from_u32(slot), offset).as_u32()
}

/// A value in a stack slot: `InstBuilder::stack_load`.
#[verifier::external_body]
pub(crate) fn stack_load(builder: &mut FunctionBuilder<'_>, ty: Ty, slot: u32, offset: i32) -> (r: u32)
    requires
        fits(outline(built(*old(builder))), (Op::SlotLoad { ty, slot, offset })),
    ensures
        interface(*final(builder)) == interface(*old(builder)),
        took(built(*old(builder)), built(*final(builder)), (Op::SlotLoad { ty, slot, offset }), r),
{
    builder.ins().stack_load(match ty { Ty::I8 => types::I8, Ty::I16 => types::I16, Ty::I32 => types::I32, Ty::I64 => types::I64, Ty::F64 => types::F64 }, StackSlot::from_u32(slot), offset).as_u32()
}

/// Writes to a stack slot: `InstBuilder::stack_store`.
#[verifier::external_body]
pub(crate) fn stack_store(builder: &mut FunctionBuilder<'_>, value: u32, slot: u32, offset: i32)
    requires
        fits(outline(built(*old(builder))), (Op::SlotStore { value, slot, offset })),
    ensures
        interface(*final(builder)) == interface(*old(builder)),
        took(built(*old(builder)), built(*final(builder)), (Op::SlotStore { value, slot, offset }), 0),
{
    builder.ins().stack_store(Value::from_u32(value), StackSlot::from_u32(slot), offset);
}

/// Calls an address: `InstBuilder::call_indirect`. The signature has one result, which is answered.
#[verifier::external_body]
pub(crate) fn call_indirect(builder: &mut FunctionBuilder<'_>, signature: u32, callee: u32, args: &Vec<u32>) -> (r: u32)
    requires
        fits(outline(built(*old(builder))), (Op::Call { signature, callee, args: args@ })),
    ensures
        interface(*final(builder)) == interface(*old(builder)),
        took(built(*old(builder)), built(*final(builder)), (Op::Call { signature, callee, args: args@ }), r),
{
    let values = args.iter().map(|v| Value::from_u32(*v)).collect::<Vec<_>>();
    let call = builder.ins().call_indirect(SigRef::from_u32(signature), Value::from_u32(callee), &values);
    builder.inst_results(call)[0].as_u32()
}

/// A variable's value: `FunctionBuilder::use_var`.
#[verifier::external_body]
pub(crate) fn use_var(builder: &mut FunctionBuilder<'_>, var: u32) -> (r: u32)
    requires
        fits(outline(built(*old(builder))), (Op::UseVar { var })),
    ensures
        interface(*final(builder)) == interface(*old(builder)),
        took(built(*old(builder)), built(*final(builder)), (Op::UseVar { var }), r),
{
    builder.use_var(Variable::from_u32(var)).as_u32()
}

/// Sets a variable: `FunctionBuilder::def_var`.
#[verifier::external_body]
pub(crate) fn def_var(builder: &mut FunctionBuilder<'_>, var: u32, value: u32)
    requires
        fits(outline(built(*old(builder))), (Op::DefVar { var, value })),
    ensures
        interface(*final(builder)) == interface(*old(builder)),
        took(built(*old(builder)), built(*final(builder)), (Op::DefVar { var, value }), 0),
{
    builder.def_var(Variable::from_u32(var), Value::from_u32(value));
}

/// Leaves for one of two blocks: `InstBuilder::brif`.
#[verifier::external_body]
pub(crate) fn brif(builder: &mut FunctionBuilder<'_>, cond: u32, then_block: u32, then_args: &Vec<u32>, else_block: u32, else_args: &Vec<u32>)
    requires
        fits(outline(built(*old(builder))), (Op::Branch { cond, then_block, then_args: then_args@, else_block, else_args: else_args@ })),
    ensures
        interface(*final(builder)) == interface(*old(builder)),
        took(built(*old(builder)), built(*final(builder)), (Op::Branch { cond, then_block, then_args: then_args@, else_block, else_args: else_args@ }), 0),
{
    let taken = then_args.iter().map(|v| Value::from_u32(*v)).collect::<Vec<_>>();
    let other = else_args.iter().map(|v| Value::from_u32(*v)).collect::<Vec<_>>();
    builder.ins().brif(Value::from_u32(cond), Block::from_u32(then_block), &taken, Block::from_u32(else_block), &other);
}

/// Leaves for a block: `InstBuilder::jump`.
#[verifier::external_body]
pub(crate) fn jump(builder: &mut FunctionBuilder<'_>, block: u32, args: &Vec<u32>)
    requires
        fits(outline(built(*old(builder))), (Op::Jump { block, args: args@ })),
    ensures
        interface(*final(builder)) == interface(*old(builder)),
        took(built(*old(builder)), built(*final(builder)), (Op::Jump { block, args: args@ }), 0),
{
    let values = args.iter().map(|v| Value::from_u32(*v)).collect::<Vec<_>>();
    builder.ins().jump(Block::from_u32(block), &values);
}

/// Returns: `InstBuilder::return_`.
#[verifier::external_body]
pub(crate) fn return_values(builder: &mut FunctionBuilder<'_>, values: &Vec<u32>)
    requires
        fits(outline(built(*old(builder))), (Op::Return { values: values@ })),
    ensures
        interface(*final(builder)) == interface(*old(builder)),
        took(built(*old(builder)), built(*final(builder)), (Op::Return { values: values@ }), 0),
{
    let list = values.iter().map(|v| Value::from_u32(*v)).collect::<Vec<_>>();
    builder.ins().return_(&list);
}

} // verus!
