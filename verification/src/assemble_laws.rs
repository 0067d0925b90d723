//! What the builder is given for an instruction does what the instruction does.
use crate::assemble::Number;
use crate::assemble::name_of;
use crate::assemble::render;
use crate::clif::Op;
use crate::code::Event;
use crate::code::Inst;
use crate::code::State;
use crate::code::Ty;
use crate::code::World;
use crate::code::binary_value;
use crate::code::converted;
use crate::code::execute;
use crate::code::holds;
use crate::code::truth;
use crate::code::unary_value;
use crate::code::wrap;
use vstd::prelude::*;

verus! {

/// What an operation of the builder computes from the values that it names; its
/// operands have the type `ty`.
pub open spec fn answer(op: Op, ty: Ty, named: Map<u32, int>, w: World) -> Option<int> {
    match op {
        Op::Const { ty: own, imm } => Some(wrap(own, imm as int)),
        Op::FloatConst { bits } => Some(bits as int),
        Op::Binary { op, a, b } => Some(binary_value(op, ty, named[a], named[b])),
        Op::Unary { op, a } => Some(unary_value(op, ty, named[a])),
        Op::Compare { cc, a, b } => Some(truth(holds(cc, ty, named[a], named[b]))),
        Op::FloatBinary { op, a, b } => Some((w.float_binary)(op, named[a], named[b])),
        Op::FloatUnary { op, a } => Some((w.float_unary)(op, named[a])),
        Op::FloatCompare { cc, a, b } => Some(truth((w.float_holds)(cc, named[a], named[b]))),
        Op::Convert { op, to, a } => Some(converted(op, ty, to, named[a], w)),
        Op::Select { cond, a, b } => Some(if named[cond] != 0 { named[a] } else { named[b] }),
        _ => None,
    }
}

/// The type of an instruction's operands.
pub open spec fn operand_type(inst: Inst) -> Ty {
    match inst {
        Inst::Binary { ty, .. } => ty,
        Inst::BinaryImm { ty, .. } => ty,
        Inst::Unary { ty, .. } => ty,
        Inst::Compare { ty, .. } => ty,
        Inst::CompareImm { ty, .. } => ty,
        Inst::Convert { from, .. } => from,
        _ => Ty::F64,
    }
}

/// The operands of a computation stand before it.
pub open spec fn operands_before(inst: Inst, at: int) -> bool {
    match inst {
        Inst::Binary { a, b, .. } => a < at && b < at,
        Inst::BinaryImm { a, .. } => a < at,
        Inst::Unary { a, .. } => a < at,
        Inst::Compare { a, b, .. } => a < at && b < at,
        Inst::CompareImm { a, .. } => a < at,
        Inst::FloatBinary { a, b, .. } => a < at && b < at,
        Inst::FloatUnary { a, .. } => a < at,
        Inst::FloatCompare { a, b, .. } => a < at && b < at,
        Inst::Convert { a, .. } => a < at,
        Inst::Select { cond, a, b, .. } => cond < at && a < at && b < at,
        Inst::Const { .. } | Inst::FloatConst { .. } => true,
        _ => false,
    }
}

/// The builder's names stand for the values of the positions before.
pub open spec fn names_stand_for(named: Map<u32, int>, numbers: Seq<Number>, s: State, at: int) -> bool {
    forall|p: usize| p < at ==> named[#[trigger] name_of(numbers, p, at)] == s.vals[p as int]
}

/// What is built for a computation computes its value, under the number of its
/// position. A constant operand is built first.
#[verifier::spinoff_prover]
#[verifier::rlimit(60)]
pub proof fn computations_are_built_as_they_are(
    inst: Inst,
    block: Option<usize>,
    at: int,
    numbers: Seq<Number>,
    named: Map<u32, int>,
    s: State,
    w: World,
)
    requires
        operands_before(inst, at),
        0 <= at < numbers.len(),
        names_stand_for(named, numbers, s, at),
        execute(s, inst, at, w) is Run,
        inst matches Inst::BinaryImm { ty, a, imm, .. } ==> wrap(ty, imm as int) == imm && numbers[at].aux is Some && name_of(
            numbers,
            a,
            at,
        ) != numbers[at].aux->Some_0,
        inst matches Inst::CompareImm { ty, a, imm, .. } ==> wrap(ty, imm as int) == imm && numbers[at].aux is Some && name_of(
            numbers,
            a,
            at,
        ) != numbers[at].aux->Some_0,
    ensures
        ({
            let built = render(inst, block, at, numbers);
            let value = execute(s, inst, at, w)->Run_0.vals[at];
            let n = built.len() as int;
            let known = if n == 2 {
                named.insert(built[0].result, answer(built[0].op, operand_type(inst), named, w)->Some_0)
            } else {
                named
            };
            &&& n == 1 || n == 2
            &&& n == 2 <==> inst is BinaryImm || inst is CompareImm
            &&& built[n - 1].result == numbers[at].main
            &&& answer(built[n - 1].op, operand_type(inst), known, w) == Some(value)
        }),
{
    let built = render(inst, block, at, numbers);
    match inst {
        Inst::Binary { a, b, .. } => {
            let x = name_of(numbers, a, at);
            let y = name_of(numbers, b, at);
        },
        _ => {},
    }
}

/// A load and a store are built at the address and of the type of their
/// instruction, and a store with its value.
#[verifier::spinoff_prover]
pub proof fn memory_is_accessed_as_it_is(
    ty: Ty,
    base: usize,
    value: usize,
    offset: i32,
    block: Option<usize>,
    at: int,
    numbers: Seq<Number>,
    named: Map<u32, int>,
    s: State,
    w: World,
)
    requires
        0 <= at < numbers.len(),
        base < at,
        value < at,
        names_stand_for(named, numbers, s, at),
    ensures
        ({
            let load = render(Inst::Load { ty, base, offset }, block, at, numbers);
            let store = render(Inst::Store { ty, value, base, offset }, block, at, numbers);
            let read = execute(s, Inst::Load { ty, base, offset }, at, w)->Run_0.trace.last();
            let written = execute(s, Inst::Store { ty, value, base, offset }, at, w)->Run_0.trace.last();
            &&& load.len() == 1 && store.len() == 1
            &&& load[0].op matches Op::Load { ty: t, base: b, offset: o } && read == (Event::Load {
                ty: t,
                address: wrap(Ty::I64, named[b] + o),
                value: s.answer(t, w),
            })
            &&& load[0].result == numbers[at].main
            &&& store[0].op matches Op::Store { value: v, base: b, offset: o } && written == (Event::Store {
                ty,
                address: wrap(Ty::I64, named[b] + o),
                value: named[v],
            })
        }),
{
    let x = name_of(numbers, base, at);
    let y = name_of(numbers, value, at);
}

/// Control goes where the instruction sends it: to the first block where the
/// condition is not zero, to the second otherwise, with the values in their order.
#[verifier::spinoff_prover]
pub proof fn control_goes_where_it_is_sent(
    cond: usize,
    then_block: usize,
    else_block: usize,
    args: Vec<usize>,
    others: Vec<usize>,
    block: Option<usize>,
    at: int,
    numbers: Seq<Number>,
    k: int,
)
    requires
        0 <= at < numbers.len(),
        cond < at && then_block < at && else_block < at,
        0 <= k < args@.len(),
        args@[k] < at,
    ensures
        ({
            let branch = render(
                Inst::Branch { cond, then_block, then_args: args, else_block, else_args: others },
                block,
                at,
                numbers,
            );
            let jump = render(Inst::Jump { block: then_block, args }, block, at, numbers);
            let done = render(Inst::Return { values: args }, block, at, numbers);
            let number = |p: usize| numbers[p as int].main;
            &&& branch.len() == 1 && jump.len() == 1 && done.len() == 1
            &&& branch[0].op matches Op::Branch { cond: c, then_block: t, then_args, else_block: e, else_args } && c == number(cond)
                && t == number(then_block) && e == number(else_block) && then_args.len() == args@.len() && then_args[k] == number(
                args@[k],
            ) && else_args.len() == others@.len()
            &&& jump[0].op matches Op::Jump { block: b, args: passed } && b == number(then_block) && passed.len() == args@.len()
                && passed[k] == number(args@[k])
            &&& done[0].op matches Op::Return { values } && values.len() == args@.len() && values[k] == number(args@[k])
        }),
{
}

/// A call names its signature, its callee and its arguments in order; variables
/// are read and written under their own numbers.
#[verifier::spinoff_prover]
pub proof fn calls_and_variables_keep_their_names(
    signature: usize,
    callee: usize,
    ty: Ty,
    args: Vec<usize>,
    var: usize,
    value: usize,
    block: Option<usize>,
    at: int,
    numbers: Seq<Number>,
    k: int,
)
    requires
        0 <= at < numbers.len(),
        signature < at && callee < at && var < at && value < at,
        0 <= k < args@.len(),
        args@[k] < at,
    ensures
        ({
            let call = render(Inst::Call { signature, ty, callee, args }, block, at, numbers);
            let read = render(Inst::Use { var, ty }, block, at, numbers);
            let written = render(Inst::Def { var, value }, block, at, numbers);
            let number = |p: usize| numbers[p as int].main;
            &&& call.len() == 1 && read.len() == 1 && written.len() == 1
            &&& call[0].op matches Op::Call { signature: s, callee: c, args: passed } && s == number(signature) && c == number(callee)
                && passed.len() == args@.len() && passed[k] == number(args@[k])
            &&& call[0].result == numbers[at].main
            &&& read[0].op == Op::UseVar { var: number(var) } && read[0].result == numbers[at].main
            &&& written[0].op == Op::DefVar { var: number(var), value: number(value) }
        }),
{
}

} // verus!
