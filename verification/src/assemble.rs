//! Turns code into a function of the code generator.
//!
//! The code is gone through once, in order. Every instruction is checked first:
//! its operands exist and have the right types, and it stands in a block that is
//! open. Then it is handed to the builder.
use crate::clif;
use crate::clif::merged;
use crate::clif::MOST_NAMES;
use crate::clif::MOST_VALUES;
use crate::clif::built;
use crate::clif::converts;
use crate::clif::declared;
use crate::clif::fits;
use crate::clif::held;
use crate::clif::interface;
use crate::clif::is_int;
use crate::clif::next;
use crate::clif::outline;
use crate::clif::outline_of_push;
use crate::clif::result_type;
use crate::clif::took;
use crate::clif::width;
use crate::clif::Built;
use crate::clif::Interface;
use crate::clif::Op;
use crate::clif::Outline;
use crate::clif::Passed;
use crate::code::copy_types;
use crate::code::BinaryOp;
use crate::code::Code;
use crate::code::ConvertOp;
use crate::code::FloatOp;
use crate::code::FloatUnaryOp;
use crate::code::Inst;
use crate::code::Ty;
use crate::code::UnaryOp;
use crate::control::CompileFailure;
use cranelift_codegen::ir::Function;
use cranelift_codegen::isa::CallConv;
use cranelift_frontend::FunctionBuilder;
use vstd::prelude::*;

verus! {

/// What stands at a position of the code.
pub enum Known {
    Nothing,
    Value(Ty),
    Variable(Ty),
    Slot,
    Signature(Seq<Ty>, Option<Ty>),
    Block,
}

/// What is known of code up to a position.
pub struct Scan {
    pub known: Seq<Known>,
    /// The blocks that code was written for.
    pub started: Set<int>,
    pub open: bool,
    /// The block holds nothing but parameters.
    pub pristine: bool,
    pub entry: bool,
    /// The parameters that the block was given.
    pub taken: int,
}

impl Scan {
    pub open spec fn ty(self, at: usize) -> Option<Ty> {
        if at < self.known.len() {
            match self.known[at as int] {
                Known::Value(ty) => Some(ty),
                _ => None,
            }
        } else {
            None
        }
    }

    pub open spec fn variable(self, at: usize) -> Option<Ty> {
        if at < self.known.len() {
            match self.known[at as int] {
                Known::Variable(ty) => Some(ty),
                _ => None,
            }
        } else {
            None
        }
    }

    pub open spec fn slot(self, at: usize) -> bool {
        at < self.known.len() && self.known[at as int] is Slot
    }

    pub open spec fn block(self, at: usize) -> bool {
        at < self.known.len() && self.known[at as int] is Block
    }

    pub open spec fn signature(self, at: usize) -> Option<(Seq<Ty>, Option<Ty>)> {
        if at < self.known.len() {
            match self.known[at as int] {
                Known::Signature(params, result) => Some((params, result)),
                _ => None,
            }
        } else {
            None
        }
    }

    pub open spec fn all_values(self, args: Seq<usize>) -> bool {
        forall|k: int| 0 <= k < args.len() ==> #[trigger] self.ty(args[k]) is Some
    }

    pub open spec fn have_types(self, args: Seq<usize>, types: Seq<Ty>) -> bool {
        args.len() == types.len() && forall|k: int| 0 <= k < args.len() ==> #[trigger] self.ty(args[k]) == Some(types[k])
    }

    pub open spec fn with(self, known: Known) -> Scan {
        Scan { known: self.known.push(known), ..self }
    }

    /// Behind an instruction of the block.
    pub open spec fn then_value(self, ty: Ty) -> Scan {
        Scan { known: self.known.push(Known::Value(ty)), pristine: false, ..self }
    }

    pub open spec fn then_nothing(self) -> Scan {
        Scan { known: self.known.push(Known::Nothing), pristine: false, ..self }
    }

    pub open spec fn closed(self) -> Scan {
        Scan { open: false, ..self.then_nothing() }
    }
}

pub open spec fn passed_ty(passed: Passed) -> Ty {
    match passed {
        Passed::Plain(ty) => ty,
        Passed::StructReturn => Ty::I64,
    }
}

pub open spec fn is_checked(op: BinaryOp) -> bool {
    op == BinaryOp::Add || op == BinaryOp::Sub || op == BinaryOp::Mul
}

/// The instruction right before is the computation whose loss is asked for.
pub open spec fn follows_wrapped(insts: Seq<Inst>, at: int, op: BinaryOp, ty: Ty, a: usize, b: usize) -> bool {
    at > 0 && insts[at - 1] == (Inst::Wrapped { op, ty, a, b })
}

/// The type of a plain computation's result, where its operands are in order.
pub open spec fn computes(scan: Scan, inst: Inst) -> Option<Ty> {
    match inst {
        Inst::Const { ty, .. } => if is_int(ty) {
            Some(ty)
        } else {
            None
        },
        Inst::FloatConst { .. } => Some(Ty::F64),
        Inst::Binary { op, ty, a, b } => if is_int(ty) && scan.ty(a) == Some(ty) && scan.ty(b) == Some(ty) {
            Some(ty)
        } else {
            None
        },
        Inst::BinaryImm { op, ty, a, .. } => if is_int(ty) && scan.ty(a) == Some(ty) {
            Some(ty)
        } else {
            None
        },
        Inst::Unary { ty, a, .. } => if is_int(ty) && scan.ty(a) == Some(ty) {
            Some(ty)
        } else {
            None
        },
        Inst::Wrapped { op, ty, a, b } => if is_checked(op) && is_int(ty) && scan.ty(a) == Some(ty) && scan.ty(b) == Some(
            ty,
        ) {
            Some(ty)
        } else {
            None
        },
        Inst::Compare { ty, a, b, .. } => if is_int(ty) && scan.ty(a) == Some(ty) && scan.ty(b) == Some(ty) {
            Some(Ty::I8)
        } else {
            None
        },
        Inst::CompareImm { ty, a, .. } => if is_int(ty) && scan.ty(a) == Some(ty) {
            Some(Ty::I8)
        } else {
            None
        },
        Inst::FloatBinary { a, b, .. } => if scan.ty(a) == Some(Ty::F64) && scan.ty(b) == Some(Ty::F64) {
            Some(Ty::F64)
        } else {
            None
        },
        Inst::FloatUnary { a, .. } => if scan.ty(a) == Some(Ty::F64) {
            Some(Ty::F64)
        } else {
            None
        },
        Inst::FloatCompare { a, b, .. } => if scan.ty(a) == Some(Ty::F64) && scan.ty(b) == Some(Ty::F64) {
            Some(Ty::I8)
        } else {
            None
        },
        Inst::Convert { op, from, to, a } => if scan.ty(a) == Some(from) && converts(op, from, to) {
            Some(to)
        } else {
            None
        },
        Inst::Select { ty, cond, a, b } => if scan.ty(cond) is Some && is_int(scan.ty(cond)->Some_0) && scan.ty(a) == Some(
            ty,
        ) && scan.ty(b) == Some(ty) {
            Some(ty)
        } else {
            None
        },
        Inst::Load { ty, base, .. } => if scan.ty(base) == Some(Ty::I64) {
            Some(ty)
        } else {
            None
        },
        Inst::SlotAddr { slot, .. } => if scan.slot(slot) {
            Some(Ty::I64)
        } else {
            None
        },
        Inst::SlotLoad { ty, slot, .. } => if scan.slot(slot) {
            Some(ty)
        } else {
            None
        },
        Inst::Call { signature, ty, callee, args } => match scan.signature(signature) {
            Some((params, result)) => if result == Some(ty) && scan.ty(callee) == Some(Ty::I64) && scan.have_types(
                args@,
                params,
            ) {
                Some(ty)
            } else {
                None
            },
            None => None,
        },
        Inst::Use { var, ty } => if scan.variable(var) == Some(ty) {
            Some(ty)
        } else {
            None
        },
        _ => None,
    }
}

pub open spec fn is_computation(inst: Inst) -> bool {
    match inst {
        Inst::Const { .. } | Inst::FloatConst { .. } | Inst::Binary { .. } | Inst::BinaryImm { .. } | Inst::Unary { .. }
        | Inst::Wrapped { .. } | Inst::Compare { .. } | Inst::CompareImm { .. } | Inst::FloatBinary { .. }
        | Inst::FloatUnary { .. } | Inst::FloatCompare { .. } | Inst::Convert { .. } | Inst::Select { .. }
        | Inst::Load { .. } | Inst::SlotAddr { .. } | Inst::SlotLoad { .. } | Inst::Call { .. } | Inst::Use { .. } => true,
        _ => false,
    }
}

/// Behind the instruction at a position, or nothing where it does not belong there.
pub open spec fn scan_step(scan: Scan, insts: Seq<Inst>, at: int, params: Seq<Passed>) -> Option<Scan> {
    let inst = insts[at];
    if is_computation(inst) {
        match computes(scan, inst) {
            Some(ty) => if scan.open {
                Some(scan.then_value(ty))
            } else {
                None
            },
            None => None,
        }
    } else {
        match inst {
            Inst::NewBlock { .. } => Some(scan.with(Known::Block)),
            Inst::NewVariable { ty } => Some(scan.with(Known::Variable(ty))),
            Inst::NewSlot { .. } => Some(scan.with(Known::Slot)),
            Inst::NewSignature { params, result } => Some(scan.with(Known::Signature(params@, result))),
            Inst::Switch { block } | Inst::Enter { block } => if !scan.open && scan.block(block) && !scan.started.contains(block as int) {
                Some(
                    Scan {
                        known: scan.known.push(Known::Nothing),
                        started: scan.started.insert(block as int),
                        open: true,
                        pristine: true,
                        entry: false,
                        taken: 0,
                    },
                )
            } else {
                None
            },
            Inst::Param { index, ty } => if !scan.open || !scan.pristine {
                None
            } else if scan.entry {
                if index < params.len() && passed_ty(params[index as int]) == ty {
                    Some(scan.with(Known::Value(ty)))
                } else {
                    None
                }
            } else if index == scan.taken && scan.taken < MOST_NAMES {
                Some(Scan { taken: scan.taken + 1, ..scan.with(Known::Value(ty)) })
            } else {
                None
            },
            Inst::Overflowed { op, ty, a, b } => if scan.open && follows_wrapped(insts, at, op, ty, a, b) {
                Some(scan.then_value(Ty::I8))
            } else {
                None
            },
            Inst::Store { ty, value, base, .. } => if scan.open && scan.ty(value) == Some(ty) && scan.ty(base) == Some(
                Ty::I64,
            ) {
                Some(scan.then_nothing())
            } else {
                None
            },
            Inst::SlotStore { ty, value, slot, .. } => if scan.open && scan.ty(value) == Some(ty) && scan.slot(slot) {
                Some(scan.then_nothing())
            } else {
                None
            },
            Inst::Def { var, value } => if scan.open && scan.variable(var) is Some && scan.ty(value) == scan.variable(var) {
                Some(scan.then_nothing())
            } else {
                None
            },
            Inst::Branch { cond, then_block, then_args, else_block, else_args } => if scan.open && scan.ty(cond) is Some
                && is_int(scan.ty(cond)->Some_0) && scan.block(then_block) && scan.block(else_block) && scan.all_values(
                then_args@,
            ) && scan.all_values(else_args@) {
                Some(scan.closed())
            } else {
                None
            },
            Inst::Jump { block, args } => if scan.open && scan.block(block) && scan.all_values(args@) {
                Some(scan.closed())
            } else {
                None
            },
            Inst::Return { values } => if scan.open && scan.all_values(values@) {
                Some(scan.closed())
            } else {
                None
            },
            _ => None,
        }
    }
}

pub open spec fn first_scan() -> Scan {
    Scan { known: Seq::empty(), started: Set::empty(), open: true, pristine: true, entry: true, taken: 0 }
}

/// Behind the first `n` instructions.
pub open spec fn scan_all(insts: Seq<Inst>, n: nat, params: Seq<Passed>) -> Option<Scan>
    decreases n,
{
    if n == 0 {
        Some(first_scan())
    } else {
        match scan_all(insts, (n - 1) as nat, params) {
            Some(scan) => scan_step(scan, insts, n - 1, params),
            None => None,
        }
    }
}

/// Every instruction belongs where it stands, and no block is left open.
pub open spec fn assembles(insts: Seq<Inst>, params: Seq<Passed>) -> bool {
    scan_all(insts, insts.len(), params) matches Some(scan) && !scan.open
}

proof fn refused_early(insts: Seq<Inst>, params: Seq<Passed>, k: nat, n: nat)
    requires
        k <= n,
        scan_all(insts, k, params) is None,
    ensures
        scan_all(insts, n, params) is None,
    decreases n,
{
    if k < n {
        refused_early(insts, params, k, (n - 1) as nat);
    }
}

/// The builder's numbers for a position: that of what stands there, and one
/// that goes with it (a constant or a lost-bits flag).
#[derive(Clone, Copy, Debug, PartialEq, Eq, Structural)]
pub struct Number {
    pub main: u32,
    pub aux: Option<u32>,
}

pub open spec fn name_of(numbers: Seq<Number>, p: usize, at: int) -> u32 {
    if p < at {
        numbers[p as int].main
    } else {
        0
    }
}

pub open spec fn names_of(numbers: Seq<Number>, args: Seq<usize>, at: int) -> Seq<u32> {
    args.map_values(|p: usize| name_of(numbers, p, at))
}

pub open spec fn results_of(result: Option<Ty>) -> Seq<Ty> {
    match result {
        Some(ty) => seq![ty],
        None => Seq::empty(),
    }
}

/// The block that position `n` belongs to: the one that was started last before
/// it, or none where the function's entry goes on.
pub open spec fn block_of(insts: Seq<Inst>, n: nat) -> Option<usize>
    decreases n,
{
    if n == 0 {
        None
    } else {
        match insts[n - 1] {
            Inst::Switch { block } | Inst::Enter { block } => Some(block),
            _ => block_of(insts, (n - 1) as nat),
        }
    }
}

/// An operation that answers nothing.
pub open spec fn plainly(op: Op) -> Built {
    Built { op, result: 0 }
}

/// What the builder is given for an instruction of a block, and what it answers:
/// the number of what stands at the position. A parameter of the function itself
/// is there already, and a flag comes with the computation before it.
pub open spec fn render(inst: Inst, block: Option<usize>, at: int, numbers: Seq<Number>) -> Seq<Built> {
    let n = |p: usize| name_of(numbers, p, at);
    let own = numbers[at];
    match inst {
        Inst::NewBlock { cold } => if cold {
            seq![(Built { op: Op::CreateBlock, result: own.main }), plainly(Op::SetCold { block: own.main })]
        } else {
            seq![(Built { op: Op::CreateBlock, result: own.main })]
        },
        Inst::NewVariable { ty } => seq![plainly(Op::DeclareVar { var: own.main, ty })],
        Inst::NewSlot { size, align_shift } => seq![(Built { op: Op::CreateSlot { size, align_shift }, result: own.main })],
        Inst::NewSignature { params, result } => seq![
            (Built { op: Op::ImportSignature { params: params@, results: results_of(result) }, result: own.main }),
        ],
        Inst::Switch { block } | Inst::Enter { block } => seq![plainly(Op::SwitchTo { block: n(block) })],
        Inst::Param { ty, .. } => match block {
            Some(block) => seq![(Built { op: Op::BlockParam { block: n(block), ty }, result: own.main })],
            None => Seq::empty(),
        },
        Inst::Const { ty, imm } => seq![(Built { op: Op::Const { ty, imm }, result: own.main })],
        Inst::FloatConst { bits } => seq![(Built { op: Op::FloatConst { bits }, result: own.main })],
        Inst::Binary { op, a, b, .. } => seq![(Built { op: Op::Binary { op, a: n(a), b: n(b) }, result: own.main })],
        Inst::BinaryImm { op, ty, a, imm } => seq![
            (Built { op: Op::Const { ty, imm }, result: own.aux->Some_0 }),
            (Built { op: Op::Binary { op, a: n(a), b: own.aux->Some_0 }, result: own.main }),
        ],
        Inst::Unary { op, a, .. } => seq![(Built { op: Op::Unary { op, a: n(a) }, result: own.main })],
        Inst::Wrapped { op, a, b, .. } => seq![(Built { op: Op::Overflowing { op, a: n(a), b: n(b), flag: own.aux->Some_0 }, result: own.main })],
        Inst::Overflowed { .. } => Seq::empty(),
        Inst::Compare { cc, a, b, .. } => seq![(Built { op: Op::Compare { cc, a: n(a), b: n(b) }, result: own.main })],
        Inst::CompareImm { cc, ty, a, imm } => seq![
            (Built { op: Op::Const { ty, imm }, result: own.aux->Some_0 }),
            (Built { op: Op::Compare { cc, a: n(a), b: own.aux->Some_0 }, result: own.main }),
        ],
        Inst::FloatBinary { op, a, b } => seq![(Built { op: Op::FloatBinary { op, a: n(a), b: n(b) }, result: own.main })],
        Inst::FloatUnary { op, a } => seq![(Built { op: Op::FloatUnary { op, a: n(a) }, result: own.main })],
        Inst::FloatCompare { cc, a, b } => seq![(Built { op: Op::FloatCompare { cc, a: n(a), b: n(b) }, result: own.main })],
        Inst::Convert { op, to, a, .. } => seq![(Built { op: Op::Convert { op, to, a: n(a) }, result: own.main })],
        Inst::Select { cond, a, b, .. } => seq![(Built { op: Op::Select { cond: n(cond), a: n(a), b: n(b) }, result: own.main })],
        Inst::Load { ty, base, offset } => seq![(Built { op: Op::Load { ty, base: n(base), offset }, result: own.main })],
        Inst::Store { value, base, offset, .. } => seq![plainly(Op::Store { value: n(value), base: n(base), offset })],
        Inst::SlotAddr { slot, offset } => seq![(Built { op: Op::SlotAddr { slot: n(slot), offset }, result: own.main })],
        Inst::SlotLoad { ty, slot, offset } => seq![(Built { op: Op::SlotLoad { ty, slot: n(slot), offset }, result: own.main })],
        Inst::SlotStore { value, slot, offset, .. } => seq![plainly(Op::SlotStore { value: n(value), slot: n(slot), offset })],
        Inst::Call { signature, callee, args, .. } => seq![
            (Built {
                op: Op::Call { signature: n(signature), callee: n(callee), args: names_of(numbers, args@, at) },
                result: own.main,
            }),
        ],
        Inst::Use { var, .. } => seq![(Built { op: Op::UseVar { var: n(var) }, result: own.main })],
        Inst::Def { var, value } => seq![plainly(Op::DefVar { var: n(var), value: n(value) })],
        Inst::Branch { cond, then_block, then_args, else_block, else_args } => seq![
            plainly(Op::Branch {
                cond: n(cond),
                then_block: n(then_block),
                then_args: names_of(numbers, then_args@, at),
                else_block: n(else_block),
                else_args: names_of(numbers, else_args@, at),
            }),
        ],
        Inst::Jump { block, args } => seq![plainly(Op::Jump { block: n(block), args: names_of(numbers, args@, at) })],
        Inst::Return { values } => seq![plainly(Op::Return { values: names_of(numbers, values@, at) })],
    }
}

/// What the builder is given for the first `n` instructions.
pub open spec fn render_all(insts: Seq<Inst>, n: nat, numbers: Seq<Number>) -> Seq<Built>
    decreases n,
{
    if n == 0 {
        Seq::empty()
    } else {
        render_all(insts, (n - 1) as nat, numbers) + render(
            insts[n - 1],
            block_of(insts, (n - 1) as nat),
            n - 1,
            numbers,
        )
    }
}

/// The number of a position is the builder's own for what stands there: a
/// parameter of the function has the number that it was given in the entry, a
/// variable the next one, and a flag that of the computation before it.
pub open spec fn wired(insts: Seq<Inst>, at: int, numbers: Seq<Number>, own: Seq<u32>) -> bool {
    match insts[at] {
        Inst::Param { index, .. } => block_of(insts, at as nat) is None ==> numbers[at].main == own[index as int],
        Inst::NewVariable { .. } => numbers[at].main == variables_in(insts, at as nat),
        Inst::Overflowed { .. } => at > 0 && numbers[at - 1].aux == Some(numbers[at].main),
        _ => true,
    }
}

/// Numbers that are given later change nothing.
proof fn rendered_once(insts: Seq<Inst>, n: nat, a: Seq<Number>, b: Seq<Number>)
    requires
        n <= a.len(),
        n <= b.len(),
        forall|k: int| 0 <= k < n ==> #[trigger] a[k] == b[k],
    ensures
        render_all(insts, n, a) == render_all(insts, n, b),
    decreases n,
{
    if n > 0 {
        rendered_once(insts, (n - 1) as nat, a, b);
        let at = n - 1;
        let inst = insts[at];
        assert(a[at] == b[at]);
        assert forall|p: usize| #[trigger] name_of(a, p, at) == name_of(b, p, at) by {}
        assert forall|args: Seq<usize>| #[trigger] names_of(a, args, at) == names_of(b, args, at) by {
            assert(names_of(a, args, at) =~= names_of(b, args, at));
        }
        let block = block_of(insts, at as nat);
        assert(render(inst, block, at, a) =~= render(inst, block, at, b));
    }
}

/// What stands at a position, with its numbers.
#[derive(Debug)]
enum Entity {
    Nothing,
    Value(Ty),
    Variable(Ty),
    Slot,
    Signature(Vec<Ty>, Option<Ty>),
    Block,
}

spec fn known_of(entity: Entity) -> Known {
    match entity {
        Entity::Nothing => Known::Nothing,
        Entity::Value(ty) => Known::Value(ty),
        Entity::Variable(ty) => Known::Variable(ty),
        Entity::Slot => Known::Slot,
        Entity::Signature(params, result) => Known::Signature(params@, result),
        Entity::Block => Known::Block,
    }
}

/// Where the pass over the code stands.
#[derive(Debug)]
struct Pass {
    entities: Vec<Entity>,
    numbers: Vec<Number>,
    started: Vec<bool>,
    /// The number of the block that is open.
    current: u32,
    open: bool,
    pristine: bool,
    entry: bool,
    taken: usize,
    variables: u32,
    /// The numbers of the function's own parameters.
    params: Vec<u32>,
}

spec fn knowns(entities: Seq<Entity>) -> Seq<Known> {
    entities.map_values(|e: Entity| known_of(e))
}

spec fn started_set(started: Seq<bool>) -> Set<int> {
    Set::new(|i: int| 0 <= i < started.len() && started[i])
}

impl Pass {
    spec fn scan(&self) -> Scan {
        Scan {
            known: knowns(self.entities@),
            started: started_set(self.started@),
            open: self.open,
            pristine: self.pristine,
            entry: self.entry,
            taken: self.taken as int,
        }
    }

    /// The builder knows what stands at the positions.
    spec fn linked(&self, o: Outline, params: Seq<Passed>) -> bool {
        &&& self.entities@.len() == self.numbers@.len()
        &&& self.entities@.len() == self.started@.len()
        &&& self.open ==> o.current == Some(self.current)
        &&& self.open && self.pristine ==> o.pristine
        &&& self.open && self.pristine && !self.entry ==> o.taken == self.taken
        &&& o.room(2)
        &&& o.named == self.variables
        &&& !self.open ==> o.current is None
        &&& self.taken <= self.entities@.len()
        &&& forall|v: u32| #[trigger] o.variables.dom().contains(v) ==> v < self.variables
        &&& self.variables <= self.entities@.len()
        &&& self.params@.len() == params.len()
        &&& forall|k: int| 0 <= k < params.len() ==> #[trigger] o.ty(self.params@[k]) == Some(passed_ty(params[k]))
        &&& forall|p: int| 0 <= p < self.entities@.len() ==> #[trigger] self.entity_linked(o, p)
        &&& forall|p: int, q: int|
            0 <= p < q < self.entities@.len() && #[trigger] self.entities@[p] is Block && #[trigger] self.entities@[q] is Block
                ==> self.numbers@[p].main != self.numbers@[q].main
    }

    spec fn entity_linked(&self, o: Outline, p: int) -> bool {
        let n = self.numbers@[p].main;
        match self.entities@[p] {
            Entity::Nothing => true,
            Entity::Value(ty) => o.ty(n) == Some(ty),
            Entity::Variable(ty) => o.variables.dom().contains(n) && o.variables[n] == ty,
            Entity::Slot => o.slots.contains(n),
            Entity::Signature(params, result) => o.signatures.dom().contains(n) && o.signatures[n] == (
                params@,
                results_of(result),
            ),
            Entity::Block => o.blocks.dom().contains(n) && o.blocks[n] == self.started@[p],
        }
    }
}

/// Values were added in the current block, and nothing else happened.
spec fn extends(a: Outline, b: Outline) -> bool {
    &&& b.variables == a.variables
    &&& b.slots == a.slots
    &&& b.signatures == a.signatures
    &&& b.blocks == a.blocks
    &&& b.current == a.current
    &&& steady(a, b)
    &&& forall|v: u32| #[trigger] a.ty(v) is Some ==> b.ty(v) == a.ty(v)
}

/// An instruction was taken that makes no block and no variable.
spec fn steady(a: Outline, b: Outline) -> bool {
    &&& b.sealed == a.sealed
    &&& b.made == a.made
    &&& b.named == a.named
    &&& a.given <= b.given <= a.given + 2
}

/// The blocks that the first `n` instructions make.
pub open spec fn blocks_in(insts: Seq<Inst>, n: nat) -> nat
    decreases n,
{
    if n == 0 {
        0
    } else {
        blocks_in(insts, (n - 1) as nat) + (if insts[n - 1] is NewBlock {
            1nat
        } else {
            0
        })
    }
}

/// The variables that the first `n` instructions make.
pub open spec fn variables_in(insts: Seq<Inst>, n: nat) -> nat
    decreases n,
{
    if n == 0 {
        0
    } else {
        variables_in(insts, (n - 1) as nat) + (if insts[n - 1] is NewVariable {
            1nat
        } else {
            0
        })
    }
}

/// The builder has numbers for code with these parameters.
pub open spec fn sized(insts: Seq<Inst>, params: Seq<Passed>) -> bool {
    let n = insts.len();
    &&& params.len() <= MOST_NAMES
    &&& variables_in(insts, n) <= MOST_NAMES
    &&& 2 * (2 * n + params.len() + 4) + merged(blocks_in(insts, n) + 1, variables_in(insts, n)) < MOST_VALUES
}

proof fn counted_up(insts: Seq<Inst>, i: nat, n: nat)
    requires
        i <= n,
    ensures
        blocks_in(insts, i) <= blocks_in(insts, n),
        variables_in(insts, i) <= variables_in(insts, n),
    decreases n,
{
    if i < n {
        counted_up(insts, i, (n - 1) as nat);
    }
}

/// What the first `i` instructions took of the builder's numbers.
spec fn spent(insts: Seq<Inst>, i: int, o: Outline, params: Seq<Passed>) -> bool {
    &&& !o.sealed
    &&& o.given <= 2 * i + 2 + params.len()
    &&& o.made <= blocks_in(insts, i as nat) + 1
    &&& o.named <= variables_in(insts, i as nat)
}

proof fn room_left(insts: Seq<Inst>, i: int, o: Outline, params: Seq<Passed>)
    requires
        0 <= i <= insts.len(),
        sized(insts, params),
        spent(insts, i, o, params),
    ensures
        o.room(2),
        o.named <= MOST_NAMES,
{
    let n = insts.len();
    counted_up(insts, i as nat, n);
    let b = blocks_in(insts, n) + 1;
    let v = variables_in(insts, n);
    assert((o.made + 1) * (o.named + 1) <= (b + 1) * (v + 1)) by (nonlinear_arith)
        requires
            o.made <= b,
            o.named <= v,
    ;
}

spec fn adds_value(op: Op) -> bool {
    match op {
        Op::CreateBlock | Op::SetCold { .. } | Op::SwitchTo { .. } | Op::BlockParam { .. } | Op::DeclareVar { .. }
        | Op::CreateSlot { .. } | Op::ImportSignature { .. } | Op::Overflowing { .. } | Op::Store { .. }
        | Op::SlotStore { .. } | Op::DefVar { .. } | Op::Branch { .. } | Op::Jump { .. } | Op::Return { .. }
        | Op::SealAll => false,
        _ => true,
    }
}

proof fn value_taken(before: Seq<Built>, after: Seq<Built>, op: Op, r: u32)
    requires
        took(before, after, op, r),
        adds_value(op),
    ensures
        extends(outline(before), outline(after)),
        outline(after).ty(r) == Some(result_type(outline(before), op)),
        outline(after).given == outline(before).given + 1,
        after == before + seq![(Built { op, result: r })],
{
    outline_of_push(before, Built { op, result: r });
    assert(after =~= before + seq![(Built { op, result: r })]);
}

fn int_ty(ty: Ty) -> (r: bool)
    ensures
        r == is_int(ty),
{
    !matches!(ty, Ty::F64)
}

fn ty_width(ty: Ty) -> (r: u8)
    ensures
        r == width(ty),
{
    match ty {
        Ty::I8 => 8,
        Ty::I16 => 16,
        Ty::I32 => 32,
        Ty::I64 | Ty::F64 => 64,
    }
}

fn can_convert(op: ConvertOp, from: Ty, to: Ty) -> (r: bool)
    ensures
        r == converts(op, from, to),
{
    match op {
        ConvertOp::Reduce => int_ty(from) && int_ty(to) && ty_width(to) < ty_width(from),
        ConvertOp::SignExtend | ConvertOp::ZeroExtend => int_ty(from) && int_ty(to) && ty_width(from) < ty_width(to),
        ConvertOp::Bitcast => from == Ty::I64 && to == Ty::F64 || from == Ty::F64 && to == Ty::I64,
        ConvertOp::FloatFromSigned | ConvertOp::FloatFromUnsigned => int_ty(from) && to == Ty::F64,
        ConvertOp::FloatToSigned => from == Ty::F64 && int_ty(to),
    }
}

impl Pass {
    /// The number of the value at a position, if it has the type.
    fn typed(&self, at: usize, ty: Ty, Ghost(o): Ghost<Outline>, Ghost(params): Ghost<Seq<Passed>>) -> (r: Option<u32>)
        requires
            self.linked(o, params),
        ensures
            (r is Some) == (self.scan().ty(at) == Some(ty)),
            r matches Some(n) ==> n == name_of(self.numbers@, at, self.numbers@.len() as int) && o.ty(n) == Some(ty),
    {
        if at < self.entities.len() {
            if let Entity::Value(known) = &self.entities[at] {
                assert(self.entity_linked(o, at as int));
                if *known == ty {
                    return Some(self.numbers[at].main);
                }
            }
        }
        None
    }

    fn value(&self, at: usize, Ghost(o): Ghost<Outline>, Ghost(params): Ghost<Seq<Passed>>) -> (r: Option<(u32, Ty)>)
        requires
            self.linked(o, params),
        ensures
            match r {
                Some((n, ty)) => self.scan().ty(at) == Some(ty) && n == name_of(
                    self.numbers@,
                    at,
                    self.numbers@.len() as int,
                ) && o.ty(n) == Some(ty),
                None => self.scan().ty(at) is None,
            },
    {
        if at < self.entities.len() {
            if let Entity::Value(known) = &self.entities[at] {
                assert(self.entity_linked(o, at as int));
                return Some((self.numbers[at].main, *known));
            }
        }
        None
    }

    fn variable(&self, at: usize, Ghost(o): Ghost<Outline>, Ghost(params): Ghost<Seq<Passed>>) -> (r: Option<(u32, Ty)>)
        requires
            self.linked(o, params),
        ensures
            match r {
                Some((n, ty)) => self.scan().variable(at) == Some(ty) && n == name_of(
                    self.numbers@,
                    at,
                    self.numbers@.len() as int,
                ) && o.variables.dom().contains(n) && o.variables[n] == ty,
                None => self.scan().variable(at) is None,
            },
    {
        if at < self.entities.len() {
            if let Entity::Variable(known) = &self.entities[at] {
                assert(self.entity_linked(o, at as int));
                return Some((self.numbers[at].main, *known));
            }
        }
        None
    }

    fn slot(&self, at: usize, Ghost(o): Ghost<Outline>, Ghost(params): Ghost<Seq<Passed>>) -> (r: Option<u32>)
        requires
            self.linked(o, params),
        ensures
            match r {
                Some(n) => self.scan().slot(at) && n == name_of(self.numbers@, at, self.numbers@.len() as int)
                    && o.slots.contains(n),
                None => !self.scan().slot(at),
            },
    {
        if at < self.entities.len() {
            if let Entity::Slot = &self.entities[at] {
                assert(self.entity_linked(o, at as int));
                return Some(self.numbers[at].main);
            }
        }
        None
    }

    fn block(&self, at: usize, Ghost(o): Ghost<Outline>, Ghost(params): Ghost<Seq<Passed>>) -> (r: Option<u32>)
        requires
            self.linked(o, params),
        ensures
            match r {
                Some(n) => self.scan().block(at) && n == name_of(self.numbers@, at, self.numbers@.len() as int)
                    && o.blocks.dom().contains(n) && at < self.started@.len() && o.blocks[n] == self.started@[at as int],
                None => !self.scan().block(at),
            },
    {
        if at < self.entities.len() {
            if let Entity::Block = &self.entities[at] {
                assert(self.entity_linked(o, at as int));
                return Some(self.numbers[at].main);
            }
        }
        None
    }

    /// The numbers of values.
    fn values(&self, args: &Vec<usize>, Ghost(o): Ghost<Outline>, Ghost(params): Ghost<Seq<Passed>>) -> (r: Option<Vec<u32>>)
        requires
            self.linked(o, params),
        ensures
            match r {
                Some(list) => self.scan().all_values(args@) && list@ == names_of(
                    self.numbers@,
                    args@,
                    self.numbers@.len() as int,
                ) && o.has_all(list@),
                None => !self.scan().all_values(args@),
            },
    {
        let mut list: Vec<u32> = Vec::new();
        let mut k: usize = 0;
        while k < args.len()
            invariant
                k <= args@.len(),
                self.linked(o, params),
                list@ == names_of(self.numbers@, args@, self.numbers@.len() as int).take(k as int),
                forall|j: int| 0 <= j < k ==> #[trigger] self.scan().ty(args@[j]) is Some,
                forall|j: int| 0 <= j < k ==> #[trigger] o.ty(list@[j]) is Some,
            decreases args@.len() - k,
        {
            match self.value(args[k], Ghost(o), Ghost(params)) {
                Some((n, _)) => {
                    list.push(n);
                    assert(list@ =~= names_of(self.numbers@, args@, self.numbers@.len() as int).take(k + 1));
                },
                None => {
                    assert(self.scan().ty(args@[k as int]) is None);
                    return None;
                },
            }
            k = k + 1;
        }
        assert(list@ =~= names_of(self.numbers@, args@, self.numbers@.len() as int));
        Some(list)
    }

    /// The numbers of values that have the types of a signature's parameters.
    fn arguments(
        &self,
        args: &Vec<usize>,
        types: &Vec<Ty>,
        Ghost(o): Ghost<Outline>,
        Ghost(params): Ghost<Seq<Passed>>,
    ) -> (r: Option<Vec<u32>>)
        requires
            self.linked(o, params),
        ensures
            match r {
                Some(list) => self.scan().have_types(args@, types@) && list@ == names_of(
                    self.numbers@,
                    args@,
                    self.numbers@.len() as int,
                ) && list@.len() == types@.len() && forall|k: int|
                    0 <= k < list@.len() ==> #[trigger] o.ty(list@[k]) == Some(types@[k]),
                None => !self.scan().have_types(args@, types@),
            },
    {
        if args.len() != types.len() {
            return None;
        }
        let mut list: Vec<u32> = Vec::new();
        let mut k: usize = 0;
        while k < args.len()
            invariant
                k <= args@.len(),
                args@.len() == types@.len(),
                self.linked(o, params),
                list@ == names_of(self.numbers@, args@, self.numbers@.len() as int).take(k as int),
                forall|j: int| 0 <= j < k ==> #[trigger] self.scan().ty(args@[j]) == Some(types@[j]),
                forall|j: int| 0 <= j < k ==> #[trigger] o.ty(list@[j]) == Some(types@[j]),
            decreases args@.len() - k,
        {
            match self.typed(args[k], types[k], Ghost(o), Ghost(params)) {
                Some(n) => {
                    list.push(n);
                    assert(list@ =~= names_of(self.numbers@, args@, self.numbers@.len() as int).take(k + 1));
                },
                None => {
                    assert(self.scan().ty(args@[k as int]) != Some(types@[k as int]));
                    return None;
                },
            }
            k = k + 1;
        }
        assert(list@ =~= names_of(self.numbers@, args@, self.numbers@.len() as int));
        Some(list)
    }
}

fn emit_binary(builder: &mut FunctionBuilder<'_>, op: BinaryOp, a: u32, b: u32) -> (r: u32)
    requires
        fits(outline(built(*old(builder))), (Op::Binary { op, a, b })),
    ensures
        interface(*final(builder)) == interface(*old(builder)),
        took(built(*old(builder)), built(*final(builder)), (Op::Binary { op, a, b }), r),
{
    match op {
        BinaryOp::Add => clif::iadd(builder, a, b),
        BinaryOp::Sub => clif::isub(builder, a, b),
        BinaryOp::Mul => clif::imul(builder, a, b),
        BinaryOp::And => clif::band(builder, a, b),
        BinaryOp::Or => clif::bor(builder, a, b),
        BinaryOp::Xor => clif::bxor(builder, a, b),
        BinaryOp::Shl => clif::ishl(builder, a, b),
        BinaryOp::Sshr => clif::sshr(builder, a, b),
        BinaryOp::Ushr => clif::ushr(builder, a, b),
        BinaryOp::Sdiv => clif::sdiv(builder, a, b),
        BinaryOp::Srem => clif::srem(builder, a, b),
    }
}

fn emit_overflowing(builder: &mut FunctionBuilder<'_>, op: BinaryOp, a: u32, b: u32) -> (r: (u32, u32))
    requires
        fits(outline(built(*old(builder))), (Op::Overflowing { op, a, b, flag: 0 })),
    ensures
        interface(*final(builder)) == interface(*old(builder)),
        took(built(*old(builder)), built(*final(builder)), (Op::Overflowing { op, a, b, flag: r.1 }), r.0),
        outline(built(*old(builder))).ty(r.1) is None,
        r.1 != r.0,
{
    match op {
        BinaryOp::Add => clif::sadd_overflow(builder, a, b),
        BinaryOp::Sub => clif::ssub_overflow(builder, a, b),
        _ => clif::smul_overflow(builder, a, b),
    }
}

fn emit_unary(builder: &mut FunctionBuilder<'_>, op: UnaryOp, a: u32) -> (r: u32)
    requires
        fits(outline(built(*old(builder))), (Op::Unary { op, a })),
    ensures
        interface(*final(builder)) == interface(*old(builder)),
        took(built(*old(builder)), built(*final(builder)), (Op::Unary { op, a }), r),
{
    match op {
        UnaryOp::Neg => clif::ineg(builder, a),
        UnaryOp::Not => clif::bnot(builder, a),
    }
}

fn emit_float_binary(builder: &mut FunctionBuilder<'_>, op: FloatOp, a: u32, b: u32) -> (r: u32)
    requires
        fits(outline(built(*old(builder))), (Op::FloatBinary { op, a, b })),
    ensures
        interface(*final(builder)) == interface(*old(builder)),
        took(built(*old(builder)), built(*final(builder)), (Op::FloatBinary { op, a, b }), r),
{
    match op {
        FloatOp::Add => clif::fadd(builder, a, b),
        FloatOp::Sub => clif::fsub(builder, a, b),
        FloatOp::Mul => clif::fmul(builder, a, b),
        FloatOp::Div => clif::fdiv(builder, a, b),
    }
}

fn emit_float_unary(builder: &mut FunctionBuilder<'_>, op: FloatUnaryOp, a: u32) -> (r: u32)
    requires
        fits(outline(built(*old(builder))), (Op::FloatUnary { op, a })),
    ensures
        interface(*final(builder)) == interface(*old(builder)),
        took(built(*old(builder)), built(*final(builder)), (Op::FloatUnary { op, a }), r),
{
    match op {
        FloatUnaryOp::Neg => clif::fneg(builder, a),
        FloatUnaryOp::Trunc => clif::ftrunc(builder, a),
    }
}

fn emit_convert(builder: &mut FunctionBuilder<'_>, op: ConvertOp, to: Ty, a: u32) -> (r: u32)
    requires
        fits(outline(built(*old(builder))), (Op::Convert { op, to, a })),
    ensures
        interface(*final(builder)) == interface(*old(builder)),
        took(built(*old(builder)), built(*final(builder)), (Op::Convert { op, to, a }), r),
{
    match op {
        ConvertOp::Reduce => clif::ireduce(builder, to, a),
        ConvertOp::SignExtend => clif::sextend(builder, to, a),
        ConvertOp::ZeroExtend => clif::uextend(builder, to, a),
        ConvertOp::Bitcast => clif::bitcast(builder, to, a),
        ConvertOp::FloatFromSigned => clif::fcvt_from_sint(builder, to, a),
        ConvertOp::FloatFromUnsigned => clif::fcvt_from_uint(builder, to, a),
        ConvertOp::FloatToSigned => clif::fcvt_to_sint_sat(builder, to, a),
    }
}

/// A computed value.
struct Computed {
    number: Number,
    ty: Ty,
}

/// The builder was given what stands for the instruction, and its value is known.
spec fn computed(pass: Pass, inst: Inst, before: Seq<Built>, after: Seq<Built>, r: Option<Computed>) -> bool {
    match computes(pass.scan(), inst) {
        None => r is None && after == before,
        Some(ty) => {
            &&& r matches Some(c)
            &&& c.ty == ty
            &&& after == before + render(
                inst,
                None,
                pass.numbers@.len() as int,
                pass.numbers@.push(c.number),
            )
            &&& extends(outline(before), outline(after))
            &&& outline(after).ty(c.number.main) == Some(ty)
            &&& inst is Wrapped ==> (c.number.aux matches Some(flag) && outline(after).ty(flag) == Some(Ty::I8))
        },
    }
}

/// Names that the rendering of an instruction uses stay what they are when its
/// own numbers are added.
proof fn names_stay(numbers: Seq<Number>, own: Number)
    ensures
        forall|p: usize| #[trigger]
            name_of(numbers.push(own), p, numbers.len() as int) == name_of(numbers, p, numbers.len() as int),
        forall|args: Seq<usize>| #[trigger]
            names_of(numbers.push(own), args, numbers.len() as int) == names_of(numbers, args, numbers.len() as int),
        numbers.push(own)[numbers.len() as int] == own,
{
    assert forall|args: Seq<usize>| #[trigger]
        names_of(numbers.push(own), args, numbers.len() as int) == names_of(numbers, args, numbers.len() as int) by {
        assert(names_of(numbers.push(own), args, numbers.len() as int) =~= names_of(
            numbers,
            args,
            numbers.len() as int,
        ));
    }
}

spec fn compute_int_takes(inst: Inst) -> bool {
    inst is Const || inst is FloatConst || inst is Binary || inst is Unary || inst is Compare
}

spec fn compute_checked_takes(inst: Inst) -> bool {
    inst is BinaryImm || inst is CompareImm || inst is Wrapped
}

spec fn compute_float_takes(inst: Inst) -> bool {
    inst is FloatBinary || inst is FloatUnary || inst is FloatCompare || inst is Convert || inst is Select
}

spec fn compute_memory_takes(inst: Inst) -> bool {
    inst is Load || inst is SlotAddr || inst is SlotLoad || inst is Call || inst is Use
}

/// Integer arithmetic.
#[verifier::rlimit(60)]
fn compute_int(builder: &mut FunctionBuilder<'_>, pass: &Pass, inst: &Inst, Ghost(params): Ghost<Seq<Passed>>) -> (r: Option<Computed>)
    requires
        pass.linked(outline(built(*old(builder))), params),
        pass.open,
        compute_int_takes(*inst),
    ensures
        interface(*final(builder)) == interface(*old(builder)),
        computed(*pass, *inst, built(*old(builder)), built(*final(builder)), r),
{
    let ghost before = built(*builder);
    let ghost o = outline(before);
    match inst {
        Inst::Const { ty, imm } => {
            if !(int_ty(*ty)) {
                return None;
            }
            let number = clif::iconst(builder, *ty, *imm);
            let own = Number { main: number, aux: None };
            proof {
                names_stay(pass.numbers@, own);
                value_taken(before, built(*builder), (Op::Const { ty: *ty, imm: *imm }), number);
            }
            Some(Computed { number: own, ty: *ty })
        },
        Inst::FloatConst { bits } => {
            let number = clif::float_const(builder, *bits);
            let own = Number { main: number, aux: None };
            proof {
                names_stay(pass.numbers@, own);
                value_taken(before, built(*builder), (Op::FloatConst { bits: *bits }), number);
            }
            Some(Computed { number: own, ty: Ty::F64 })
        },
        Inst::Binary { op, ty, a, b } => {
            if !(int_ty(*ty)) {
                return None;
            }
            let x = match pass.typed(*a, *ty, Ghost(o), Ghost(params)) {
                Some(x) => x,
                None => {
                    return None;
                },
            };
            let y = match pass.typed(*b, *ty, Ghost(o), Ghost(params)) {
                Some(x) => x,
                None => {
                    return None;
                },
            };
            let number = emit_binary(builder, *op, x, y);
            let own = Number { main: number, aux: None };
            proof {
                names_stay(pass.numbers@, own);
                value_taken(before, built(*builder), (Op::Binary { op: *op, a: x, b: y }), number);
            }
            Some(Computed { number: own, ty: *ty })
        },
        Inst::Unary { op, ty, a } => {
            if !(int_ty(*ty)) {
                return None;
            }
            let x = match pass.typed(*a, *ty, Ghost(o), Ghost(params)) {
                Some(x) => x,
                None => {
                    return None;
                },
            };
            let number = emit_unary(builder, *op, x);
            let own = Number { main: number, aux: None };
            proof {
                names_stay(pass.numbers@, own);
                value_taken(before, built(*builder), (Op::Unary { op: *op, a: x }), number);
            }
            Some(Computed { number: own, ty: *ty })
        },
        Inst::Compare { cc, ty, a, b } => {
            if !(int_ty(*ty)) {
                return None;
            }
            let x = match pass.typed(*a, *ty, Ghost(o), Ghost(params)) {
                Some(x) => x,
                None => {
                    return None;
                },
            };
            let y = match pass.typed(*b, *ty, Ghost(o), Ghost(params)) {
                Some(x) => x,
                None => {
                    return None;
                },
            };
            let number = clif::icmp(builder, *cc, x, y);
            let own = Number { main: number, aux: None };
            proof {
                names_stay(pass.numbers@, own);
                value_taken(before, built(*builder), (Op::Compare { cc: *cc, a: x, b: y }), number);
            }
            Some(Computed { number: own, ty: Ty::I8 })
        },
        _ => None,
    }
}

/// Integer arithmetic with a constant, or with a flag for lost bits.
#[verifier::rlimit(60)]
fn compute_checked(builder: &mut FunctionBuilder<'_>, pass: &Pass, inst: &Inst, Ghost(params): Ghost<Seq<Passed>>) -> (r: Option<Computed>)
    requires
        pass.linked(outline(built(*old(builder))), params),
        pass.open,
        compute_checked_takes(*inst),
    ensures
        interface(*final(builder)) == interface(*old(builder)),
        computed(*pass, *inst, built(*old(builder)), built(*final(builder)), r),
{
    let ghost before = built(*builder);
    let ghost o = outline(before);
    match inst {
        Inst::BinaryImm { op, ty, a, imm } => {
            if !int_ty(*ty) {
                return None;
            }
            let x = match pass.typed(*a, *ty, Ghost(o), Ghost(params)) {
                Some(x) => x,
                None => {
                    return None;
                },
            };
            let constant = clif::iconst(builder, *ty, *imm);
            let ghost middle = built(*builder);
            proof {
                value_taken(before, middle, (Op::Const { ty: *ty, imm: *imm }), constant);
            }
            let number = emit_binary(builder, *op, x, constant);
            let own = Number { main: number, aux: Some(constant) };
            proof {
                names_stay(pass.numbers@, own);
                value_taken(middle, built(*builder), (Op::Binary { op: *op, a: x, b: constant }), number);
                assert(built(*builder) =~= before + seq![
                    (Built { op: Op::Const { ty: *ty, imm: *imm }, result: constant }),
                    (Built { op: Op::Binary { op: *op, a: x, b: constant }, result: number }),
                ]);
            }
            Some(Computed { number: own, ty: *ty })
        },
        Inst::CompareImm { cc, ty, a, imm } => {
            if !int_ty(*ty) {
                return None;
            }
            let x = match pass.typed(*a, *ty, Ghost(o), Ghost(params)) {
                Some(x) => x,
                None => {
                    return None;
                },
            };
            let constant = clif::iconst(builder, *ty, *imm);
            let ghost middle = built(*builder);
            proof {
                value_taken(before, middle, (Op::Const { ty: *ty, imm: *imm }), constant);
            }
            let number = clif::icmp(builder, *cc, x, constant);
            let own = Number { main: number, aux: Some(constant) };
            proof {
                names_stay(pass.numbers@, own);
                value_taken(middle, built(*builder), (Op::Compare { cc: *cc, a: x, b: constant }), number);
                assert(built(*builder) =~= before + seq![
                    (Built { op: Op::Const { ty: *ty, imm: *imm }, result: constant }),
                    (Built { op: Op::Compare { cc: *cc, a: x, b: constant }, result: number }),
                ]);
            }
            Some(Computed { number: own, ty: Ty::I8 })
        },
        Inst::Wrapped { op, ty, a, b } => {
            if !matches!(*op, BinaryOp::Add | BinaryOp::Sub | BinaryOp::Mul) || !int_ty(*ty) {
                return None;
            }
            let x = match pass.typed(*a, *ty, Ghost(o), Ghost(params)) {
                Some(x) => x,
                None => {
                    return None;
                },
            };
            let y = match pass.typed(*b, *ty, Ghost(o), Ghost(params)) {
                Some(y) => y,
                None => {
                    return None;
                },
            };
            let (number, flag) = emit_overflowing(builder, *op, x, y);
            let own = Number { main: number, aux: Some(flag) };
            proof {
                let taken = Op::Overflowing { op: *op, a: x, b: y, flag };
                names_stay(pass.numbers@, own);
                outline_of_push(before, Built { op: taken, result: number });
                assert(built(*builder) =~= before + seq![(Built { op: taken, result: number })]);
            }
            Some(Computed { number: own, ty: *ty })
        },
        _ => None,
    }
}

/// Arithmetic on doubles, conversions and choices.
#[verifier::rlimit(60)]
fn compute_float(builder: &mut FunctionBuilder<'_>, pass: &Pass, inst: &Inst, Ghost(params): Ghost<Seq<Passed>>) -> (r: Option<Computed>)
    requires
        pass.linked(outline(built(*old(builder))), params),
        pass.open,
        compute_float_takes(*inst),
    ensures
        interface(*final(builder)) == interface(*old(builder)),
        computed(*pass, *inst, built(*old(builder)), built(*final(builder)), r),
{
    let ghost before = built(*builder);
    let ghost o = outline(before);
    match inst {
        Inst::FloatBinary { op, a, b } => {
            let x = match pass.typed(*a, Ty::F64, Ghost(o), Ghost(params)) {
                Some(x) => x,
                None => {
                    return None;
                },
            };
            let y = match pass.typed(*b, Ty::F64, Ghost(o), Ghost(params)) {
                Some(x) => x,
                None => {
                    return None;
                },
            };
            let number = emit_float_binary(builder, *op, x, y);
            let own = Number { main: number, aux: None };
            proof {
                names_stay(pass.numbers@, own);
                value_taken(before, built(*builder), (Op::FloatBinary { op: *op, a: x, b: y }), number);
            }
            Some(Computed { number: own, ty: Ty::F64 })
        },
        Inst::FloatUnary { op, a } => {
            let x = match pass.typed(*a, Ty::F64, Ghost(o), Ghost(params)) {
                Some(x) => x,
                None => {
                    return None;
                },
            };
            let number = emit_float_unary(builder, *op, x);
            let own = Number { main: number, aux: None };
            proof {
                names_stay(pass.numbers@, own);
                value_taken(before, built(*builder), (Op::FloatUnary { op: *op, a: x }), number);
            }
            Some(Computed { number: own, ty: Ty::F64 })
        },
        Inst::FloatCompare { cc, a, b } => {
            let x = match pass.typed(*a, Ty::F64, Ghost(o), Ghost(params)) {
                Some(x) => x,
                None => {
                    return None;
                },
            };
            let y = match pass.typed(*b, Ty::F64, Ghost(o), Ghost(params)) {
                Some(x) => x,
                None => {
                    return None;
                },
            };
            let number = clif::fcmp(builder, *cc, x, y);
            let own = Number { main: number, aux: None };
            proof {
                names_stay(pass.numbers@, own);
                value_taken(before, built(*builder), (Op::FloatCompare { cc: *cc, a: x, b: y }), number);
            }
            Some(Computed { number: own, ty: Ty::I8 })
        },
        Inst::Convert { op, from, to, a } => {
            if !(can_convert(*op, *from, *to)) {
                return None;
            }
            let x = match pass.typed(*a, *from, Ghost(o), Ghost(params)) {
                Some(x) => x,
                None => {
                    return None;
                },
            };
            let number = emit_convert(builder, *op, *to, x);
            let own = Number { main: number, aux: None };
            proof {
                names_stay(pass.numbers@, own);
                value_taken(before, built(*builder), (Op::Convert { op: *op, to: *to, a: x }), number);
            }
            Some(Computed { number: own, ty: *to })
        },
        Inst::Select { ty, cond, a, b } => {
            let (c, kind) = match pass.value(*cond, Ghost(o), Ghost(params)) {
                Some(x) => x,
                None => {
                    return None;
                },
            };
            if !(int_ty(kind)) {
                return None;
            }
            let x = match pass.typed(*a, *ty, Ghost(o), Ghost(params)) {
                Some(x) => x,
                None => {
                    return None;
                },
            };
            let y = match pass.typed(*b, *ty, Ghost(o), Ghost(params)) {
                Some(x) => x,
                None => {
                    return None;
                },
            };
            let number = clif::select(builder, c, x, y);
            let own = Number { main: number, aux: None };
            proof {
                names_stay(pass.numbers@, own);
                value_taken(before, built(*builder), (Op::Select { cond: c, a: x, b: y }), number);
            }
            Some(Computed { number: own, ty: *ty })
        },
        _ => None,
    }
}

/// Memory, stack slots, calls and variables.
#[verifier::rlimit(60)]
fn compute_memory(builder: &mut FunctionBuilder<'_>, pass: &Pass, inst: &Inst, Ghost(params): Ghost<Seq<Passed>>) -> (r: Option<Computed>)
    requires
        pass.linked(outline(built(*old(builder))), params),
        pass.open,
        compute_memory_takes(*inst),
    ensures
        interface(*final(builder)) == interface(*old(builder)),
        computed(*pass, *inst, built(*old(builder)), built(*final(builder)), r),
{
    let ghost before = built(*builder);
    let ghost o = outline(before);
    match inst {
        Inst::Load { ty, base, offset } => {
            let x = match pass.typed(*base, Ty::I64, Ghost(o), Ghost(params)) {
                Some(x) => x,
                None => {
                    return None;
                },
            };
            let number = clif::load(builder, *ty, x, *offset);
            let own = Number { main: number, aux: None };
            proof {
                names_stay(pass.numbers@, own);
                value_taken(before, built(*builder), (Op::Load { ty: *ty, base: x, offset: *offset }), number);
            }
            Some(Computed { number: own, ty: *ty })
        },
        Inst::SlotAddr { slot, offset } => {
            let x = match pass.slot(*slot, Ghost(o), Ghost(params)) {
                Some(x) => x,
                None => {
                    return None;
                },
            };
            let number = clif::stack_addr(builder, x, *offset);
            let own = Number { main: number, aux: None };
            proof {
                names_stay(pass.numbers@, own);
                value_taken(before, built(*builder), (Op::SlotAddr { slot: x, offset: *offset }), number);
            }
            Some(Computed { number: own, ty: Ty::I64 })
        },
        Inst::SlotLoad { ty, slot, offset } => {
            let x = match pass.slot(*slot, Ghost(o), Ghost(params)) {
                Some(x) => x,
                None => {
                    return None;
                },
            };
            let number = clif::stack_load(builder, *ty, x, *offset);
            let own = Number { main: number, aux: None };
            proof {
                names_stay(pass.numbers@, own);
                value_taken(before, built(*builder), (Op::SlotLoad { ty: *ty, slot: x, offset: *offset }), number);
            }
            Some(Computed { number: own, ty: *ty })
        },
        Inst::Use { var, ty } => {
            let (x, known) = match pass.variable(*var, Ghost(o), Ghost(params)) {
                Some(x) => x,
                None => {
                    return None;
                },
            };
            if !(known == *ty) {
                return None;
            }
            let number = clif::use_var(builder, x);
            let own = Number { main: number, aux: None };
            proof {
                names_stay(pass.numbers@, own);
                value_taken(before, built(*builder), (Op::UseVar { var: x }), number);
            }
            Some(Computed { number: own, ty: *ty })
        },
        Inst::Call { signature, ty, callee, args } => {
            if *signature >= pass.entities.len() {
                return None;
            }
            let (types, result) = match &pass.entities[*signature] {
                Entity::Signature(types, result) => (types, *result),
                _ => {
                    return None;
                },
            };
            assert(pass.entity_linked(o, *signature as int));
            match result {
                Some(found) => {
                    if found != *ty {
                        return None;
                    }
                },
                None => {
                    return None;
                },
            }
            let address = match pass.typed(*callee, Ty::I64, Ghost(o), Ghost(params)) {
                Some(x) => x,
                None => {
                    return None;
                },
            };
            let list = match pass.arguments(args, types, Ghost(o), Ghost(params)) {
                Some(list) => list,
                None => {
                    return None;
                },
            };
            let target = pass.numbers[*signature].main;
            let number = clif::call_indirect(builder, target, address, &list);
            let own = Number { main: number, aux: None };
            proof {
                let taken = Op::Call { signature: target, callee: address, args: list@ };
                names_stay(pass.numbers@, own);
                value_taken(before, built(*builder), taken, number);
            }
            Some(Computed { number: own, ty: *ty })
        },
        _ => None,
    }
}

fn compute(builder: &mut FunctionBuilder<'_>, pass: &Pass, inst: &Inst, Ghost(params): Ghost<Seq<Passed>>) -> (r: Option<Computed>)
    requires
        pass.linked(outline(built(*old(builder))), params),
        pass.open,
        is_computation(*inst),
    ensures
        interface(*final(builder)) == interface(*old(builder)),
        computed(*pass, *inst, built(*old(builder)), built(*final(builder)), r),
{
    match inst {
        Inst::Const { .. } | Inst::FloatConst { .. } | Inst::Binary { .. } | Inst::Unary { .. } | Inst::Compare { .. } => compute_int(
            builder,
            pass,
            inst,
            Ghost(params),
        ),
        Inst::BinaryImm { .. } | Inst::CompareImm { .. } | Inst::Wrapped { .. } => compute_checked(
            builder,
            pass,
            inst,
            Ghost(params),
        ),
        Inst::FloatBinary { .. } | Inst::FloatUnary { .. } | Inst::FloatCompare { .. } | Inst::Convert { .. }
        | Inst::Select { .. } => compute_float(builder, pass, inst, Ghost(params)),
        _ => compute_memory(builder, pass, inst, Ghost(params)),
    }
}

fn computation(inst: &Inst) -> (r: bool)
    ensures
        r == is_computation(*inst),
{
    match inst {
        Inst::Const { .. } | Inst::FloatConst { .. } | Inst::Binary { .. } | Inst::BinaryImm { .. } | Inst::Unary { .. }
        | Inst::Wrapped { .. } | Inst::Compare { .. } | Inst::CompareImm { .. } | Inst::FloatBinary { .. }
        | Inst::FloatUnary { .. } | Inst::FloatCompare { .. } | Inst::Convert { .. } | Inst::Select { .. }
        | Inst::Load { .. } | Inst::SlotAddr { .. } | Inst::SlotLoad { .. } | Inst::Call { .. } | Inst::Use { .. } => true,
        _ => false,
    }
}

/// The builder knows what it knew, and maybe more.
spec fn grows(a: Outline, b: Outline) -> bool {
    &&& forall|v: u32| #[trigger] a.ty(v) is Some ==> b.ty(v) == a.ty(v)
    &&& forall|v: u32| #[trigger]
        a.variables.dom().contains(v) ==> b.variables.dom().contains(v) && b.variables[v] == a.variables[v]
    &&& forall|v: u32| #[trigger] a.slots.contains(v) ==> b.slots.contains(v)
    &&& forall|v: u32| #[trigger]
        a.signatures.dom().contains(v) ==> b.signatures.dom().contains(v) && b.signatures[v] == a.signatures[v]
    &&& forall|v: u32| #[trigger] a.blocks.dom().contains(v) ==> b.blocks.dom().contains(v) && b.blocks[v] == a.blocks[v]
}

/// A position was added behind the others.
spec fn one_more(p0: Pass, p1: Pass) -> bool {
    let n = p0.entities@.len() as int;
    &&& p1.entities@ == p0.entities@.push(p1.entities@[n])
    &&& p1.numbers@ == p0.numbers@.push(p1.numbers@[n])
    &&& p1.params == p0.params
    &&& p1.taken <= p1.entities@.len()
}

proof fn link_pushed(p0: Pass, p1: Pass, a: Outline, b: Outline, params: Seq<Passed>)
    requires
        p0.linked(a, params),
        one_more(p0, p1),
        p1.started@ == p0.started@.push(false),
        grows(a, b),
        p1.open ==> b.current == Some(p1.current),
        p1.open && p1.pristine ==> b.pristine,
        p1.open && p1.pristine && !p1.entry ==> b.taken == p1.taken,
        b.room(2),
        b.named == p1.variables,
        !p1.open ==> b.current is None,
        p1.variables <= p1.entities@.len(),
        forall|v: u32| #[trigger] b.variables.dom().contains(v) ==> v < p1.variables,
        p1.entity_linked(b, p0.entities@.len() as int),
        p1.entities@[p0.entities@.len() as int] is Block ==> !a.blocks.dom().contains(
            p1.numbers@[p0.entities@.len() as int].main,
        ),
    ensures
        p1.linked(b, params),
{
    let n = p0.entities@.len() as int;
    assert forall|p: int| 0 <= p < p1.entities@.len() implies #[trigger] p1.entity_linked(b, p) by {
        if p < n {
            assert(p0.entity_linked(a, p));
        }
    }
    assert forall|p: int, q: int|
        0 <= p < q < p1.entities@.len() && #[trigger] p1.entities@[p] is Block && #[trigger] p1.entities@[q] is Block
            implies p1.numbers@[p].main != p1.numbers@[q].main by {
        assert(p0.entity_linked(a, p));
        assert(p0.entities@[p] is Block);
        if q < n {
            assert(p0.entities@[q] is Block);
        }
    }
    assert forall|k: int| 0 <= k < params.len() implies #[trigger] b.ty(p1.params@[k]) == Some(passed_ty(params[k])) by {
        assert(a.ty(p0.params@[k]) == Some(passed_ty(params[k])));
    }
}

/// The pass is behind the first `i` instructions, and the builder was given what
/// stands for them.
spec fn progress(pass: Pass, insts: Seq<Inst>, i: int, steps: Seq<Built>, params: Seq<Passed>, prefix: Seq<Built>) -> bool {
    &&& pass.entities@.len() == i
    &&& pass.linked(outline(steps), params)
    &&& scan_all(insts, i as nat, params) == Some(pass.scan())
    &&& steps == prefix + render_all(insts, i as nat, pass.numbers@)
    &&& spent(insts, i, outline(steps), params)
    &&& pass.variables == variables_in(insts, i as nat)
    &&& placed(pass, insts, i)
    &&& forall|k: int| 0 <= k < i ==> #[trigger] wired(insts, k, pass.numbers@, pass.params@)
}

/// The pass knows the block that goes on.
spec fn placed(pass: Pass, insts: Seq<Inst>, i: int) -> bool {
    match block_of(insts, i as nat) {
        Some(block) => !pass.entry && block < i && (pass.open ==> pass.current == pass.numbers@[block as int].main),
        None => pass.entry,
    }
}

proof fn progressed(
    p0: Pass,
    p1: Pass,
    insts: Seq<Inst>,
    i: int,
    before: Seq<Built>,
    after: Seq<Built>,
    params: Seq<Passed>,
    prefix: Seq<Built>,
)
    requires
        0 <= i < insts.len(),
        progress(p0, insts, i, before, params, prefix),
        one_more(p0, p1),
        p1.linked(outline(after), params),
        scan_step(p0.scan(), insts, i, params) == Some(p1.scan()),
        after == before + render(insts[i], block_of(insts, i as nat), i, p1.numbers@),
        spent(insts, i + 1, outline(after), params),
        p1.variables == p0.variables + (if insts[i] is NewVariable {
            1int
        } else {
            0
        }),
        match insts[i] {
            Inst::Switch { block } | Inst::Enter { block } => block < i && !p1.entry && p1.current
                == p0.numbers@[block as int].main,
            _ => p1.entry == p0.entry && p1.current == p0.current && (p1.open ==> p0.open),
        },
        wired(insts, i, p1.numbers@, p1.params@),
    ensures
        progress(p1, insts, i + 1, after, params, prefix),
{
    rendered_once(insts, i as nat, p0.numbers@, p1.numbers@);
    let done = render_all(insts, i as nat, p0.numbers@);
    let last = render(insts[i], block_of(insts, i as nat), i, p1.numbers@);
    assert forall|k: int| 0 <= k < i + 1 implies #[trigger] wired(insts, k, p1.numbers@, p1.params@) by {
        if k < i {
            assert(wired(insts, k, p0.numbers@, p0.params@));
        }
    }
    assert(placed(p1, insts, i + 1));
    assert(render_all(insts, (i + 1) as nat, p1.numbers@) == done + last);
    assert(prefix + (done + last) =~= (prefix + done) + last);
}

/// The scan behind a position that was added.
proof fn scan_pushed(p0: Pass, p1: Pass)
    requires
        one_more(p0, p1),
        p0.started@.len() == p0.entities@.len(),
        p1.started@ == p0.started@.push(false),
    ensures
        p1.scan().known == p0.scan().known.push(known_of(p1.entities@[p0.entities@.len() as int])),
        p1.scan().started == p0.scan().started,
{
    assert(p1.scan().known =~= p0.scan().known.push(known_of(p1.entities@[p0.entities@.len() as int])));
    assert(p1.scan().started =~= p0.scan().started);
}

fn note(pass: &mut Pass, entity: Entity, number: Number)
    requires
        old(pass).taken <= old(pass).entities@.len(),
        old(pass).entities@.len() == old(pass).numbers@.len(),
    ensures
        one_more(*old(pass), *final(pass)),
        final(pass).entities@[old(pass).entities@.len() as int] == entity,
        final(pass).numbers@[old(pass).entities@.len() as int] == number,
        final(pass).started@ == old(pass).started@.push(false),
        final(pass).current == old(pass).current,
        final(pass).open == old(pass).open,
        final(pass).pristine == old(pass).pristine,
        final(pass).entry == old(pass).entry,
        final(pass).taken == old(pass).taken,
        final(pass).variables == old(pass).variables,
{
    pass.entities.push(entity);
    pass.numbers.push(number);
    pass.started.push(false);
}

/// A computation.
fn step_computation(
    builder: &mut FunctionBuilder<'_>,
    pass: &mut Pass,
    insts: &Vec<Inst>,
    i: usize,
    Ghost(params): Ghost<Seq<Passed>>,
    Ghost(prefix): Ghost<Seq<Built>>,
) -> (r: bool)
    requires
        i < insts@.len(),
        sized(insts@, params),
        is_computation(insts@[i as int]),
        progress(*old(pass), insts@, i as int, built(*old(builder)), params, prefix),
    ensures
        final(pass).params@ == old(pass).params@,
        interface(*final(builder)) == interface(*old(builder)),
        r == (scan_step(old(pass).scan(), insts@, i as int, params) is Some),
        r ==> progress(*final(pass), insts@, i + 1, built(*final(builder)), params, prefix) && flags_known(
            *final(pass),
            insts@,
            outline(built(*final(builder))),
        ),
{
    let ghost p0 = *pass;
    let ghost before = built(*builder);
    if !pass.open {
        return false;
    }
    let inst = &insts[i];
    match compute(builder, pass, inst, Ghost(params)) {
        None => false,
        Some(c) => {
            note(pass, Entity::Value(c.ty), c.number);
            pass.pristine = false;
            proof {
                let after = built(*builder);
                scan_pushed(p0, *pass);
                assert(pass.numbers@ =~= p0.numbers@.push(c.number));
                room_left(insts@, i + 1, outline(after), params);
                link_pushed(p0, *pass, outline(before), outline(after), params);
                progressed(p0, *pass, insts@, i as int, before, after, params, prefix);
            }
            true
        },
    }
}

proof fn statement_taken(before: Seq<Built>, after: Seq<Built>, op: Op)
    requires
        took(before, after, op, 0),
        op is Store || op is SlotStore || op is DefVar || op is Branch || op is Jump || op is Return,
    ensures
        grows(outline(before), outline(after)),
        steady(outline(before), outline(after)),
        outline(after).variables == outline(before).variables,
        outline(after).current == (if op is Store || op is SlotStore || op is DefVar {
            outline(before).current
        } else {
            None
        }),
        after == before + seq![plainly(op)],
{
    outline_of_push(before, plainly(op));
    assert(after =~= before + seq![plainly(op)]);
}

/// Hands over a statement. Nothing where it does not belong there; else whether
/// the block goes on.
#[verifier::rlimit(60)]
fn state(builder: &mut FunctionBuilder<'_>, pass: &Pass, inst: &Inst, Ghost(params): Ghost<Seq<Passed>>) -> (r: Option<bool>)
    requires
        pass.linked(outline(built(*old(builder))), params),
        pass.open,
    ensures
        interface(*final(builder)) == interface(*old(builder)),
        ({
            let before = built(*old(builder));
            let after = built(*final(builder));
            let own = Number { main: 0, aux: None };
            match r {
                None => !stands(pass.scan(), *inst),
                Some(open) => {
                    &&& stands(pass.scan(), *inst)
                    &&& open == (inst is Store || inst is SlotStore || inst is Def)
                    &&& grows(outline(before), outline(after))
                    &&& steady(outline(before), outline(after))
                    &&& outline(after).variables == outline(before).variables
                    &&& outline(after).current == (if open {
                        outline(before).current
                    } else {
                        None
                    })
                    &&& after == before + render(
                        *inst,
                        None,
                        pass.numbers@.len() as int,
                        pass.numbers@.push(own),
                    )
                },
            }
        }),
{
    let ghost before = built(*builder);
    let ghost o = outline(before);
    proof {
        names_stay(pass.numbers@, Number { main: 0, aux: None });
    }
    match inst {
        Inst::Store { ty, value, base, offset } => {
            match (pass.typed(*value, *ty, Ghost(o), Ghost(params)), pass.typed(*base, Ty::I64, Ghost(o), Ghost(params))) {
                (Some(x), Some(y)) => {
                    clif::store(builder, x, y, *offset);
                    proof {
                        statement_taken(before, built(*builder), (Op::Store { value: x, base: y, offset: *offset }));
                    }
                    Some(true)
                },
                _ => None,
            }
        },
        Inst::SlotStore { ty, value, slot, offset } => {
            match (pass.typed(*value, *ty, Ghost(o), Ghost(params)), pass.slot(*slot, Ghost(o), Ghost(params))) {
                (Some(x), Some(y)) => {
                    clif::stack_store(builder, x, y, *offset);
                    proof {
                        statement_taken(before, built(*builder), (Op::SlotStore { value: x, slot: y, offset: *offset }));
                    }
                    Some(true)
                },
                _ => None,
            }
        },
        Inst::Def { var, value } => {
            match pass.variable(*var, Ghost(o), Ghost(params)) {
                Some((v, ty)) => match pass.typed(*value, ty, Ghost(o), Ghost(params)) {
                    Some(x) => {
                        clif::def_var(builder, v, x);
                        proof {
                            statement_taken(before, built(*builder), (Op::DefVar { var: v, value: x }));
                        }
                        Some(true)
                    },
                    None => None,
                },
                None => None,
            }
        },
        Inst::Jump { block, args } => {
            match (pass.block(*block, Ghost(o), Ghost(params)), pass.values(args, Ghost(o), Ghost(params))) {
                (Some(to), Some(list)) => {
                    clif::jump(builder, to, &list);
                    proof {
                        statement_taken(before, built(*builder), (Op::Jump { block: to, args: list@ }));
                    }
                    Some(false)
                },
                _ => None,
            }
        },
        Inst::Return { values } => {
            match pass.values(values, Ghost(o), Ghost(params)) {
                Some(list) => {
                    clif::return_values(builder, &list);
                    proof {
                        statement_taken(before, built(*builder), (Op::Return { values: list@ }));
                    }
                    Some(false)
                },
                None => None,
            }
        },
        Inst::Branch { cond, then_block, then_args, else_block, else_args } => {
            let (c, ty) = match pass.value(*cond, Ghost(o), Ghost(params)) {
                Some(x) => x,
                None => {
                    return None;
                },
            };
            if !int_ty(ty) {
                return None;
            }
            match (pass.block(*then_block, Ghost(o), Ghost(params)), pass.block(*else_block, Ghost(o), Ghost(params))) {
                (Some(x), Some(y)) => match (
                    pass.values(then_args, Ghost(o), Ghost(params)),
                    pass.values(else_args, Ghost(o), Ghost(params)),
                ) {
                    (Some(left), Some(right)) => {
                        clif::brif(builder, c, x, &left, y, &right);
                        proof {
                            statement_taken(
                                before,
                                built(*builder),
                                (Op::Branch {
                                    cond: c,
                                    then_block: x,
                                    then_args: left@,
                                    else_block: y,
                                    else_args: right@,
                                }),
                            );
                        }
                        Some(false)
                    },
                    _ => None,
                },
                _ => None,
            }
        },
        _ => None,
    }
}

/// A statement whose operands are in order.
spec fn stands(scan: Scan, inst: Inst) -> bool {
    match inst {
        Inst::Store { ty, value, base, .. } => scan.ty(value) == Some(ty) && scan.ty(base) == Some(Ty::I64),
        Inst::SlotStore { ty, value, slot, .. } => scan.ty(value) == Some(ty) && scan.slot(slot),
        Inst::Def { var, value } => scan.variable(var) is Some && scan.ty(value) == scan.variable(var),
        Inst::Branch { cond, then_block, then_args, else_block, else_args } => scan.ty(cond) is Some && is_int(
            scan.ty(cond)->Some_0,
        ) && scan.block(then_block) && scan.block(else_block) && scan.all_values(then_args@) && scan.all_values(
            else_args@,
        ),
        Inst::Jump { block, args } => scan.block(block) && scan.all_values(args@),
        Inst::Return { values } => scan.all_values(values@),
        _ => false,
    }
}

spec fn is_statement(inst: Inst) -> bool {
    inst is Store || inst is SlotStore || inst is Def || inst is Branch || inst is Jump || inst is Return
}

fn step_statement(
    builder: &mut FunctionBuilder<'_>,
    pass: &mut Pass,
    insts: &Vec<Inst>,
    i: usize,
    Ghost(params): Ghost<Seq<Passed>>,
    Ghost(prefix): Ghost<Seq<Built>>,
) -> (r: bool)
    requires
        i < insts@.len(),
        sized(insts@, params),
        is_statement(insts@[i as int]),
        progress(*old(pass), insts@, i as int, built(*old(builder)), params, prefix),
    ensures
        final(pass).params@ == old(pass).params@,
        interface(*final(builder)) == interface(*old(builder)),
        r == (scan_step(old(pass).scan(), insts@, i as int, params) is Some),
        r ==> progress(*final(pass), insts@, i + 1, built(*final(builder)), params, prefix),
{
    let ghost p0 = *pass;
    let ghost before = built(*builder);
    if !pass.open {
        return false;
    }
    match state(builder, pass, &insts[i], Ghost(params)) {
        None => false,
        Some(open) => {
            let own = Number { main: 0, aux: None };
            note(pass, Entity::Nothing, own);
            pass.pristine = false;
            pass.open = open;
            proof {
                let after = built(*builder);
                scan_pushed(p0, *pass);
                assert(pass.numbers@ =~= p0.numbers@.push(own));
                room_left(insts@, i + 1, outline(after), params);
                link_pushed(p0, *pass, outline(before), outline(after), params);
                progressed(p0, *pass, insts@, i as int, before, after, params, prefix);
            }
            true
        },
    }
}

spec fn is_declaration(inst: Inst) -> bool {
    inst is NewBlock || inst is NewVariable || inst is NewSlot || inst is NewSignature
}

/// Something that code can name: a block, a variable, a stack slot or a signature.
#[verifier::rlimit(60)]
fn step_declaration(
    builder: &mut FunctionBuilder<'_>,
    pass: &mut Pass,
    insts: &Vec<Inst>,
    i: usize,
    Ghost(params): Ghost<Seq<Passed>>,
    Ghost(prefix): Ghost<Seq<Built>>,
)
    requires
        i < insts@.len(),
        sized(insts@, params),
        is_declaration(insts@[i as int]),
        progress(*old(pass), insts@, i as int, built(*old(builder)), params, prefix),
    ensures
        final(pass).params@ == old(pass).params@,
        interface(*final(builder)) == interface(*old(builder)),
        scan_step(old(pass).scan(), insts@, i as int, params) is Some,
        progress(*final(pass), insts@, i + 1, built(*final(builder)), params, prefix),
{
    let ghost p0 = *pass;
    let ghost before = built(*builder);
    let ghost o = outline(before);
    match &insts[i] {
        Inst::NewBlock { cold } => {
            let block = clif::create_block(builder);
            proof {
                outline_of_push(before, Built { op: Op::CreateBlock, result: block });
                assert(built(*builder) =~= before + seq![(Built { op: Op::CreateBlock, result: block })]);
            }
            if *cold {
                let ghost middle = built(*builder);
                proof {
                    room_left(insts@, i + 1, outline(middle), params);
                }
                clif::set_cold_block(builder, block);
                proof {
                    outline_of_push(middle, Built { op: Op::SetCold { block }, result: 0 });
                    assert(built(*builder) =~= before + seq![
                        (Built { op: Op::CreateBlock, result: block }),
                        plainly(Op::SetCold { block }),
                    ]);
                }
            }
            note(pass, Entity::Block, Number { main: block, aux: None });
        },
        Inst::NewVariable { ty } => {
            let var = pass.variables;
            proof {
                counted_up(insts@, (i + 1) as nat, insts@.len());
            }
            clif::declare_var(builder, var, *ty);
            proof {
                outline_of_push(before, Built { op: Op::DeclareVar { var, ty: *ty }, result: 0 });
                assert(built(*builder) =~= before + seq![plainly(Op::DeclareVar { var, ty: *ty })]);
            }
            pass.variables = var + 1;
            note(pass, Entity::Variable(*ty), Number { main: var, aux: None });
        },
        Inst::NewSlot { size, align_shift } => {
            let slot = clif::create_slot(builder, *size, *align_shift);
            proof {
                let op = Op::CreateSlot { size: *size, align_shift: *align_shift };
                outline_of_push(before, Built { op, result: slot });
                assert(built(*builder) =~= before + seq![(Built { op, result: slot })]);
            }
            note(pass, Entity::Slot, Number { main: slot, aux: None });
        },
        Inst::NewSignature { params: types, result } => {
            let mut results: Vec<Ty> = Vec::new();
            if let Some(ty) = result {
                results.push(*ty);
            }
            assert(results@ =~= results_of(*result));
            let signature = clif::import_signature(builder, types, &results);
            proof {
                let op = Op::ImportSignature { params: types@, results: results@ };
                outline_of_push(before, Built { op, result: signature });
                assert(built(*builder) =~= before + seq![(Built { op, result: signature })]);
            }
            note(pass, Entity::Signature(copy_types(types), *result), Number { main: signature, aux: None });
        },
        _ => {},
    }
    proof {
        let after = built(*builder);
        scan_pushed(p0, *pass);
        room_left(insts@, i + 1, outline(after), params);
        link_pushed(p0, *pass, o, outline(after), params);
        progressed(p0, *pass, insts@, i as int, before, after, params, prefix);
    }
}

/// The start of a block, one of its parameters, or the flag of the computation
/// before.
#[verifier::rlimit(60)]
fn step_rest(
    builder: &mut FunctionBuilder<'_>,
    pass: &mut Pass,
    insts: &Vec<Inst>,
    i: usize,
    Ghost(params): Ghost<Seq<Passed>>,
    types: &Vec<Passed>,
    Ghost(prefix): Ghost<Seq<Built>>,
) -> (r: bool)
    requires
        i < insts@.len(),
        sized(insts@, params),
        types@ == params,
        insts@[i as int] is Param || insts@[i as int] is Overflowed,
        progress(*old(pass), insts@, i as int, built(*old(builder)), params, prefix),
        flags_known(*old(pass), insts@, outline(built(*old(builder)))),
    ensures
        final(pass).params@ == old(pass).params@,
        interface(*final(builder)) == interface(*old(builder)),
        r == (scan_step(old(pass).scan(), insts@, i as int, params) is Some),
        r ==> progress(*final(pass), insts@, i + 1, built(*final(builder)), params, prefix),
{
    let ghost p0 = *pass;
    let ghost before = built(*builder);
    let ghost o = outline(before);
    if i >= insts.len() || !pass.open {
        return false;
    }
    let number;
    let found;
    match &insts[i] {
        Inst::Param { index, ty } => {
            if !pass.pristine {
                return false;
            }
            found = *ty;
            if pass.entry {
                if *index >= types.len() {
                    return false;
                }
                let passed = match types[*index] {
                    Passed::Plain(ty) => ty,
                    Passed::StructReturn => Ty::I64,
                };
                if passed != *ty {
                    return false;
                }
                number = Number { main: pass.params[*index], aux: None };
                assert(o.ty(p0.params@[*index as int]) == Some(passed_ty(params[*index as int])));
                assert(before =~= before + Seq::<Built>::empty());
            } else {
                if *index != pass.taken || pass.taken >= MOST_NAMES as usize {
                    return false;
                }
                let block = pass.current;
                let value = clif::append_block_param(builder, block, *ty);
                number = Number { main: value, aux: None };
                let next: usize = i + 1;
                assert(p0.taken < next);
                pass.taken = pass.taken + 1;
                proof {
                    let op = Op::BlockParam { block, ty: *ty };
                    outline_of_push(before, Built { op, result: value });
                    assert(built(*builder) =~= before + seq![(Built { op, result: value })]);
                }
            }
        },
        Inst::Overflowed { op, ty, a, b } => {
            found = Ty::I8;
            if i == 0 {
                return false;
            }
            let flag = match (&insts[i - 1], pass.numbers[i - 1].aux) {
                (Inst::Wrapped { op: op0, ty: ty0, a: a0, b: b0 }, Some(flag)) => {
                    if *op0 != *op || *ty0 != *ty || *a0 != *a || *b0 != *b {
                        return false;
                    }
                    flag
                },
                _ => {
                    return false;
                },
            };
            number = Number { main: flag, aux: None };
            pass.pristine = false;
            assert(before =~= before + Seq::<Built>::empty());
        },
        _ => {
            return false;
        },
    }
    let ghost p1 = *pass;
    pass.entities.push(Entity::Value(found));
    pass.numbers.push(number);
    pass.started.push(false);
    proof {
        let after = built(*builder);
        assert(one_more(p0, *pass));
        scan_pushed(p0, *pass);
        assert(pass.entity_linked(outline(after), i as int));
        room_left(insts@, i + 1, outline(after), params);
        link_pushed(p0, *pass, o, outline(after), params);
        progressed(p0, *pass, insts@, i as int, before, after, params, prefix);
    }
    true
}

/// The flag that goes with the computation before is a value.
spec fn flags_known(pass: Pass, insts: Seq<Inst>, o: Outline) -> bool {
    let i = pass.entities@.len();
    i > 0 && i <= insts.len() && insts[i - 1] is Wrapped ==> (pass.numbers@[i - 1].aux matches Some(flag) && o.ty(flag)
        == Some(Ty::I8))
}

fn step_switch(
    builder: &mut FunctionBuilder<'_>,
    pass: &mut Pass,
    insts: &Vec<Inst>,
    i: usize,
    Ghost(params): Ghost<Seq<Passed>>,
    Ghost(prefix): Ghost<Seq<Built>>,
) -> (r: bool)
    requires
        i < insts@.len(),
        sized(insts@, params),
        insts@[i as int] is Switch || insts@[i as int] is Enter,
        progress(*old(pass), insts@, i as int, built(*old(builder)), params, prefix),
    ensures
        final(pass).params@ == old(pass).params@,
        interface(*final(builder)) == interface(*old(builder)),
        r == (scan_step(old(pass).scan(), insts@, i as int, params) is Some),
        r ==> progress(*final(pass), insts@, i + 1, built(*final(builder)), params, prefix),
{
    let ghost p0 = *pass;
    let ghost before = built(*builder);
    let ghost o = outline(before);
    let target = match &insts[i] {
        Inst::Switch { block } => Some(*block),
        Inst::Enter { block } => Some(*block),
        _ => None,
    };
    if let Some(block) = target {
        if pass.open {
            return false;
        }
        let number = match pass.block(block, Ghost(o), Ghost(params)) {
            Some(number) => number,
            None => {
                return false;
            },
        };
        if pass.started[block] {
            assert(p0.scan().started.contains(block as int));
            return false;
        }
        assert(!p0.scan().started.contains(block as int));
        clif::switch_to_block(builder, number);
        let own = Number { main: 0, aux: None };
        note(pass, Entity::Nothing, own);
        pass.started.set(block, true);
        pass.open = true;
        pass.pristine = true;
        pass.entry = false;
        pass.taken = 0;
        pass.current = number;
        proof {
            let after = built(*builder);
            let op = Op::SwitchTo { block: number };
            outline_of_push(before, Built { op, result: 0 });
            let b = outline(after);
            assert(after =~= before + seq![plainly(op)]);
            assert(pass.numbers@ =~= p0.numbers@.push(own));
            names_stay(p0.numbers@, own);
            assert(pass.scan().known =~= p0.scan().known.push(Known::Nothing));
            assert(pass.scan().started =~= p0.scan().started.insert(block as int));
            room_left(insts@, i + 1, b, params);
            assert forall|p: int| 0 <= p < pass.entities@.len() implies #[trigger] pass.entity_linked(b, p) by {
                if p < i {
                    assert(p0.entity_linked(o, p));
                    if p0.entities@[p] is Block && p != block {
                        assert(p0.entities@[block as int] is Block);
                        if p < block {
                            assert(p0.numbers@[p].main != p0.numbers@[block as int].main);
                        } else {
                            assert(p0.numbers@[block as int].main != p0.numbers@[p].main);
                        }
                    }
                }
            }
            assert forall|p: int, q: int|
                0 <= p < q < pass.entities@.len() && #[trigger] pass.entities@[p] is Block
                    && #[trigger] pass.entities@[q] is Block implies pass.numbers@[p].main != pass.numbers@[q].main by {
                assert(p0.entities@[p] is Block);
                assert(p0.entities@[q] is Block);
            }
            assert forall|k: int| 0 <= k < params.len() implies #[trigger] b.ty(pass.params@[k]) == Some(
                passed_ty(params[k]),
            ) by {
                assert(o.ty(p0.params@[k]) == Some(passed_ty(params[k])));
            }
            progressed(p0, *pass, insts@, i as int, before, after, params, prefix);
        }
        return true;
    }
    false
}

fn statement(inst: &Inst) -> (r: bool)
    ensures
        r == is_statement(*inst),
{
    matches!(
        inst,
        Inst::Store { .. } | Inst::SlotStore { .. } | Inst::Def { .. } | Inst::Branch { .. } | Inst::Jump { .. }
            | Inst::Return { .. }
    )
}

fn starts_block(inst: &Inst) -> (r: bool)
    ensures
        r == (inst is Switch || inst is Enter),
{
    matches!(inst, Inst::Switch { .. } | Inst::Enter { .. })
}

fn declaration(inst: &Inst) -> (r: bool)
    ensures
        r == is_declaration(*inst),
{
    matches!(inst, Inst::NewBlock { .. } | Inst::NewVariable { .. } | Inst::NewSlot { .. } | Inst::NewSignature { .. })
}

/// What the builder is given before the code, and what it answers: the entry
/// block, with the function's parameters.
pub open spec fn entry_steps(entry: u32, params: Seq<Passed>, own: Seq<u32>) -> Seq<Built> {
    seq![(Built { op: Op::CreateBlock, result: entry }), plainly(Op::SwitchTo { block: entry })] + Seq::new(
        params.len(),
        |k: int| (Built { op: Op::BlockParam { block: entry, ty: passed_ty(params[k]) }, result: own[k] }),
    )
}

/// The builder was given the code, and nothing else; then its blocks were
/// sealed. What it answered for an instruction is what the others use for it.
pub open spec fn replayed(insts: Seq<Inst>, params: Seq<Passed>, steps: Seq<Built>) -> bool {
    exists|entry: u32, own: Seq<u32>, numbers: Seq<Number>|
        {
            &&& own.len() == params.len()
            &&& numbers.len() == insts.len()
            &&& steps == #[trigger] entry_steps(entry, params, own) + #[trigger] render_all(insts, insts.len(), numbers)
                + seq![plainly(Op::SealAll)]
            &&& forall|k: int| 0 <= k < insts.len() ==> #[trigger] wired(insts, k, numbers, own)
        }
}

/// Makes the entry block.
fn enter(builder: &mut FunctionBuilder<'_>, params: &Vec<Passed>) -> (r: Pass)
    requires
        built(*old(builder)).len() == 0,
        params@.len() <= MOST_NAMES,
        2 * (params@.len() + 4) + merged(1, 0) < MOST_VALUES,
    ensures
        interface(*final(builder)) == interface(*old(builder)),
        progress(
            r,
            Seq::empty(),
            0,
            built(*final(builder)),
            params@,
            entry_steps(r.current, params@, r.params@),
        ),
        r.scan() == first_scan(),
        r.numbers@.len() == 0,
{
    let ghost s0 = built(*builder);
    let entry = clif::create_block(builder);
    let ghost s1 = built(*builder);
    proof {
        outline_of_push(s0, Built { op: Op::CreateBlock, result: entry });
        assert(s0 =~= Seq::<Built>::empty());
    }
    clif::switch_to_block(builder, entry);
    let ghost s2 = built(*builder);
    proof {
        outline_of_push(s1, Built { op: Op::SwitchTo { block: entry }, result: 0 });
        assert(s2 =~= entry_steps(entry, params@.take(0), Seq::empty()));
    }
    let mut numbers: Vec<u32> = Vec::new();
    while numbers.len() < params.len()
        invariant
            interface(*builder) == interface(*old(builder)),
            numbers@.len() <= params@.len(),
            outline(built(*builder)).current == Some(entry),
            outline(built(*builder)).pristine,
            outline(built(*builder)).variables =~= Map::<u32, Ty>::empty(),
            outline(built(*builder)).taken == numbers@.len(),
            outline(built(*builder)).given == 2 + numbers@.len(),
            outline(built(*builder)).made == 1,
            outline(built(*builder)).named == 0,
            !outline(built(*builder)).sealed,
            params@.len() <= MOST_NAMES,
            2 * (params@.len() + 4) + merged(1, 0) < MOST_VALUES,
            forall|k: int|
                0 <= k < numbers@.len() ==> #[trigger] outline(built(*builder)).ty(numbers@[k]) == Some(
                    passed_ty(params@[k]),
                ),
            built(*builder) == entry_steps(entry, params@.take(numbers@.len() as int), numbers@),
        decreases params@.len() - numbers@.len(),
    {
        let ghost before = built(*builder);
        let ghost n0 = numbers@;
        let ty = match params[numbers.len()] {
            Passed::Plain(ty) => ty,
            Passed::StructReturn => Ty::I64,
        };
        let value = clif::append_block_param(builder, entry, ty);
        proof {
            let op = Op::BlockParam { block: entry, ty };
            outline_of_push(before, Built { op, result: value });
        }
        numbers.push(value);
        proof {
            assert(built(*builder) =~= entry_steps(entry, params@.take(n0.len() as int + 1), numbers@));
            assert forall|k: int| 0 <= k < numbers@.len() implies #[trigger] outline(built(*builder)).ty(numbers@[k])
                == Some(passed_ty(params@[k])) by {
                if k < n0.len() {
                    assert(outline(before).ty(n0[k]) == Some(passed_ty(params@[k])));
                }
            }
        }
    }
    let ghost own = numbers@;
    let pass = Pass {
        entities: Vec::new(),
        numbers: Vec::new(),
        started: Vec::new(),
        current: entry,
        open: true,
        pristine: true,
        entry: true,
        taken: 0,
        variables: 0,
        params: numbers,
    };
    proof {
        assert(pass.scan().known =~= Seq::<Known>::empty());
        assert(pass.scan().started =~= Set::<int>::empty());
        assert(params@.take(params@.len() as int) =~= params@);
        let steps = built(*builder);
        assert(steps =~= entry_steps(entry, params@, own) + Seq::<Built>::empty());
    }
    pass
}

fn has_numbers(insts: &Vec<Inst>, params: &Vec<Passed>) -> (r: bool)
    ensures
        r == sized(insts@, params@),
{
    let mut blocks: usize = 0;
    let mut variables: usize = 0;
    let mut i: usize = 0;
    while i < insts.len()
        invariant
            i <= insts@.len(),
            blocks == blocks_in(insts@, i as nat),
            variables == variables_in(insts@, i as nat),
            blocks <= i,
            variables <= i,
        decreases insts@.len() - i,
    {
        match &insts[i] {
            Inst::NewBlock { .. } => {
                blocks = blocks + 1;
            },
            Inst::NewVariable { .. } => {
                variables = variables + 1;
            },
            _ => {},
        }
        i = i + 1;
    }
    let n = insts.len();
    let ghost spread = (blocks + 2) * (variables + 1);
    proof {
        assert(spread >= 0) by (nonlinear_arith)
            requires
                spread == (blocks + 2) * (variables + 1),
                blocks >= 0,
                variables >= 0,
        ;
    }
    if params.len() > MOST_NAMES as usize || variables > MOST_NAMES as usize || n >= MOST_VALUES as usize {
        return false;
    }
    proof {
        assert(spread <= 0x1_0000_0001 * 0x8001) by (nonlinear_arith)
            requires
                spread == (blocks + 2) * (variables + 1),
                blocks <= 0xff_ffff,
                variables <= 0x8000,
        ;
    }
    let b = blocks as u64 + 2;
    let v = variables as u64 + 1;
    2 * (2 * (n as u64) + params.len() as u64 + 4) + 2 * (b * v) < MOST_VALUES as u64
}

/// Hands code to a builder that holds nothing, and seals its blocks.
pub fn replay(builder: &mut FunctionBuilder<'_>, code: &Code, params: &Vec<Passed>) -> (r: Result<
    (),
    CompileFailure,
>)
    requires
        built(*old(builder)).len() == 0,
    ensures
        interface(*final(builder)) == interface(*old(builder)),
        match r {
            Ok(_) => sized(code.insts@, params@) && assembles(code.insts@, params@) && replayed(
                code.insts@,
                params@,
                built(*final(builder)),
            ) && outline(built(*final(builder))).current is None && outline(built(*final(builder))).sealed,
            Err(CompileFailure::ResourceLimit) => !sized(code.insts@, params@),
            Err(e) => e == CompileFailure::InvalidArtifact && !assembles(code.insts@, params@),
        },
{
    let insts = &code.insts;
    if !has_numbers(insts, params) {
        return Err(CompileFailure::ResourceLimit);
    }
    proof {
        let b = blocks_in(insts@, insts@.len()) + 1;
        let v = variables_in(insts@, insts@.len());
        assert((1 + 1) * (0 + 1) <= (b + 1) * (v + 1)) by (nonlinear_arith)
            requires
                b >= 1,
                v >= 0,
        ;
    }
    let mut pass = enter(builder, params);
    proof {
        assert(render_all(insts@, 0, pass.numbers@) =~= render_all(Seq::<Inst>::empty(), 0, pass.numbers@));
    }
    let ghost own = pass.params@;
    let ghost prefix = entry_steps(pass.current, params@, own);
    let ghost entry = pass.current;
    let mut i: usize = 0;
    while i < insts.len()
        invariant
            interface(*builder) == interface(*old(builder)),
            i <= insts@.len(),
            insts == code.insts,
            sized(insts@, params@),
            prefix == entry_steps(entry, params@, own),
            pass.params@ == own,
            progress(pass, insts@, i as int, built(*builder), params@, prefix),
            flags_known(pass, insts@, outline(built(*builder))),
        decreases insts@.len() - i,
    {
        let ghost steps = built(*builder);
        let ok = if computation(&insts[i]) {
            step_computation(builder, &mut pass, insts, i, Ghost(params@), Ghost(prefix))
        } else if statement(&insts[i]) {
            step_statement(builder, &mut pass, insts, i, Ghost(params@), Ghost(prefix))
        } else if declaration(&insts[i]) {
            step_declaration(builder, &mut pass, insts, i, Ghost(params@), Ghost(prefix));
            true
        } else if starts_block(&insts[i]) {
            step_switch(builder, &mut pass, insts, i, Ghost(params@), Ghost(prefix))
        } else {
            step_rest(builder, &mut pass, insts, i, Ghost(params@), params, Ghost(prefix))
        };
        if !ok {
            proof {
                refused_early(insts@, params@, (i + 1) as nat, insts@.len());
            }
            return Err(CompileFailure::InvalidArtifact);
        }
        i = i + 1;
    }
    if pass.open {
        return Err(CompileFailure::InvalidArtifact);
    }
    let ghost steps = built(*builder);
    clif::seal_all_blocks(builder);
    proof {
        outline_of_push(steps, plainly(Op::SealAll));
        assert(built(*builder) =~= steps + seq![plainly(Op::SealAll)]);
        assert(built(*builder) == entry_steps(entry, params@, own) + render_all(insts@, insts@.len(), pass.numbers@)
            + seq![plainly(Op::SealAll)]);
    }
    Ok(())
}

/// Makes a function out of code: it holds what the code stands for, behind an
/// entry block with the parameters.
pub fn assemble(code: &Code, params: &Vec<Passed>, results: &Vec<Ty>, conv: CallConv) -> (r: Result<Function, CompileFailure>)
    ensures
        match r {
            Ok(function) => sized(code.insts@, params@) && assembles(code.insts@, params@) && replayed(
                code.insts@,
                params@,
                held(function),
            ) && declared(function) == (Interface { params: params@, results: results@, conv }),
            Err(CompileFailure::ResourceLimit) => !sized(code.insts@, params@),
            Err(e) => e == CompileFailure::InvalidArtifact && !assembles(code.insts@, params@),
        },
{
    let mut function = clif::new_function(conv, params, results);
    let mut context = clif::new_context();
    let mut builder = clif::begin(&mut function, &mut context);
    if let Err(e) = replay(&mut builder, code, params) {
        return Err(e);
    }
    Ok(clif::finish(builder))
}

} // verus!
