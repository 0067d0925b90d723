//! Machine-independent code: a list of instructions and what running it does.
//!
//! Instructions, blocks, variables, stack slots and signatures are all named by
//! their position in the list. Code is appended to the block that was switched
//! to last, and control moves forward: a branch names a block whose code is
//! appended later, or one that was left behind, where the run ends. A block that
//! control may come back to is entered: what is stated of the code behind it
//! holds in every state in which a run may take it up there.
use crate::typing::branched;
use crate::typing::overflowed;
use crate::typing::went;
use crate::typing::went_with;
use crate::typing::appended;
use crate::typing::written;
use vstd::prelude::*;

verus! {

#[derive(Clone, Copy, Debug, PartialEq, Eq, Structural)]
pub enum Ty {
    I8,
    I16,
    I32,
    I64,
    F64,
}

#[derive(Clone, Copy, Debug, PartialEq, Eq, Structural)]
pub enum BinaryOp {
    Add,
    Sub,
    Mul,
    And,
    Or,
    Xor,
    Shl,
    Sshr,
    Ushr,
    Sdiv,
    Srem,
}

#[derive(Clone, Copy, Debug, PartialEq, Eq, Structural)]
pub enum UnaryOp {
    Neg,
    Not,
}

#[derive(Clone, Copy, Debug, PartialEq, Eq, Structural)]
pub enum FloatOp {
    Add,
    Sub,
    Mul,
    Div,
}

#[derive(Clone, Copy, Debug, PartialEq, Eq, Structural)]
pub enum FloatUnaryOp {
    Neg,
    Trunc,
}

#[derive(Clone, Copy, Debug, PartialEq, Eq, Structural)]
pub enum IntCc {
    Equal,
    NotEqual,
    SignedLessThan,
    SignedLessThanOrEqual,
    SignedGreaterThan,
    SignedGreaterThanOrEqual,
    UnsignedLessThan,
}

#[derive(Clone, Copy, Debug, PartialEq, Eq, Structural)]
pub enum FloatCc {
    Equal,
    LessThan,
    LessThanOrEqual,
    GreaterThan,
    GreaterThanOrEqual,
}

#[derive(Clone, Copy, Debug, PartialEq, Eq, Structural)]
pub enum ConvertOp {
    /// Keeps the low bits.
    Reduce,
    SignExtend,
    ZeroExtend,
    /// Between an I64 and the double with the same bits.
    Bitcast,
    FloatFromSigned,
    FloatFromUnsigned,
    /// Truncates, and saturates at the bounds of the result.
    FloatToSigned,
}

#[derive(Debug)]
#[allow(inconsistent_fields)]
pub enum Inst {
    NewBlock { cold: bool },
    NewVariable { ty: Ty },
    NewSlot { size: u32, align_shift: u8 },
    NewSignature { params: Vec<Ty>, result: Option<Ty> },
    /// Starts the code of a block.
    Switch { block: usize },
    /// Starts the code of a block of the function that is compiled, or of a
    /// callee whose code stands in it. Control may come back to it.
    Enter { block: usize },
    /// The block's parameter at `index`; parameters come first in a block.
    Param { index: usize, ty: Ty },
    Const { ty: Ty, imm: i64 },
    /// The double with the given bits.
    FloatConst { bits: i64 },
    Binary { op: BinaryOp, ty: Ty, a: usize, b: usize },
    BinaryImm { op: BinaryOp, ty: Ty, a: usize, imm: i64 },
    Unary { op: UnaryOp, ty: Ty, a: usize },
    /// The sum, difference or product, wrapped.
    Wrapped { op: BinaryOp, ty: Ty, a: usize, b: usize },
    /// Whether the `Wrapped` right before it lost anything.
    Overflowed { op: BinaryOp, ty: Ty, a: usize, b: usize },
    Compare { cc: IntCc, ty: Ty, a: usize, b: usize },
    CompareImm { cc: IntCc, ty: Ty, a: usize, imm: i64 },
    FloatBinary { op: FloatOp, a: usize, b: usize },
    FloatUnary { op: FloatUnaryOp, a: usize },
    FloatCompare { cc: FloatCc, a: usize, b: usize },
    Convert { op: ConvertOp, from: Ty, to: Ty, a: usize },
    Select { ty: Ty, cond: usize, a: usize, b: usize },
    Load { ty: Ty, base: usize, offset: i32 },
    Store { ty: Ty, value: usize, base: usize, offset: i32 },
    SlotAddr { slot: usize, offset: i32 },
    SlotLoad { ty: Ty, slot: usize, offset: i32 },
    SlotStore { ty: Ty, value: usize, slot: usize, offset: i32 },
    Call { signature: usize, ty: Ty, callee: usize, args: Vec<usize> },
    Use { var: usize, ty: Ty },
    Def { var: usize, value: usize },
    Branch { cond: usize, then_block: usize, then_args: Vec<usize>, else_block: usize, else_args: Vec<usize> },
    Jump { block: usize, args: Vec<usize> },
    Return { values: Vec<usize> },
}

/// What code does that can be observed from outside.
#[allow(inconsistent_fields)]
pub enum Event {
    Load { ty: Ty, address: int, value: int },
    Store { ty: Ty, address: int, value: int },
    SlotAddr { slot: int, offset: int, address: int },
    SlotLoad { ty: Ty, slot: int, offset: int, value: int },
    SlotStore { ty: Ty, slot: int, offset: int, value: int },
    Call { callee: int, args: Seq<int>, result: int },
}

/// What code cannot know of its surroundings: what memory, calls and double
/// arithmetic answer. Everything stated of code holds in every world.
pub struct World {
    /// The parameters of the function.
    pub params: Seq<int>,
    /// The answer to the n-th observation.
    pub observe: spec_fn(int) -> int,
    pub float_binary: spec_fn(FloatOp, int, int) -> int,
    pub float_unary: spec_fn(FloatUnaryOp, int) -> int,
    pub float_holds: spec_fn(FloatCc, int, int) -> bool,
    pub float_of: spec_fn(int) -> int,
    pub integer_of: spec_fn(int) -> int,
    /// The block from which the code is followed, instead of from its start.
    pub resume: Option<Resume>,
}

/// Control comes to a block in this state.
pub struct Resume {
    pub block: int,
    pub state: State,
}

/// A running function. Integers are held signed; doubles by their bits.
pub struct State {
    pub vals: Map<int, int>,
    pub vars: Map<int, int>,
    pub incoming: Seq<int>,
    pub trace: Seq<Event>,
}

pub enum Status {
    /// Control is at the end of the code.
    Run(State),
    /// Control has left for a block that does not start behind this point.
    Wait { block: int, args: Seq<int>, state: State },
    Done { values: Seq<int>, state: State },
    /// Control ran into something that has no meaning.
    Stuck,
}

pub open spec fn half(ty: Ty) -> int {
    match ty {
        Ty::I8 => 0x80,
        Ty::I16 => 0x8000,
        Ty::I32 => 0x8000_0000,
        Ty::I64 | Ty::F64 => 0x8000_0000_0000_0000,
    }
}

/// The signed value with the low bits of `x`.
pub open spec fn wrap(ty: Ty, x: int) -> int {
    match ty {
        Ty::I8 => (x + 0x80) % 0x100 - 0x80,
        Ty::I16 => (x + 0x8000) % 0x1_0000 - 0x8000,
        Ty::I32 => (x + 0x8000_0000) % 0x1_0000_0000 - 0x8000_0000,
        Ty::I64 | Ty::F64 => (x + 0x8000_0000_0000_0000) % 0x1_0000_0000_0000_0000 - 0x8000_0000_0000_0000,
    }
}

/// The unsigned value with the bits of `x`.
pub open spec fn unsigned(ty: Ty, x: int) -> int {
    match ty {
        Ty::I8 => x % 0x100,
        Ty::I16 => x % 0x1_0000,
        Ty::I32 => x % 0x1_0000_0000,
        Ty::I64 | Ty::F64 => x % 0x1_0000_0000_0000_0000,
    }
}

pub open spec fn in_range(ty: Ty, x: int) -> bool {
    -half(ty) <= x < half(ty)
}

/// Division that rounds toward zero.
pub open spec fn quotient(a: int, b: int) -> int {
    if a >= 0 && b > 0 {
        a / b
    } else if a >= 0 {
        -(a / (-b))
    } else if b > 0 {
        -((-a) / b)
    } else {
        (-a) / (-b)
    }
}

pub open spec fn bits_of(ty: Ty) -> int {
    match ty {
        Ty::I8 => 8,
        Ty::I16 => 16,
        Ty::I32 => 32,
        Ty::I64 | Ty::F64 => 64,
    }
}

pub open spec fn binary_fails(op: BinaryOp, ty: Ty, a: int, b: int) -> bool {
    match op {
        BinaryOp::Sdiv => b == 0 || a == -half(ty) && b == -1,
        BinaryOp::Srem => b == 0,
        _ => false,
    }
}

pub open spec fn binary_value(op: BinaryOp, ty: Ty, a: int, b: int) -> int {
    match op {
        BinaryOp::Add => wrap(ty, a + b),
        BinaryOp::Sub => wrap(ty, a - b),
        BinaryOp::Mul => wrap(ty, a * b),
        BinaryOp::And => (a as i64 & b as i64) as int,
        BinaryOp::Or => (a as i64 | b as i64) as int,
        BinaryOp::Xor => (a as i64 ^ b as i64) as int,
        BinaryOp::Shl => wrap(ty, a * two_to(unsigned(ty, b) % bits_of(ty))),
        BinaryOp::Sshr => a / two_to(unsigned(ty, b) % bits_of(ty)),
        BinaryOp::Ushr => wrap(ty, unsigned(ty, a) / two_to(unsigned(ty, b) % bits_of(ty))),
        BinaryOp::Sdiv => wrap(ty, quotient(a, b)),
        BinaryOp::Srem => a - b * quotient(a, b),
    }
}

pub open spec fn two_to(n: int) -> int
    decreases n,
{
    if n <= 0 {
        1
    } else {
        2 * two_to(n - 1)
    }
}

pub open spec fn exact_value(op: BinaryOp, a: int, b: int) -> int {
    match op {
        BinaryOp::Add => a + b,
        BinaryOp::Sub => a - b,
        _ => a * b,
    }
}

pub open spec fn unary_value(op: UnaryOp, ty: Ty, a: int) -> int {
    match op {
        UnaryOp::Neg => wrap(ty, -a),
        UnaryOp::Not => -a - 1,
    }
}

pub open spec fn holds(cc: IntCc, ty: Ty, a: int, b: int) -> bool {
    match cc {
        IntCc::Equal => a == b,
        IntCc::NotEqual => a != b,
        IntCc::SignedLessThan => a < b,
        IntCc::SignedLessThanOrEqual => a <= b,
        IntCc::SignedGreaterThan => a > b,
        IntCc::SignedGreaterThanOrEqual => a >= b,
        IntCc::UnsignedLessThan => unsigned(ty, a) < unsigned(ty, b),
    }
}

pub open spec fn truth(b: bool) -> int {
    if b {
        1
    } else {
        0
    }
}

pub open spec fn converted(op: ConvertOp, from: Ty, to: Ty, a: int, w: World) -> int {
    match op {
        ConvertOp::Reduce => wrap(to, a),
        ConvertOp::SignExtend => a,
        ConvertOp::ZeroExtend => wrap(to, unsigned(from, a)),
        ConvertOp::Bitcast => a,
        ConvertOp::FloatFromSigned => (w.float_of)(a),
        ConvertOp::FloatFromUnsigned => (w.float_of)(unsigned(from, a)),
        ConvertOp::FloatToSigned => wrap(to, (w.integer_of)(a)),
    }
}

impl State {
    pub open spec fn define(self, at: int, value: int) -> State {
        State { vals: self.vals.insert(at, value), ..self }
    }

    pub open spec fn get(self, args: Seq<usize>) -> Seq<int> {
        args.map_values(|a: usize| self.vals[a as int])
    }

    pub open spec fn note(self, event: Event) -> State {
        State { trace: self.trace.push(event), ..self }
    }

    /// The world's answer to the next observation, as a value of the type.
    pub open spec fn answer(self, ty: Ty, w: World) -> int {
        wrap(ty, (w.observe)(self.trace.len() as int))
    }
}

pub open spec fn go(target: usize, args: Seq<int>, at: int, s: State) -> Status {
    if target < at {
        Status::Wait { block: target as int, args, state: s }
    } else {
        Status::Stuck
    }
}

/// What one instruction does to a running function.
pub open spec fn execute(s: State, inst: Inst, at: int, w: World) -> Status {
    match inst {
        Inst::NewBlock { .. } | Inst::NewVariable { .. } | Inst::NewSlot { .. } | Inst::NewSignature { .. } => Status::Run(s),
        Inst::Switch { .. } | Inst::Enter { .. } => Status::Stuck,
        Inst::Param { index, ty } => Status::Run(s.define(at, s.incoming[index as int])),
        Inst::Const { ty, imm } => Status::Run(s.define(at, wrap(ty, imm as int))),
        Inst::FloatConst { bits } => Status::Run(s.define(at, bits as int)),
        Inst::Binary { op, ty, a, b } => if binary_fails(op, ty, s.vals[a as int], s.vals[b as int]) {
            Status::Stuck
        } else {
            Status::Run(s.define(at, binary_value(op, ty, s.vals[a as int], s.vals[b as int])))
        },
        Inst::BinaryImm { op, ty, a, imm } => if binary_fails(op, ty, s.vals[a as int], imm as int) {
            Status::Stuck
        } else {
            Status::Run(s.define(at, binary_value(op, ty, s.vals[a as int], imm as int)))
        },
        Inst::Unary { op, ty, a } => Status::Run(s.define(at, unary_value(op, ty, s.vals[a as int]))),
        Inst::Wrapped { op, ty, a, b } => Status::Run(
            s.define(at, wrap(ty, exact_value(op, s.vals[a as int], s.vals[b as int]))),
        ),
        Inst::Overflowed { op, ty, a, b } => Status::Run(
            s.define(at, truth(!in_range(ty, exact_value(op, s.vals[a as int], s.vals[b as int])))),
        ),
        Inst::Compare { cc, ty, a, b } => Status::Run(s.define(at, truth(holds(cc, ty, s.vals[a as int], s.vals[b as int])))),
        Inst::CompareImm { cc, ty, a, imm } => Status::Run(s.define(at, truth(holds(cc, ty, s.vals[a as int], imm as int)))),
        Inst::FloatBinary { op, a, b } => Status::Run(s.define(at, (w.float_binary)(op, s.vals[a as int], s.vals[b as int]))),
        Inst::FloatUnary { op, a } => Status::Run(s.define(at, (w.float_unary)(op, s.vals[a as int]))),
        Inst::FloatCompare { cc, a, b } => Status::Run(
            s.define(at, truth((w.float_holds)(cc, s.vals[a as int], s.vals[b as int]))),
        ),
        Inst::Convert { op, from, to, a } => Status::Run(s.define(at, converted(op, from, to, s.vals[a as int], w))),
        Inst::Select { ty, cond, a, b } => Status::Run(
            s.define(at, if s.vals[cond as int] != 0 { s.vals[a as int] } else { s.vals[b as int] }),
        ),
        Inst::Load { ty, base, offset } => Status::Run(
            s.note(
                Event::Load { ty, address: wrap(Ty::I64, s.vals[base as int] + offset), value: s.answer(ty, w) },
            ).define(at, s.answer(ty, w)),
        ),
        Inst::Store { ty, value, base, offset } => Status::Run(
            s.note(
                Event::Store { ty, address: wrap(Ty::I64, s.vals[base as int] + offset), value: s.vals[value as int] },
            ),
        ),
        Inst::SlotAddr { slot, offset } => Status::Run(
            s.note(Event::SlotAddr { slot: slot as int, offset: offset as int, address: s.answer(Ty::I64, w) }).define(
                at,
                s.answer(Ty::I64, w),
            ),
        ),
        Inst::SlotLoad { ty, slot, offset } => Status::Run(
            s.note(Event::SlotLoad { ty, slot: slot as int, offset: offset as int, value: s.answer(ty, w) }).define(
                at,
                s.answer(ty, w),
            ),
        ),
        Inst::SlotStore { ty, value, slot, offset } => Status::Run(
            s.note(Event::SlotStore { ty, slot: slot as int, offset: offset as int, value: s.vals[value as int] }),
        ),
        Inst::Call { signature, ty, callee, args } => Status::Run(
            s.note(Event::Call { callee: s.vals[callee as int], args: s.get(args@), result: s.answer(ty, w) }).define(
                at,
                s.answer(ty, w),
            ),
        ),
        Inst::Use { var, ty } => Status::Run(s.define(at, s.vars[var as int])),
        Inst::Def { var, value } => Status::Run(
            State { vars: s.vars.insert(var as int, s.vals[value as int]), ..s },
        ),
        Inst::Branch { cond, then_block, then_args, else_block, else_args } => if s.vals[cond as int] != 0 {
            go(then_block, s.get(then_args@), at, s)
        } else {
            go(else_block, s.get(else_args@), at, s)
        },
        Inst::Jump { block, args } => go(block, s.get(args@), at, s),
        Inst::Return { values } => Status::Done { values: s.get(values@), state: s },
    }
}

pub open spec fn step(st: Status, inst: Inst, at: int, w: World) -> Status {
    if resumes(inst, w) {
        Status::Run(State { incoming: Seq::empty(), ..w.resume->Some_0.state })
    } else {
        follow(st, inst, at, w)
    }
}

/// The code is followed from this instruction on.
pub open spec fn resumes(inst: Inst, w: World) -> bool {
    inst matches Inst::Enter { block } && w.resume matches Some(resume) && resume.block == block
}

/// The step of control that has come this far.
pub open spec fn follow(st: Status, inst: Inst, at: int, w: World) -> Status {
    match st {
        Status::Run(s) => execute(s, inst, at, w),
        Status::Wait { block, args, state } => match inst {
            Inst::Switch { block: target } | Inst::Enter { block: target } => if target == block {
                Status::Run(State { incoming: args, ..state })
            } else {
                st
            },
            _ => st,
        },
        _ => st,
    }
}

pub open spec fn start(w: World) -> Status {
    Status::Run(State { vals: Map::empty(), vars: Map::empty(), incoming: w.params, trace: Seq::empty() })
}

/// Where the code leads in a world, and what it did on the way.
#[verifier::opaque]
pub open spec fn status(insts: Seq<Inst>, w: World) -> Status
    decreases insts.len(),
{
    if insts.len() == 0 {
        start(w)
    } else {
        step(status(insts.drop_last(), w), insts.last(), insts.len() - 1, w)
    }
}

/// Code that is being written.
#[derive(Debug)]
pub struct Code {
    pub insts: Vec<Inst>,
}

/// Control never waits for a block that does not exist.
pub proof fn waits_for_known_blocks(insts: Seq<Inst>, w: World)
    ensures
        status(insts, w) matches Status::Wait { block, .. } ==> 0 <= block < insts.len(),
    decreases insts.len(),
{
    reveal_with_fuel(status, 2);
    if insts.len() > 0 {
        waits_for_known_blocks(insts.drop_last(), w);
    }
}

/// Code behind a point where control has returned or got stuck changes nothing.
pub proof fn finished_code_stays_finished(insts: Seq<Inst>, inst: Inst, w: World)
    requires
        !(inst is Enter),
    ensures
        status(insts, w) is Done || status(insts, w) is Stuck ==> status(insts.push(inst), w) == status(insts, w),
{
    reveal_with_fuel(status, 2);
    assert(insts.push(inst).drop_last() =~= insts);
}

/// The state after the same code ran further, as far as values go that were
/// computed before position `n`.
pub open spec fn agree(s: State, t: State, n: int) -> bool {
    forall|i: int| i < n ==> #[trigger] t.vals[i] == s.vals[i]
}

/// Control runs on, with the same variables and nothing observed; or it was
/// not here and still is not.
pub open spec fn quiet(st: Status, st2: Status, n: int) -> bool {
    match st {
        Status::Run(s) => st2 matches Status::Run(t) && t.vars == s.vars && t.trace == s.trace && agree(s, t, n),
        _ => st2 == st,
    }
}

pub open spec fn value(st: Status, id: usize) -> int {
    st->Run_0.vals[id as int]
}

/// Another list of the same types.
pub fn copy_types(types: &Vec<Ty>) -> (r: Vec<Ty>)
    ensures
        r@ == types@,
{
    let mut copy: Vec<Ty> = Vec::new();
    let mut i: usize = 0;
    while i < types.len()
        invariant
            i <= types@.len(),
            copy@ == types@.take(i as int),
        decreases types@.len() - i,
    {
        copy.push(types[i]);
        assert(copy@ =~= types@.take(i + 1));
        i = i + 1;
    }
    assert(copy@ =~= types@);
    copy
}

impl Code {
    /// The first `n` instructions.
    pub closed spec fn start(&self, n: int) -> Seq<Inst> {
        self.insts@.take(n)
    }
}

/// What was written of the code stays as it is: at most, more comes behind it.
pub open spec fn kept(a: Code, b: Code) -> bool {
    &&& a.len() <= b.len()
    &&& forall|n: int| 0 <= n <= a.len() ==> #[trigger] b.start(n) == a.start(n)
}

/// Code that is kept has the same instructions at the same positions.
pub proof fn kept_instructions(a: Code, b: Code)
    requires
        kept(a, b),
    ensures
        a.insts@ == b.insts@.take(a.insts@.len() as int),
        forall|i: int| 0 <= i < a.insts@.len() ==> #[trigger] b.insts@[i] == a.insts@[i],
{
    let n = a.len();
    assert(b.start(n) == a.start(n));
    assert(a.insts@.take(n) =~= a.insts@);
    assert forall|i: int| 0 <= i < a.insts@.len() implies #[trigger] b.insts@[i] == a.insts@[i] by {
        assert(b.insts@.take(n)[i] == a.insts@.take(n)[i]);
    }
}

/// What stands at a position stays there.
pub broadcast proof fn kept_kinds(a: Code, b: Code, i: int)
    requires
        #[trigger] kept(a, b),
        0 <= i < a.len(),
    ensures
        #[trigger] b.kind(i) == a.kind(i),
{
    reveal(Code::kind);
    kept_instructions(a, b);
}

/// Control that comes back to a block goes on there, in the state that it comes
/// with.
pub proof fn entered_blocks_are_taken_up_again(insts: Seq<Inst>, block: usize, w: World)
    requires
        w.resume matches Some(resume) && resume.block == block,
    ensures
        status(insts.push(Inst::Enter { block }), w) == Status::Run(
            State { incoming: Seq::empty(), ..w.resume->Some_0.state },
        ),
{
    reveal_with_fuel(status, 2);
    assert(insts.push(Inst::Enter { block }).drop_last() =~= insts);
}

impl Code {
    pub open spec fn len(&self) -> int {
        self.insts@.len() as int
    }

    pub open spec fn at(&self, w: World) -> Status {
        status(self.insts@, w)
    }

    pub fn new() -> (r: Self)
        ensures
            r.insts@.len() == 0,
            forall|w: World| #[trigger] r.at(w) == start(w),
    {
        let r = Code { insts: Vec::new() };
        proof {
            assert forall|w: World| #[trigger] r.at(w) == start(w) by {
                reveal_with_fuel(status, 1);
            }
        }
        r
    }

    pub fn push(&mut self, inst: Inst) -> (at: usize)
        ensures
            kept(*old(self), *final(self)),
            at == old(self).len(),
            final(self).len() == old(self).len() + 1,
            final(self).insts@ == old(self).insts@.push(inst),
            appended(*old(self), *final(self), inst),
            forall|w: World| #[trigger] final(self).at(w) == step(old(self).at(w), inst, at as int, w),
    {
        let at: usize = self.insts.len();
        self.insts.push(inst);
        proof {
            written(*old(self), *self, inst);
            assert forall|n: int| 0 <= n <= old(self).len() implies #[trigger] self.start(n) == old(self).start(n) by {
                assert(self.insts@.take(n) =~= old(self).insts@.take(n));
            }
            assert forall|w: World| #[trigger] self.at(w) == step(old(self).at(w), inst, at as int, w) by {
                reveal_with_fuel(status, 2);
                assert(self.insts@.drop_last() =~= old(self).insts@);
            }
        }
        at
    }

    pub fn new_block(&mut self) -> (at: usize)
        ensures
            kept(*old(self), *final(self)),
            appended(*old(self), *final(self), Inst::NewBlock { cold: false }),
            at == old(self).len(),
            final(self).len() == old(self).len() + 1,
            final(self).insts@ == old(self).insts@.push(Inst::NewBlock { cold: false }),
            forall|w: World| #[trigger] final(self).at(w) == old(self).at(w),
    {
        self.push(Inst::NewBlock { cold: false })
    }

    /// A block that is not expected to run.
    pub fn new_cold_block(&mut self) -> (at: usize)
        ensures
            kept(*old(self), *final(self)),
            appended(*old(self), *final(self), Inst::NewBlock { cold: true }),
            at == old(self).len(),
            final(self).len() == old(self).len() + 1,
            forall|w: World| #[trigger] final(self).at(w) == old(self).at(w),
    {
        self.push(Inst::NewBlock { cold: true })
    }

    pub fn new_variable(&mut self, ty: Ty) -> (at: usize)
        ensures
            kept(*old(self), *final(self)),
            appended(*old(self), *final(self), Inst::NewVariable { ty }),
            at == old(self).len(),
            final(self).len() == old(self).len() + 1,
            final(self).insts@[at as int] == (Inst::NewVariable { ty }),
            forall|w: World| #[trigger] final(self).at(w) == old(self).at(w),
    {
        self.push(Inst::NewVariable { ty })
    }

    pub fn switch_to(&mut self, block: usize) -> (at: usize)
        ensures
            kept(*old(self), *final(self)),
            appended(*old(self), *final(self), Inst::Switch { block }),
            final(self).len() == old(self).len() + 1,
            forall|w: World| #[trigger]
                final(self).at(w) == (match old(self).at(w) {
                    Status::Run(_) => Status::Stuck,
                    Status::Wait { block: b, args, state } => if block == b {
                        Status::Run(State { incoming: args, ..state })
                    } else {
                        old(self).at(w)
                    },
                    st => st,
                }),
    {
        self.push(Inst::Switch { block })
    }

    /// Starts the code of a block that control may come back to.
    pub fn enter(&mut self, block: usize)
        ensures
            kept(*old(self), *final(self)),
            appended(*old(self), *final(self), Inst::Enter { block }),
            final(self).len() == old(self).len() + 1,
            forall|w: World| #[trigger]
                final(self).at(w) == (if w.resume is Some && w.resume->Some_0.block == block {
                    Status::Run(State { incoming: Seq::empty(), ..w.resume->Some_0.state })
                } else {
                    match old(self).at(w) {
                        Status::Run(_) => Status::Stuck,
                        Status::Wait { block: b, args, state } => if block == b {
                            Status::Run(State { incoming: args, ..state })
                        } else {
                            old(self).at(w)
                        },
                        st => st,
                    }
                }),
    {
        let _ = self.push(Inst::Enter { block });
    }

    pub fn branch(&mut self, cond: usize, then_block: usize, else_block: usize)
        requires
            then_block < old(self).len(),
            else_block < old(self).len(),
        ensures
            kept(*old(self), *final(self)),
            branched(*old(self), *final(self), cond, then_block, else_block),
            final(self).len() == old(self).len() + 1,
            forall|w: World| #[trigger]
                final(self).at(w) == (match old(self).at(w) {
                    Status::Run(s) => Status::Wait {
                        block: if s.vals[cond as int] != 0 {
                            then_block as int
                        } else {
                            else_block as int
                        },
                        args: Seq::empty(),
                        state: s,
                    },
                    st => st,
                }),
    {
        let at = self.push(
            Inst::Branch { cond, then_block, then_args: Vec::new(), else_block, else_args: Vec::new() },
        );
        proof {
            reveal(branched);
            reveal(appended);
            assert forall|w: World| #[trigger] self.at(w) == (match old(self).at(w) {
                Status::Run(s) => Status::Wait {
                    block: if s.vals[cond as int] != 0 {
                        then_block as int
                    } else {
                        else_block as int
                    },
                    args: Seq::empty(),
                    state: s,
                },
                st => st,
            }) by {
                if let Status::Run(s) = old(self).at(w) {
                    assert(s.get(Seq::<usize>::empty()) =~= Seq::<int>::empty());
                    let inst = self.insts@[at as int];
                    assert(inst->then_args@ =~= Seq::<usize>::empty());
                    assert(inst->else_args@ =~= Seq::<usize>::empty());
                }
            }
        }
    }

    pub fn jump(&mut self, block: usize)
        requires
            block < old(self).len(),
        ensures
            kept(*old(self), *final(self)),
            went(*old(self), *final(self), block),
            final(self).len() == old(self).len() + 1,
            final(self).insts@ == old(self).insts@.push(final(self).insts@.last()),
            forall|w: World| #[trigger]
                final(self).at(w) == (match old(self).at(w) {
                    Status::Run(s) => Status::Wait { block: block as int, args: Seq::empty(), state: s },
                    st => st,
                }),
    {
        let at = self.push(Inst::Jump { block, args: Vec::new() });
        proof {
            reveal(went);
            reveal(appended);
            assert forall|w: World| #[trigger] self.at(w) == (match old(self).at(w) {
                Status::Run(s) => Status::Wait { block: block as int, args: Seq::empty(), state: s },
                st => st,
            }) by {
                if let Status::Run(s) = old(self).at(w) {
                    assert(s.get(Seq::<usize>::empty()) =~= Seq::<int>::empty());
                    assert(self.insts@[at as int]->Jump_args@ =~= Seq::<usize>::empty());
                }
            }
        }
    }

    /// Leaves for a block with two parameters.
    pub fn jump_pair(&mut self, block: usize, a: usize, b: usize)
        requires
            block < old(self).len(),
        ensures
            kept(*old(self), *final(self)),
            went_with(*old(self), *final(self), block, a, b),
            final(self).len() == old(self).len() + 1,
            forall|w: World| #[trigger]
                final(self).at(w) == (match old(self).at(w) {
                    Status::Run(s) => Status::Wait {
                        block: block as int,
                        args: seq![s.vals[a as int], s.vals[b as int]],
                        state: s,
                    },
                    st => st,
                }),
    {
        let mut args: Vec<usize> = Vec::new();
        args.push(a);
        args.push(b);
        let ghost list = args@;
        let at = self.push(Inst::Jump { block, args });
        proof {
            reveal(went_with);
            reveal(appended);
            assert forall|w: World| #[trigger] self.at(w) == (match old(self).at(w) {
                Status::Run(s) => Status::Wait {
                    block: block as int,
                    args: seq![s.vals[a as int], s.vals[b as int]],
                    state: s,
                },
                st => st,
            }) by {
                if let Status::Run(s) = old(self).at(w) {
                    assert(self.insts@[at as int]->Jump_args@ == list);
                    assert(s.get(list) =~= seq![s.vals[a as int], s.vals[b as int]]);
                }
            }
        }
    }

    pub fn param(&mut self, index: usize, ty: Ty) -> (at: usize)
        ensures
            kept(*old(self), *final(self)),
            appended(*old(self), *final(self), Inst::Param { index, ty }),
            at == old(self).len(),
            final(self).len() == old(self).len() + 1,
            forall|w: World| #[trigger]
                final(self).at(w) == (match old(self).at(w) {
                    Status::Run(s) => Status::Run(s.define(at as int, s.incoming[index as int])),
                    st => st,
                }),
    {
        self.push(Inst::Param { index, ty })
    }

    pub fn iconst(&mut self, ty: Ty, imm: i64) -> (at: usize)
        ensures
            kept(*old(self), *final(self)),
            appended(*old(self), *final(self), Inst::Const { ty, imm }),
            at == old(self).len(),
            final(self).len() == old(self).len() + 1,
            forall|w: World| #[trigger]
                final(self).at(w) == (match old(self).at(w) {
                    Status::Run(s) => Status::Run(s.define(at as int, wrap(ty, imm as int))),
                    st => st,
                }),
    {
        self.push(Inst::Const { ty, imm })
    }

    pub fn float_const(&mut self, bits: i64) -> (at: usize)
        ensures
            kept(*old(self), *final(self)),
            appended(*old(self), *final(self), Inst::FloatConst { bits }),
            at == old(self).len(),
            final(self).len() == old(self).len() + 1,
            forall|w: World| #[trigger]
                final(self).at(w) == (match old(self).at(w) {
                    Status::Run(s) => Status::Run(s.define(at as int, bits as int)),
                    st => st,
                }),
    {
        self.push(Inst::FloatConst { bits })
    }

    pub fn binary(&mut self, op: BinaryOp, ty: Ty, a: usize, b: usize) -> (at: usize)
        ensures
            kept(*old(self), *final(self)),
            appended(*old(self), *final(self), Inst::Binary { op, ty, a, b }),
            at == old(self).len(),
            final(self).len() == old(self).len() + 1,
            forall|w: World| #[trigger]
                final(self).at(w) == (match old(self).at(w) {
                    Status::Run(s) => if binary_fails(op, ty, s.vals[a as int], s.vals[b as int]) {
                        Status::Stuck
                    } else {
                        Status::Run(s.define(at as int, binary_value(op, ty, s.vals[a as int], s.vals[b as int])))
                    },
                    st => st,
                }),
    {
        self.push(Inst::Binary { op, ty, a, b })
    }

    pub fn binary_imm(&mut self, op: BinaryOp, ty: Ty, a: usize, imm: i64) -> (at: usize)
        ensures
            kept(*old(self), *final(self)),
            appended(*old(self), *final(self), Inst::BinaryImm { op, ty, a, imm }),
            at == old(self).len(),
            final(self).len() == old(self).len() + 1,
            forall|w: World| #[trigger]
                final(self).at(w) == (match old(self).at(w) {
                    Status::Run(s) => if binary_fails(op, ty, s.vals[a as int], imm as int) {
                        Status::Stuck
                    } else {
                        Status::Run(s.define(at as int, binary_value(op, ty, s.vals[a as int], imm as int)))
                    },
                    st => st,
                }),
    {
        self.push(Inst::BinaryImm { op, ty, a, imm })
    }

    pub fn unary(&mut self, op: UnaryOp, ty: Ty, a: usize) -> (at: usize)
        ensures
            kept(*old(self), *final(self)),
            appended(*old(self), *final(self), Inst::Unary { op, ty, a }),
            at == old(self).len(),
            final(self).len() == old(self).len() + 1,
            forall|w: World| #[trigger]
                final(self).at(w) == (match old(self).at(w) {
                    Status::Run(s) => Status::Run(s.define(at as int, unary_value(op, ty, s.vals[a as int]))),
                    st => st,
                }),
    {
        self.push(Inst::Unary { op, ty, a })
    }

    /// The wrapped result, and whether it lost anything.
    pub fn overflowing(&mut self, op: BinaryOp, ty: Ty, a: usize, b: usize) -> (r: (usize, usize))
        requires
            a < old(self).len(),
            b < old(self).len(),
        ensures
            kept(*old(self), *final(self)),
            overflowed(*old(self), *final(self), op, ty, a, b),
            r.0 == old(self).len(),
            r.1 == old(self).len() + 1,
            final(self).len() == old(self).len() + 2,
            forall|w: World| #[trigger]
                final(self).at(w) == (match old(self).at(w) {
                    Status::Run(s) => Status::Run(
                        s.define(r.0 as int, wrap(ty, exact_value(op, s.vals[a as int], s.vals[b as int]))).define(
                            r.1 as int,
                            truth(!in_range(ty, exact_value(op, s.vals[a as int], s.vals[b as int]))),
                        ),
                    ),
                    st => st,
                }),
    {
        let result = self.push(Inst::Wrapped { op, ty, a, b });
        let ghost computed = *self;
        let flag = self.push(Inst::Overflowed { op, ty, a, b });
        proof {
            reveal(overflowed);
            reveal(appended);
            assert(computed.insts@.last() == (Inst::Wrapped { op, ty, a, b }));
            kept_kinds(computed, *self, result as int);
            if a < old(self).len() {
                kept_kinds(*old(self), computed, a as int);
            }
            if b < old(self).len() {
                kept_kinds(*old(self), computed, b as int);
            }
            assert forall|block: int| 0 <= block < old(self).len() implies #[trigger] self.unstarted(block) == old(
                self,
            ).unstarted(block) by {
                assert(computed.unstarted(block) == old(self).unstarted(block));
            }
        }
        (result, flag)
    }

    pub fn compare(&mut self, cc: IntCc, ty: Ty, a: usize, b: usize) -> (at: usize)
        ensures
            kept(*old(self), *final(self)),
            appended(*old(self), *final(self), Inst::Compare { cc, ty, a, b }),
            at == old(self).len(),
            final(self).len() == old(self).len() + 1,
            forall|w: World| #[trigger]
                final(self).at(w) == (match old(self).at(w) {
                    Status::Run(s) => Status::Run(
                        s.define(at as int, truth(holds(cc, ty, s.vals[a as int], s.vals[b as int]))),
                    ),
                    st => st,
                }),
    {
        self.push(Inst::Compare { cc, ty, a, b })
    }

    pub fn compare_imm(&mut self, cc: IntCc, ty: Ty, a: usize, imm: i64) -> (at: usize)
        ensures
            kept(*old(self), *final(self)),
            appended(*old(self), *final(self), Inst::CompareImm { cc, ty, a, imm }),
            at == old(self).len(),
            final(self).len() == old(self).len() + 1,
            forall|w: World| #[trigger]
                final(self).at(w) == (match old(self).at(w) {
                    Status::Run(s) => Status::Run(s.define(at as int, truth(holds(cc, ty, s.vals[a as int], imm as int)))),
                    st => st,
                }),
    {
        self.push(Inst::CompareImm { cc, ty, a, imm })
    }

    pub fn float_binary(&mut self, op: FloatOp, a: usize, b: usize) -> (at: usize)
        ensures
            kept(*old(self), *final(self)),
            appended(*old(self), *final(self), Inst::FloatBinary { op, a, b }),
            at == old(self).len(),
            final(self).len() == old(self).len() + 1,
            forall|w: World| #[trigger]
                final(self).at(w) == (match old(self).at(w) {
                    Status::Run(s) => Status::Run(
                        s.define(at as int, (w.float_binary)(op, s.vals[a as int], s.vals[b as int])),
                    ),
                    st => st,
                }),
    {
        self.push(Inst::FloatBinary { op, a, b })
    }

    pub fn float_unary(&mut self, op: FloatUnaryOp, a: usize) -> (at: usize)
        ensures
            kept(*old(self), *final(self)),
            appended(*old(self), *final(self), Inst::FloatUnary { op, a }),
            at == old(self).len(),
            final(self).len() == old(self).len() + 1,
            forall|w: World| #[trigger]
                final(self).at(w) == (match old(self).at(w) {
                    Status::Run(s) => Status::Run(s.define(at as int, (w.float_unary)(op, s.vals[a as int]))),
                    st => st,
                }),
    {
        self.push(Inst::FloatUnary { op, a })
    }

    pub fn float_compare(&mut self, cc: FloatCc, a: usize, b: usize) -> (at: usize)
        ensures
            kept(*old(self), *final(self)),
            appended(*old(self), *final(self), Inst::FloatCompare { cc, a, b }),
            at == old(self).len(),
            final(self).len() == old(self).len() + 1,
            forall|w: World| #[trigger]
                final(self).at(w) == (match old(self).at(w) {
                    Status::Run(s) => Status::Run(
                        s.define(at as int, truth((w.float_holds)(cc, s.vals[a as int], s.vals[b as int]))),
                    ),
                    st => st,
                }),
    {
        self.push(Inst::FloatCompare { cc, a, b })
    }

    pub fn convert(&mut self, op: ConvertOp, from: Ty, to: Ty, a: usize) -> (at: usize)
        ensures
            kept(*old(self), *final(self)),
            appended(*old(self), *final(self), Inst::Convert { op, from, to, a }),
            at == old(self).len(),
            final(self).len() == old(self).len() + 1,
            forall|w: World| #[trigger]
                final(self).at(w) == (match old(self).at(w) {
                    Status::Run(s) => Status::Run(s.define(at as int, converted(op, from, to, s.vals[a as int], w))),
                    st => st,
                }),
    {
        self.push(Inst::Convert { op, from, to, a })
    }

    pub fn select(&mut self, ty: Ty, cond: usize, a: usize, b: usize) -> (at: usize)
        ensures
            kept(*old(self), *final(self)),
            appended(*old(self), *final(self), Inst::Select { ty, cond, a, b }),
            at == old(self).len(),
            final(self).len() == old(self).len() + 1,
            forall|w: World| #[trigger]
                final(self).at(w) == (match old(self).at(w) {
                    Status::Run(s) => Status::Run(
                        s.define(at as int, if s.vals[cond as int] != 0 { s.vals[a as int] } else { s.vals[b as int] }),
                    ),
                    st => st,
                }),
    {
        self.push(Inst::Select { ty, cond, a, b })
    }

    pub fn load(&mut self, ty: Ty, base: usize, offset: i32) -> (at: usize)
        ensures
            kept(*old(self), *final(self)),
            appended(*old(self), *final(self), Inst::Load { ty, base, offset }),
            at == old(self).len(),
            final(self).len() == old(self).len() + 1,
            forall|w: World| #[trigger]
                final(self).at(w) == (match old(self).at(w) {
                    Status::Run(s) => Status::Run(
                        s.note(
                            Event::Load { ty, address: wrap(Ty::I64, s.vals[base as int] + offset), value: s.answer(ty, w) },
                        ).define(at as int, s.answer(ty, w)),
                    ),
                    st => st,
                }),
    {
        self.push(Inst::Load { ty, base, offset })
    }

    pub fn store(&mut self, ty: Ty, value: usize, base: usize, offset: i32)
        ensures
            kept(*old(self), *final(self)),
            appended(*old(self), *final(self), Inst::Store { ty, value, base, offset }),
            final(self).len() == old(self).len() + 1,
            forall|w: World| #[trigger]
                final(self).at(w) == (match old(self).at(w) {
                    Status::Run(s) => Status::Run(
                        s.note(
                            Event::Store {
                                ty,
                                address: wrap(Ty::I64, s.vals[base as int] + offset),
                                value: s.vals[value as int],
                            },
                        ),
                    ),
                    st => st,
                }),
    {
        let _ = self.push(Inst::Store { ty, value, base, offset });
    }

    pub fn new_slot(&mut self, size: u32, align_shift: u8) -> (at: usize)
        ensures
            kept(*old(self), *final(self)),
            appended(*old(self), *final(self), Inst::NewSlot { size, align_shift }),
            at == old(self).len(),
            final(self).len() == old(self).len() + 1,
            final(self).insts@[at as int] == (Inst::NewSlot { size, align_shift }),
            forall|w: World| #[trigger] final(self).at(w) == old(self).at(w),
    {
        self.push(Inst::NewSlot { size, align_shift })
    }

    pub fn new_signature(&mut self, params: Vec<Ty>, result: Option<Ty>) -> (at: usize)
        ensures
            kept(*old(self), *final(self)),
            appended(*old(self), *final(self), Inst::NewSignature { params, result }),
            at == old(self).len(),
            final(self).len() == old(self).len() + 1,
            final(self).insts@[at as int] == (Inst::NewSignature { params, result }),
            forall|w: World| #[trigger] final(self).at(w) == old(self).at(w),
    {
        self.push(Inst::NewSignature { params, result })
    }

    pub fn slot_addr(&mut self, slot: usize, offset: i32) -> (at: usize)
        ensures
            kept(*old(self), *final(self)),
            appended(*old(self), *final(self), Inst::SlotAddr { slot, offset }),
            at == old(self).len(),
            final(self).len() == old(self).len() + 1,
            forall|w: World| #[trigger]
                final(self).at(w) == (match old(self).at(w) {
                    Status::Run(s) => Status::Run(
                        s.note(
                            Event::SlotAddr { slot: slot as int, offset: offset as int, address: s.answer(Ty::I64, w) },
                        ).define(at as int, s.answer(Ty::I64, w)),
                    ),
                    st => st,
                }),
    {
        self.push(Inst::SlotAddr { slot, offset })
    }

    pub fn slot_load(&mut self, ty: Ty, slot: usize, offset: i32) -> (at: usize)
        ensures
            kept(*old(self), *final(self)),
            appended(*old(self), *final(self), Inst::SlotLoad { ty, slot, offset }),
            at == old(self).len(),
            final(self).len() == old(self).len() + 1,
            forall|w: World| #[trigger]
                final(self).at(w) == (match old(self).at(w) {
                    Status::Run(s) => Status::Run(
                        s.note(
                            Event::SlotLoad { ty, slot: slot as int, offset: offset as int, value: s.answer(ty, w) },
                        ).define(at as int, s.answer(ty, w)),
                    ),
                    st => st,
                }),
    {
        self.push(Inst::SlotLoad { ty, slot, offset })
    }

    pub fn slot_store(&mut self, ty: Ty, value: usize, slot: usize, offset: i32)
        ensures
            kept(*old(self), *final(self)),
            appended(*old(self), *final(self), Inst::SlotStore { ty, value, slot, offset }),
            final(self).len() == old(self).len() + 1,
            forall|w: World| #[trigger]
                final(self).at(w) == (match old(self).at(w) {
                    Status::Run(s) => Status::Run(
                        s.note(
                            Event::SlotStore {
                                ty,
                                slot: slot as int,
                                offset: offset as int,
                                value: s.vals[value as int],
                            },
                        ),
                    ),
                    st => st,
                }),
    {
        let _ = self.push(Inst::SlotStore { ty, value, slot, offset });
    }

    pub fn use_var(&mut self, var: usize, ty: Ty) -> (at: usize)
        ensures
            kept(*old(self), *final(self)),
            appended(*old(self), *final(self), Inst::Use { var, ty }),
            at == old(self).len(),
            final(self).len() == old(self).len() + 1,
            forall|w: World| #[trigger]
                final(self).at(w) == (match old(self).at(w) {
                    Status::Run(s) => Status::Run(s.define(at as int, s.vars[var as int])),
                    st => st,
                }),
    {
        self.push(Inst::Use { var, ty })
    }

    pub fn def_var(&mut self, var: usize, value: usize)
        ensures
            kept(*old(self), *final(self)),
            appended(*old(self), *final(self), Inst::Def { var, value }),
            final(self).len() == old(self).len() + 1,
            forall|w: World| #[trigger]
                final(self).at(w) == (match old(self).at(w) {
                    Status::Run(s) => Status::Run(State { vars: s.vars.insert(var as int, s.vals[value as int]), ..s }),
                    st => st,
                }),
    {
        let _ = self.push(Inst::Def { var, value });
    }

    /// Calls an address; the result is of type `ty`.
    pub fn call(&mut self, signature: usize, ty: Ty, callee: usize, args: Vec<usize>) -> (at: usize)
        ensures
            kept(*old(self), *final(self)),
            appended(*old(self), *final(self), Inst::Call { signature, ty, callee, args }),
            at == old(self).len(),
            final(self).len() == old(self).len() + 1,
            forall|w: World| #[trigger]
                final(self).at(w) == (match old(self).at(w) {
                    Status::Run(s) => Status::Run(
                        s.note(
                            Event::Call { callee: s.vals[callee as int], args: s.get(args@), result: s.answer(ty, w) },
                        ).define(at as int, s.answer(ty, w)),
                    ),
                    st => st,
                }),
    {
        self.push(Inst::Call { signature, ty, callee, args })
    }

    pub fn ret(&mut self, values: Vec<usize>)
        ensures
            kept(*old(self), *final(self)),
            appended(*old(self), *final(self), Inst::Return { values }),
            final(self).len() == old(self).len() + 1,
            forall|w: World| #[trigger]
                final(self).at(w) == (match old(self).at(w) {
                    Status::Run(s) => Status::Done { values: s.get(values@), state: s },
                    st => st,
                }),
    {
        let _ = self.push(Inst::Return { values });
    }
}

} // verus!
