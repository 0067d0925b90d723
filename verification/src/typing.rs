//! Which code the assembler takes: what stands at each position, which blocks
//! wait for their code, and how one more instruction changes that.
use crate::assemble::first_scan;
use crate::assemble::is_checked;
use crate::assemble::passed_ty;
use crate::assemble::scan_all;
use crate::assemble::scan_step;
use crate::assemble::Known;
use crate::assemble::Scan;
use crate::clif::converts;
use crate::clif::is_int;
use crate::clif::Passed;
use crate::clif::MOST_NAMES;
use crate::code::BinaryOp;
use crate::code::Code;
use crate::code::Inst;
use crate::code::Ty;
use vstd::prelude::*;

verus! {

/// What an instruction puts at its position.
pub open spec fn kind_of(inst: Inst) -> Known {
    match inst {
        Inst::NewBlock { .. } => Known::Block,
        Inst::NewVariable { ty } => Known::Variable(ty),
        Inst::NewSlot { .. } => Known::Slot,
        Inst::NewSignature { params, result } => Known::Signature(params@, result),
        Inst::Param { ty, .. } => Known::Value(ty),
        Inst::Const { ty, .. } => Known::Value(ty),
        Inst::FloatConst { .. } | Inst::FloatBinary { .. } | Inst::FloatUnary { .. } => Known::Value(Ty::F64),
        Inst::Binary { ty, .. } => Known::Value(ty),
        Inst::BinaryImm { ty, .. } => Known::Value(ty),
        Inst::Unary { ty, .. } => Known::Value(ty),
        Inst::Wrapped { ty, .. } => Known::Value(ty),
        Inst::Overflowed { .. } | Inst::Compare { .. } | Inst::CompareImm { .. } | Inst::FloatCompare { .. } => Known::Value(
            Ty::I8,
        ),
        Inst::Convert { to, .. } => Known::Value(to),
        Inst::Select { ty, .. } => Known::Value(ty),
        Inst::Load { ty, .. } => Known::Value(ty),
        Inst::SlotAddr { .. } => Known::Value(Ty::I64),
        Inst::SlotLoad { ty, .. } => Known::Value(ty),
        Inst::Call { ty, .. } => Known::Value(ty),
        Inst::Use { ty, .. } => Known::Value(ty),
        _ => Known::Nothing,
    }
}

/// The instruction starts the code of the block.
pub open spec fn starts(inst: Inst, block: int) -> bool {
    match inst {
        Inst::Switch { block: b } | Inst::Enter { block: b } => b == block,
        _ => false,
    }
}

impl Code {
    /// What stands at a position.
    #[verifier::opaque]
    pub open spec fn kind(&self, at: int) -> Known {
        kind_of(self.insts@[at])
    }

    /// A value of the type stands there.
    pub open spec fn holds(&self, at: usize, ty: Ty) -> bool {
        at < self.len() && self.kind(at as int) == Known::Value(ty)
    }

    /// A value stands there.
    pub open spec fn valued(&self, at: usize) -> bool {
        at < self.len() && self.kind(at as int) is Value
    }

    /// An integer stands there.
    pub open spec fn integer(&self, at: usize) -> bool {
        at < self.len() && self.kind(at as int) is Value && is_int(self.kind(at as int)->Value_0)
    }

    /// A variable of the type stands there.
    pub open spec fn names(&self, at: usize, ty: Ty) -> bool {
        at < self.len() && self.kind(at as int) == Known::Variable(ty)
    }

    /// A stack slot stands there.
    pub open spec fn slotted(&self, at: usize) -> bool {
        at < self.len() && self.kind(at as int) is Slot
    }

    /// A signature stands there that takes the values, and answers one of the type.
    pub open spec fn callable(&self, at: usize, args: Seq<usize>, ty: Ty) -> bool {
        &&& at < self.len()
        &&& self.kind(at as int) matches Known::Signature(params, result)
        &&& result == Some(ty)
        &&& params.len() == args.len()
        &&& forall|k: int| 0 <= k < args.len() ==> self.holds(#[trigger] args[k], params[k])
    }

    /// A block stands there.
    pub open spec fn blocked(&self, at: usize) -> bool {
        at < self.len() && self.kind(at as int) is Block
    }

    /// A block stands there, and no code was written for it.
    #[verifier::opaque]
    pub open spec fn unstarted(&self, block: int) -> bool {
        &&& 0 <= block < self.len()
        &&& kind_of(self.insts@[block]) is Block
        &&& forall|i: int| block < i < self.len() ==> !starts(#[trigger] self.insts@[i], block)
    }
}

/// The assembler takes the code so far, and a block is open.
#[verifier::opaque]
pub open spec fn live(code: Code, params: Seq<Passed>) -> bool {
    scan_all(code.insts@, code.insts@.len(), params) matches Some(scan) && scan.open
}

/// The assembler takes the code so far, and no block is open.
#[verifier::opaque]
pub open spec fn shut(code: Code, params: Seq<Passed>) -> bool {
    scan_all(code.insts@, code.insts@.len(), params) matches Some(scan) && !scan.open
}

/// The assembler takes the code so far, and the function's parameters may follow.
#[verifier::opaque]
pub open spec fn opening(code: Code, params: Seq<Passed>) -> bool {
    scan_all(code.insts@, code.insts@.len(), params) matches Some(scan) && scan.open && scan.entry && scan.pristine
}

/// The assembler takes the code so far, and the block that is open was given so
/// many parameters and nothing else.
#[verifier::opaque]
pub open spec fn arrived(code: Code, params: Seq<Passed>, taken: int) -> bool {
    scan_all(code.insts@, code.insts@.len(), params) matches Some(scan) && scan.open && !scan.entry && scan.pristine
        && scan.taken == taken
}

/// The instruction names the next parameter of a block.
pub open spec fn next_param(inst: Inst, taken: int) -> bool {
    inst matches Inst::Param { index, .. } && index == taken && taken < MOST_NAMES
}

pub open spec fn declares(inst: Inst) -> bool {
    inst is NewBlock || inst is NewVariable || inst is NewSlot || inst is NewSignature
}

/// The instruction may follow in an open block, and leaves it open.
pub open spec fn belongs(c: Code, inst: Inst) -> bool {
    match inst {
        Inst::Const { ty, .. } => is_int(ty),
        Inst::FloatConst { .. } => true,
        Inst::Binary { ty, a, b, .. } => is_int(ty) && c.holds(a, ty) && c.holds(b, ty),
        Inst::BinaryImm { ty, a, .. } => is_int(ty) && c.holds(a, ty),
        Inst::Unary { ty, a, .. } => is_int(ty) && c.holds(a, ty),
        Inst::Wrapped { op, ty, a, b } => is_checked(op) && is_int(ty) && c.holds(a, ty) && c.holds(b, ty),
        Inst::Overflowed { op, ty, a, b } => c.len() > 0 && c.insts@.last() == (Inst::Wrapped { op, ty, a, b }),
        Inst::Compare { ty, a, b, .. } => is_int(ty) && c.holds(a, ty) && c.holds(b, ty),
        Inst::CompareImm { ty, a, .. } => is_int(ty) && c.holds(a, ty),
        Inst::FloatBinary { a, b, .. } => c.holds(a, Ty::F64) && c.holds(b, Ty::F64),
        Inst::FloatUnary { a, .. } => c.holds(a, Ty::F64),
        Inst::FloatCompare { a, b, .. } => c.holds(a, Ty::F64) && c.holds(b, Ty::F64),
        Inst::Convert { op, from, to, a } => c.holds(a, from) && converts(op, from, to),
        Inst::Store { ty, value, base, .. } => c.holds(value, ty) && c.holds(base, Ty::I64),
        Inst::Select { ty, cond, a, b } => c.integer(cond) && c.holds(a, ty) && c.holds(b, ty),
        Inst::Load { base, .. } => c.holds(base, Ty::I64),
        Inst::SlotAddr { slot, .. } => c.slotted(slot),
        Inst::SlotLoad { slot, .. } => c.slotted(slot),
        Inst::SlotStore { ty, value, slot, .. } => c.holds(value, ty) && c.slotted(slot),
        Inst::Call { signature, ty, callee, args } => c.holds(callee, Ty::I64) && c.callable(signature, args@, ty),
        Inst::Use { var, ty } => c.names(var, ty),
        Inst::Def { var, value } => var < c.len() && c.kind(var as int) is Variable && c.holds(
            value,
            c.kind(var as int)->Variable_0,
        ),
        _ => declares(inst),
    }
}

/// The instruction ends an open block.
pub open spec fn ends(c: Code, inst: Inst) -> bool {
    match inst {
        Inst::Branch { cond, then_block, then_args, else_block, else_args } => {
            &&& c.integer(cond)
            &&& c.blocked(then_block)
            &&& c.blocked(else_block)
            &&& then_args@.len() == 0
            &&& else_args@.len() == 0
        },
        Inst::Jump { block, args } => c.blocked(block) && forall|k: int|
            0 <= k < args@.len() ==> c.valued(#[trigger] args@[k]),
        Inst::Return { values } => forall|k: int| 0 <= k < values@.len() ==> c.valued(#[trigger] values@[k]),
        _ => false,
    }
}

/// The instruction starts a block where none is open.
pub open spec fn begins(c: Code, inst: Inst) -> bool {
    match inst {
        Inst::Switch { block } | Inst::Enter { block } => c.unstarted(block as int),
        _ => false,
    }
}

/// The instruction names a parameter of the function.
pub open spec fn takes(params: Seq<Passed>, inst: Inst) -> bool {
    inst matches Inst::Param { index, ty } && index < params.len() && passed_ty(params[index as int]) == ty
}

/// The code with one more instruction.
#[verifier::opaque]
pub open spec fn appended(a: Code, b: Code, inst: Inst) -> bool {
    &&& b.kind(a.len()) == kind_of(inst)
    &&& forall|block: int|
        0 <= block < a.len() && !starts(inst, block) ==> #[trigger] b.unstarted(block) == a.unstarted(block)
    &&& inst is NewBlock ==> b.unstarted(a.len())
    &&& forall|p: Seq<Passed>| live(a, p) && belongs(a, inst) ==> #[trigger] live(b, p)
    &&& forall|p: Seq<Passed>| live(a, p) && ends(a, inst) ==> #[trigger] shut(b, p)
    &&& forall|p: Seq<Passed>| shut(a, p) && declares(inst) ==> #[trigger] shut(b, p)
    &&& forall|p: Seq<Passed>| shut(a, p) && begins(a, inst) ==> #[trigger] live(b, p)
    &&& forall|p: Seq<Passed>| opening(a, p) && (declares(inst) || takes(p, inst)) ==> #[trigger] opening(b, p)
    &&& forall|p: Seq<Passed>| shut(a, p) && begins(a, inst) ==> #[trigger] arrived(b, p, 0)
    &&& forall|p: Seq<Passed>, k: int| #[trigger]
        arrived(a, p, k) && next_param(inst, k) ==> arrived(b, p, k + 1) && live(b, p)
}

/// The blocks that waited for their code still do, and no other of them does.
pub open spec fn calm(a: Code, b: Code) -> bool {
    forall|block: int| 0 <= block < a.len() ==> #[trigger] b.unstarted(block) == a.unstarted(block)
}

/// Code that goes on where a block was open: the assembler takes it, and the
/// block at its end is open.
pub open spec fn steady(a: Code, b: Code) -> bool {
    calm(a, b) && forall|p: Seq<Passed>| live(a, p) ==> #[trigger] live(b, p)
}

/// Code that ends the block that was open.
pub open spec fn closing(a: Code, b: Code) -> bool {
    calm(a, b) && forall|p: Seq<Passed>| live(a, p) ==> #[trigger] shut(b, p)
}

/// Code that goes on where a block was open, and that wrote the code of `own`.
pub open spec fn steady_but(a: Code, b: Code, own: usize) -> bool {
    &&& forall|block: int|
        0 <= block < a.len() && block != own ==> #[trigger] b.unstarted(block) == a.unstarted(block)
    &&& forall|p: Seq<Passed>| live(a, p) ==> #[trigger] live(b, p)
}

/// Code that goes on in the block `own`, where none was open.
pub open spec fn begun(a: Code, b: Code, own: usize) -> bool {
    &&& forall|block: int|
        0 <= block < a.len() && block != own ==> #[trigger] b.unstarted(block) == a.unstarted(block)
    &&& forall|p: Seq<Passed>| shut(a, p) ==> #[trigger] live(b, p)
}

/// Code of the block `own`, where none was open and none is left open.
pub open spec fn rewritten(a: Code, b: Code, own: usize) -> bool {
    &&& forall|block: int|
        0 <= block < a.len() && block != own ==> #[trigger] b.unstarted(block) == a.unstarted(block)
    &&& forall|p: Seq<Passed>| shut(a, p) ==> #[trigger] shut(b, p)
}

/// The code with a branch behind it.
#[verifier::opaque]
pub open spec fn branched(a: Code, b: Code, cond: usize, then_block: usize, else_block: usize) -> bool {
    &&& calm(a, b)
    &&& forall|p: Seq<Passed>|
        live(a, p) && a.integer(cond) && a.blocked(then_block) && a.blocked(else_block) ==> #[trigger] shut(b, p)
}

/// The code with a jump behind it.
#[verifier::opaque]
pub open spec fn went(a: Code, b: Code, block: usize) -> bool {
    &&& calm(a, b)
    &&& forall|p: Seq<Passed>| live(a, p) && a.blocked(block) ==> #[trigger] shut(b, p)
}

/// The code with a jump behind it that hands on two values.
#[verifier::opaque]
pub open spec fn went_with(a: Code, b: Code, block: usize, x: usize, y: usize) -> bool {
    &&& calm(a, b)
    &&& forall|p: Seq<Passed>|
        live(a, p) && a.blocked(block) && a.valued(x) && a.valued(y) ==> #[trigger] shut(b, p)
}

/// The code with a sum, difference or product behind it, and its flag.
#[verifier::opaque]
pub open spec fn overflowed(a: Code, b: Code, op: BinaryOp, ty: Ty, x: usize, y: usize) -> bool {
    &&& calm(a, b)
    &&& b.kind(a.len()) == Known::Value(ty)
    &&& b.kind(a.len() + 1) == Known::Value(Ty::I8)
    &&& forall|p: Seq<Passed>|
        live(a, p) && is_checked(op) && is_int(ty) && a.holds(x, ty) && a.holds(y, ty) ==> #[trigger] live(b, p)
}

/// A scan knows what stands where, and which blocks were started.
spec fn knows(scan: Scan, insts: Seq<Inst>, n: nat) -> bool {
    &&& scan.known.len() == n
    &&& forall|i: int| 0 <= i < n ==> #[trigger] scan.known[i] == kind_of(insts[i])
    &&& forall|block: int| #[trigger]
        scan.started.contains(block) <==> exists|i: int|
            0 <= i < n && starts(#[trigger] insts[i], block)
    &&& forall|i: int, block: int| 0 <= i < n && #[trigger] starts(insts[i], block) ==> 0 <= block < i
}

proof fn scans_know(insts: Seq<Inst>, n: nat, params: Seq<Passed>)
    requires
        n <= insts.len(),
    ensures
        scan_all(insts, n, params) matches Some(scan) ==> knows(scan, insts, n),
    decreases n,
{
    if n > 0 {
        scans_know(insts, (n - 1) as nat, params);
        if let Some(after) = scan_all(insts, n, params) {
            let before = scan_all(insts, (n - 1) as nat, params)->Some_0;
            let inst = insts[n - 1];
            assert(after.known =~= before.known.push(kind_of(inst)));
            assert forall|block: int| #[trigger] after.started.contains(block) <==> exists|i: int|
                0 <= i < n && starts(#[trigger] insts[i], block) by {
                if after.started.contains(block) {
                    if before.started.contains(block) {
                        let i = choose|i: int| 0 <= i < n - 1 && starts(#[trigger] insts[i], block);
                        assert(starts(insts[i], block));
                    } else {
                        assert(starts(insts[n - 1], block));
                    }
                } else {
                    assert forall|i: int| 0 <= i < n implies !starts(#[trigger] insts[i], block) by {
                        if i < n - 1 && starts(insts[i], block) {
                            assert(before.started.contains(block));
                        }
                    }
                }
            }
        }
    }
}

proof fn scan_of_start(a: Seq<Inst>, b: Seq<Inst>, n: nat, params: Seq<Passed>)
    requires
        n <= a.len(),
        n <= b.len(),
        forall|i: int| 0 <= i < n ==> a[i] == b[i],
    ensures
        scan_all(a, n, params) == scan_all(b, n, params),
    decreases n,
{
    if n > 0 {
        scan_of_start(a, b, (n - 1) as nat, params);
        assert(a[n - 1] == b[n - 1]);
        if n > 1 {
            assert(a[n - 2] == b[n - 2]);
        }
    }
}

/// What one more instruction comes to.
#[verifier::rlimit(50)]
#[verifier::spinoff_prover]
proof fn scan_goes_on(a: Code, b: Code, inst: Inst, p: Seq<Passed>)
    requires
        b.insts@ == a.insts@.push(inst),
    ensures
        live(a, p) && belongs(a, inst) ==> live(b, p),
        live(a, p) && ends(a, inst) ==> shut(b, p),
        shut(a, p) && declares(inst) ==> shut(b, p),
        shut(a, p) && begins(a, inst) ==> live(b, p),
        opening(a, p) && (declares(inst) || takes(p, inst)) ==> opening(b, p),
        shut(a, p) && begins(a, inst) ==> arrived(b, p, 0),
        forall|k: int| #[trigger] arrived(a, p, k) && next_param(inst, k) ==> arrived(b, p, k + 1) && live(b, p),
{
    reveal(arrived);
    reveal(live);
    reveal(shut);
    reveal(opening);
    reveal(Code::kind);
    reveal(Code::unstarted);
    let n = a.insts@.len();
    scan_of_start(a.insts@, b.insts@, n, p);
    scans_know(a.insts@, n, p);
    assert(b.insts@[n as int] == inst);
    if let Some(scan) = scan_all(a.insts@, n, p) {
        assert(scan_all(b.insts@, n + 1, p) == scan_step(scan, b.insts@, n as int, p));
        assert forall|at: usize, ty: Ty| #[trigger] a.holds(at, ty) implies scan.ty(at) == Some(ty) by {
            assert(scan.known[at as int] == kind_of(a.insts@[at as int]));
        }
        assert forall|at: usize| #[trigger] a.blocked(at) implies scan.block(at) by {
            assert(scan.known[at as int] == kind_of(a.insts@[at as int]));
        }
        match inst {
            Inst::Switch { block } | Inst::Enter { block } => {
                if a.unstarted(block as int) {
                    assert(scan.known[block as int] == kind_of(a.insts@[block as int]));
                    if scan.started.contains(block as int) {
                        let i = choose|i: int| 0 <= i < n && starts(#[trigger] a.insts@[i], block as int);
                        assert(starts(a.insts@[i], block as int));
                    }
                }
            },
            Inst::Branch { cond, then_args, else_args, .. } => {
                if ends(a, inst) {
                    assert(scan.known[cond as int] == kind_of(a.insts@[cond as int]));
                }
            },
            Inst::Jump { args, .. } => {
                if ends(a, inst) {
                    assert forall|k: int| 0 <= k < args@.len() implies #[trigger] scan.ty(args@[k]) is Some by {
                        assert(a.valued(args@[k]));
                        assert(scan.known[args@[k] as int] == kind_of(a.insts@[args@[k] as int]));
                    }
                }
            },
            Inst::Return { values } => {
                if ends(a, inst) {
                    assert forall|k: int| 0 <= k < values@.len() implies #[trigger] scan.ty(values@[k]) is Some by {
                        assert(a.valued(values@[k]));
                        assert(scan.known[values@[k] as int] == kind_of(a.insts@[values@[k] as int]));
                    }
                }
            },
            Inst::Call { signature, args, .. } => {
                if belongs(a, inst) {
                    assert(scan.known[signature as int] == kind_of(a.insts@[signature as int]));
                    assert forall|k: int| 0 <= k < args@.len() implies #[trigger] scan.ty(args@[k]) == Some(
                        a.kind(signature as int)->Signature_0[k],
                    ) by {
                        assert(a.holds(args@[k], a.kind(signature as int)->Signature_0[k]));
                    }
                }
            },
            Inst::Select { cond, .. } => {
                if belongs(a, inst) {
                    assert(scan.known[cond as int] == kind_of(a.insts@[cond as int]));
                }
            },
            Inst::SlotAddr { slot, .. } => {
                if belongs(a, inst) {
                    assert(scan.known[slot as int] == kind_of(a.insts@[slot as int]));
                }
            },
            Inst::SlotLoad { slot, .. } => {
                if belongs(a, inst) {
                    assert(scan.known[slot as int] == kind_of(a.insts@[slot as int]));
                }
            },
            Inst::SlotStore { slot, .. } => {
                if belongs(a, inst) {
                    assert(scan.known[slot as int] == kind_of(a.insts@[slot as int]));
                }
            },
            Inst::Use { var, .. } => {
                if belongs(a, inst) {
                    assert(scan.known[var as int] == kind_of(a.insts@[var as int]));
                }
            },
            Inst::Def { var, .. } => {
                if belongs(a, inst) {
                    assert(scan.known[var as int] == kind_of(a.insts@[var as int]));
                }
            },
            Inst::Overflowed { .. } => {
                if n > 0 {
                    assert(b.insts@[n - 1] == a.insts@.last());
                }
            },
            _ => {},
        }
    }
}

pub(crate) proof fn written(a: Code, b: Code, inst: Inst)
    requires
        b.insts@ == a.insts@.push(inst),
    ensures
        appended(a, b, inst),
        forall|i: int| 0 <= i < a.len() ==> #[trigger] b.kind(i) == a.kind(i),
{
    reveal(appended);
    reveal(Code::kind);
    reveal(Code::unstarted);
    assert forall|block: int| 0 <= block < a.len() && !starts(inst, block) implies #[trigger] b.unstarted(block)
        == a.unstarted(block) by {
        assert(b.insts@[block] == a.insts@[block]);
        assert(b.insts@[a.len()] == inst);
        if a.unstarted(block) {
            assert forall|i: int| block < i < b.len() implies !starts(#[trigger] b.insts@[i], block) by {
                if i < a.len() {
                    assert(b.insts@[i] == a.insts@[i]);
                }
            }
        }
        if b.unstarted(block) {
            assert forall|i: int| block < i < a.len() implies !starts(#[trigger] a.insts@[i], block) by {
                assert(b.insts@[i] == a.insts@[i]);
            }
        }
    }
    assert forall|p: Seq<Passed>| live(a, p) && belongs(a, inst) implies #[trigger] live(b, p) by {
        scan_goes_on(a, b, inst, p);
    }
    assert forall|p: Seq<Passed>| live(a, p) && ends(a, inst) implies #[trigger] shut(b, p) by {
        scan_goes_on(a, b, inst, p);
    }
    assert forall|p: Seq<Passed>| shut(a, p) && declares(inst) implies #[trigger] shut(b, p) by {
        scan_goes_on(a, b, inst, p);
    }
    assert forall|p: Seq<Passed>| shut(a, p) && begins(a, inst) implies #[trigger] live(b, p) by {
        scan_goes_on(a, b, inst, p);
    }
    assert forall|p: Seq<Passed>| opening(a, p) && (declares(inst) || takes(p, inst)) implies #[trigger] opening(b, p) by {
        scan_goes_on(a, b, inst, p);
    }
    assert forall|p: Seq<Passed>| shut(a, p) && begins(a, inst) implies #[trigger] arrived(b, p, 0) by {
        scan_goes_on(a, b, inst, p);
    }
    assert forall|p: Seq<Passed>, k: int| #[trigger] arrived(a, p, k) && next_param(inst, k) implies arrived(b, p, k + 1)
        && live(b, p) by {
        scan_goes_on(a, b, inst, p);
    }
}

/// Code without an instruction waits for the function's parameters.
pub(crate) proof fn nothing_written(code: Code, params: Seq<Passed>)
    requires
        code.insts@.len() == 0,
    ensures
        opening(code, params),
{
    reveal(opening);
}

/// Behind the parameters the block goes on.
pub(crate) proof fn opened(code: Code, params: Seq<Passed>)
    requires
        opening(code, params),
    ensures
        live(code, params),
{
    reveal(opening);
    reveal(live);
}

/// How the code grows, step by step.

pub broadcast proof fn appended_kind(a: Code, b: Code, inst: Inst, i: int)
    requires
        #[trigger] appended(a, b, inst),
        i == a.len(),
    ensures
        #[trigger] b.kind(i) == kind_of(inst),
{
    reveal(appended);
}

pub broadcast proof fn appended_calm(a: Code, b: Code, inst: Inst, block: int)
    requires
        #[trigger] appended(a, b, inst),
        0 <= block < a.len(),
        !starts(inst, block),
    ensures
        #[trigger] b.unstarted(block) == a.unstarted(block),
{
    reveal(appended);
}

pub broadcast proof fn appended_block(a: Code, b: Code, inst: Inst, block: int)
    requires
        #[trigger] appended(a, b, inst),
        block == a.len(),
        inst is NewBlock,
    ensures
        #[trigger] b.unstarted(block),
{
    reveal(appended);
}

pub broadcast proof fn appended_live(a: Code, b: Code, inst: Inst, p: Seq<Passed>)
    requires
        #[trigger] appended(a, b, inst),
        live(a, p),
        belongs(a, inst),
    ensures
        #[trigger] live(b, p),
{
    reveal(appended);
}

pub broadcast proof fn appended_end(a: Code, b: Code, inst: Inst, p: Seq<Passed>)
    requires
        #[trigger] appended(a, b, inst),
        live(a, p),
        ends(a, inst),
    ensures
        #[trigger] shut(b, p),
{
    reveal(appended);
}

pub broadcast proof fn appended_aside(a: Code, b: Code, inst: Inst, p: Seq<Passed>)
    requires
        #[trigger] appended(a, b, inst),
        shut(a, p),
        declares(inst),
    ensures
        #[trigger] shut(b, p),
{
    reveal(appended);
}

pub broadcast proof fn appended_begin(a: Code, b: Code, inst: Inst, p: Seq<Passed>)
    requires
        #[trigger] appended(a, b, inst),
        shut(a, p),
        begins(a, inst),
    ensures
        #[trigger] live(b, p),
{
    reveal(appended);
}

pub broadcast proof fn appended_arrival(a: Code, b: Code, inst: Inst, p: Seq<Passed>, k: int)
    requires
        #[trigger] appended(a, b, inst),
        shut(a, p),
        begins(a, inst),
        k == 0,
    ensures
        #[trigger] arrived(b, p, k),
{
    reveal(appended);
}

pub broadcast proof fn appended_param(a: Code, b: Code, inst: Inst, p: Seq<Passed>, k: int)
    requires
        #[trigger] appended(a, b, inst),
        arrived(a, p, k - 1),
        next_param(inst, k - 1),
    ensures
        #[trigger] arrived(b, p, k),
{
    reveal(appended);
}

pub broadcast proof fn appended_param_live(a: Code, b: Code, inst: Inst, p: Seq<Passed>)
    requires
        #[trigger] appended(a, b, inst),
        inst is Param,
        next_param(inst, inst->index as int),
        arrived(a, p, inst->index as int),
    ensures
        #[trigger] live(b, p),
{
    reveal(appended);
}

pub broadcast proof fn branched_calm(a: Code, b: Code, cond: usize, x: usize, y: usize, block: int)
    requires
        #[trigger] branched(a, b, cond, x, y),
        0 <= block < a.len(),
    ensures
        #[trigger] b.unstarted(block) == a.unstarted(block),
{
    reveal(branched);
}

pub broadcast proof fn branched_end(a: Code, b: Code, cond: usize, x: usize, y: usize, p: Seq<Passed>)
    requires
        #[trigger] branched(a, b, cond, x, y),
        live(a, p),
        a.integer(cond),
        a.blocked(x),
        a.blocked(y),
    ensures
        #[trigger] shut(b, p),
{
    reveal(branched);
}

pub broadcast proof fn went_calm(a: Code, b: Code, to: usize, block: int)
    requires
        #[trigger] went(a, b, to),
        0 <= block < a.len(),
    ensures
        #[trigger] b.unstarted(block) == a.unstarted(block),
{
    reveal(went);
}

pub broadcast proof fn went_end(a: Code, b: Code, to: usize, p: Seq<Passed>)
    requires
        #[trigger] went(a, b, to),
        live(a, p),
        a.blocked(to),
    ensures
        #[trigger] shut(b, p),
{
    reveal(went);
}

pub broadcast proof fn went_with_calm(a: Code, b: Code, to: usize, x: usize, y: usize, block: int)
    requires
        #[trigger] went_with(a, b, to, x, y),
        0 <= block < a.len(),
    ensures
        #[trigger] b.unstarted(block) == a.unstarted(block),
{
    reveal(went_with);
}

pub broadcast proof fn went_with_end(a: Code, b: Code, to: usize, x: usize, y: usize, p: Seq<Passed>)
    requires
        #[trigger] went_with(a, b, to, x, y),
        live(a, p),
        a.blocked(to),
        a.valued(x),
        a.valued(y),
    ensures
        #[trigger] shut(b, p),
{
    reveal(went_with);
}

pub broadcast proof fn overflowed_calm(a: Code, b: Code, op: BinaryOp, ty: Ty, x: usize, y: usize, block: int)
    requires
        #[trigger] overflowed(a, b, op, ty, x, y),
        0 <= block < a.len(),
    ensures
        #[trigger] b.unstarted(block) == a.unstarted(block),
{
    reveal(overflowed);
}

pub broadcast proof fn overflowed_kind(a: Code, b: Code, op: BinaryOp, ty: Ty, x: usize, y: usize, i: int)
    requires
        #[trigger] overflowed(a, b, op, ty, x, y),
        a.len() <= i < a.len() + 2,
    ensures
        #[trigger] b.kind(i) == (if i == a.len() { Known::Value(ty) } else { Known::Value(Ty::I8) }),
{
    reveal(overflowed);
}

pub broadcast proof fn overflowed_live(a: Code, b: Code, op: BinaryOp, ty: Ty, x: usize, y: usize, p: Seq<Passed>)
    requires
        #[trigger] overflowed(a, b, op, ty, x, y),
        live(a, p),
        is_checked(op),
        is_int(ty),
        a.holds(x, ty),
        a.holds(y, ty),
    ensures
        #[trigger] live(b, p),
{
    reveal(overflowed);
}

pub broadcast group group_typing {
    appended_kind,
    appended_calm,
    appended_block,
    appended_live,
    appended_end,
    appended_aside,
    appended_begin,
    appended_arrival,
    appended_param,
    appended_param_live,
    branched_calm,
    branched_end,
    went_calm,
    went_end,
    went_with_calm,
    went_with_end,
    overflowed_calm,
    overflowed_kind,
    overflowed_live,
    crate::code::kept_kinds,
}

} // verus!
