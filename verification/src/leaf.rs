//! Straight-line arithmetic on unboxed values, for entries without a frame.
//! Where a result has no unboxed form, control leaves for a block that reports
//! a miss.
use crate::checks::forbid;
use crate::checks::require;
use crate::checks::waits_at;
use crate::code::binary_value;
use crate::code::in_range;
use crate::code::unary_value;
use crate::code::value;
use crate::code::wrap;
use crate::code::BinaryOp;
use crate::code::kept;
use crate::code::Code;
use crate::code::ConvertOp;
use crate::code::Event;
use crate::code::FloatOp;
use crate::code::FloatUnaryOp;
use crate::code::IntCc;
use crate::code::State;
use crate::code::Status;
use crate::code::Ty;
use crate::code::UnaryOp;
use crate::code::World;
use crate::frame::runs_on;
use crate::lower_values::group_truths;
use crate::clif::Passed;
use crate::typing::closing;
use crate::typing::shut;
use crate::typing::overflowed;
use crate::typing::steady;
use crate::typing::appended;
use crate::assemble::Known;
use vstd::prelude::*;

verus! {

broadcast use crate::typing::group_typing;

#[derive(Clone, Copy, Debug, PartialEq, Eq, Structural)]
pub enum LeafOp {
    IntConst(i32),
    /// A double by its bits, and the double of an integer.
    FloatConst(i64),
    FloatOfInt(i32),
    Argument(usize),
    Drop,
    IntAdd,
    IntSub,
    /// A product; the exact one also misses on negative zero.
    IntMul,
    IntNeg,
    IntMod,
    FloatAdd,
    FloatSub,
    FloatMul,
    FloatDiv,
    FloatNeg,
}

pub open spec fn leaf_pops(op: LeafOp) -> int {
    match op {
        LeafOp::IntConst(_) | LeafOp::FloatConst(_) | LeafOp::FloatOfInt(_) | LeafOp::Argument(_) => 0,
        LeafOp::Drop | LeafOp::IntNeg | LeafOp::FloatNeg => 1,
        _ => 2,
    }
}

pub open spec fn leaf_pushes(op: LeafOp) -> int {
    if op == LeafOp::Drop {
        0
    } else {
        1
    }
}

pub open spec fn exact_int(op: LeafOp, a: int, b: int) -> int {
    match op {
        LeafOp::IntAdd => a + b,
        LeafOp::IntSub => a - b,
        _ => a * b,
    }
}

pub open spec fn float_op(op: LeafOp) -> FloatOp {
    match op {
        LeafOp::FloatAdd => FloatOp::Add,
        LeafOp::FloatSub => FloatOp::Sub,
        LeafOp::FloatMul => FloatOp::Mul,
        _ => FloatOp::Div,
    }
}

/// The value that an operation yields, or nothing where it misses: a sum,
/// difference or product must be an Int32, a product that is negative zero is
/// none, the negation of zero and of the
/// smallest Int32 is none, and a remainder is only taken of a non-negative
/// dividend.
pub open spec fn leaf_value(op: LeafOp, args: Seq<int>, stack: Seq<int>, w: World) -> Option<int> {
    let n = stack.len();
    let a = stack[n - 2];
    let b = stack[n - 1];
    match op {
        LeafOp::IntConst(x) => Some(x as int),
        LeafOp::FloatConst(bits) => Some(bits as int),
        LeafOp::FloatOfInt(x) => Some((w.float_of)(x as int)),
        LeafOp::Argument(index) => Some(args[index as int]),
        LeafOp::Drop => None,
        LeafOp::IntAdd | LeafOp::IntSub => if in_range(Ty::I32, exact_int(op, a, b)) {
            Some(exact_int(op, a, b))
        } else {
            None
        },
        LeafOp::IntMul => if in_range(Ty::I32, a * b) && !(a * b == 0 && (a < 0) != (b < 0)) {
            Some(a * b)
        } else {
            None
        },
        LeafOp::IntNeg => if b == 0 || b == i32::MIN {
            None
        } else {
            Some(unary_value(UnaryOp::Neg, Ty::I32, b))
        },
        LeafOp::IntMod => if a >= 0 && b != 0 {
            Some(binary_value(BinaryOp::Srem, Ty::I32, a, b))
        } else {
            None
        },
        LeafOp::FloatAdd | LeafOp::FloatSub | LeafOp::FloatMul | LeafOp::FloatDiv => Some(
            (w.float_binary)(float_op(op), a, b),
        ),
        LeafOp::FloatNeg => Some((w.float_unary)(FloatUnaryOp::Neg, b)),
    }
}

/// The stack behind an operation, or nothing where it misses.
pub open spec fn leaf_step(op: LeafOp, args: Seq<int>, stack: Seq<int>, w: World) -> Option<Seq<int>> {
    let below = stack.take(stack.len() - leaf_pops(op));
    if op == LeafOp::Drop {
        Some(below)
    } else {
        match leaf_value(op, args, stack, w) {
            Some(x) => Some(below.push(x)),
            None => None,
        }
    }
}

/// An Int32 is what its low bits say.
pub proof fn wrap_of_int32(x: int)
    requires
        in_range(Ty::I32, x),
    ensures
        wrap(Ty::I32, x) == x,
{
}

pub open spec fn leaf_post(
    op: LeafOp,
    args: Seq<usize>,
    before: Seq<usize>,
    after: Seq<usize>,
    st: Status,
    st2: Status,
    n: int,
    miss: usize,
    w: World,
) -> bool {
    match st {
        Status::Run(s) => match leaf_step(op, s.get(args), s.get(before), w) {
            Some(out) => runs_on(st2, s, n, s.vars, s.trace) && st2->Run_0.get(after) == out,
            None => waits_at(st2, s, n, miss, s.vars, s.trace),
        },
        st => st2 == st,
    }
}

/// Values that were computed before keep their place.
pub proof fn gets_agree(s: State, t: State, n: int, ids: Seq<usize>)
    requires
        crate::code::agree(s, t, n),
        forall|k: int| 0 <= k < ids.len() ==> #[trigger] ids[k] < n,
    ensures
        t.get(ids) == s.get(ids),
{
    assert forall|k: int| 0 <= k < ids.len() implies t.get(ids)[k] == s.get(ids)[k] by {
        assert(ids[k] < n);
    }
    assert(t.get(ids) =~= s.get(ids));
}

pub open spec fn known(ids: Seq<usize>, n: int) -> bool {
    forall|k: int| 0 <= k < ids.len() ==> #[trigger] ids[k] < n
}

/// What stands where an operation leaves its result.
pub open spec fn leaf_kind(op: LeafOp, args: Seq<usize>, code: Code) -> Known {
    match op {
        LeafOp::Argument(index) => code.kind(args[index as int] as int),
        LeafOp::FloatConst(_) | LeafOp::FloatOfInt(_) | LeafOp::FloatAdd | LeafOp::FloatSub | LeafOp::FloatMul
        | LeafOp::FloatDiv | LeafOp::FloatNeg => Known::Value(Ty::F64),
        _ => Known::Value(Ty::I32),
    }
}

/// The operands of an operation have its type.
pub open spec fn leaf_fits(op: LeafOp, stack: Seq<usize>, code: Code) -> bool {
    let n = stack.len();
    match op {
        LeafOp::IntAdd | LeafOp::IntSub | LeafOp::IntMul | LeafOp::IntMod => code.holds(stack[n - 2], Ty::I32) && code.holds(
            stack[n - 1],
            Ty::I32,
        ),
        LeafOp::IntNeg => code.holds(stack[n - 1], Ty::I32),
        LeafOp::FloatAdd | LeafOp::FloatSub | LeafOp::FloatMul | LeafOp::FloatDiv => code.holds(stack[n - 2], Ty::F64)
            && code.holds(stack[n - 1], Ty::F64),
        LeafOp::FloatNeg => code.holds(stack[n - 1], Ty::F64),
        _ => true,
    }
}

fn emit_int_binary(code: &mut Code, op: LeafOp, a: usize, b: usize, miss: usize) -> (r: usize)
    requires
        op == LeafOp::IntAdd || op == LeafOp::IntSub || op == LeafOp::IntMul,
        a < old(code).len(),
        b < old(code).len(),
        miss < old(code).len(),
    ensures
        kept(*old(code), *final(code)),
        final(code).kind(r as int) == Known::Value(Ty::I32),
        old(code).holds(a, Ty::I32) && old(code).holds(b, Ty::I32) && old(code).blocked(miss)
            ==> steady(*old(code), *final(code)),
        r < final(code).len(),
        old(code).len() < final(code).len(),
        forall|w: World|
            #![trigger final(code).at(w)]
            match old(code).at(w) {
                Status::Run(s) => match leaf_value(op, Seq::empty(), seq![s.vals[a as int], s.vals[b as int]], w) {
                    Some(x) => runs_on(final(code).at(w), s, old(code).len(), s.vars, s.trace) && value(
                        final(code).at(w),
                        r,
                    ) == x,
                    None => waits_at(final(code).at(w), s, old(code).len(), miss, s.vars, s.trace),
                },
                st => final(code).at(w) == st,
            },
{
    broadcast use group_truths;

    let binary: BinaryOp = match op {
        LeafOp::IntAdd => BinaryOp::Add,
        LeafOp::IntSub => BinaryOp::Sub,
        _ => BinaryOp::Mul,
    };
    let (result, overflow) = code.overflowing(binary, Ty::I32, a, b);
    let ghost c1 = *code;
    let mut bad = overflow;
    if matches!(op, LeafOp::IntMul) {
        let zero = code.compare_imm(IntCc::Equal, Ty::I32, result, 0);
        let a_negative = code.compare_imm(IntCc::SignedLessThan, Ty::I32, a, 0);
        let b_negative = code.compare_imm(IntCc::SignedLessThan, Ty::I32, b, 0);
        let opposite = code.compare(IntCc::NotEqual, Ty::I8, a_negative, b_negative);
        let negative_zero = code.binary(BinaryOp::And, Ty::I8, zero, opposite);
        bad = code.binary(BinaryOp::Or, Ty::I8, overflow, negative_zero);
    }
    let ghost c2 = *code;
    forbid(code, bad, miss);
    proof {
        reveal(overflowed);
        reveal(appended);
        assert forall|w: World|
            #![trigger code.at(w)]
            match old(code).at(w) {
                Status::Run(s) => match leaf_value(op, Seq::empty(), seq![s.vals[a as int], s.vals[b as int]], w) {
                    Some(x) => runs_on(code.at(w), s, old(code).len(), s.vars, s.trace) && value(code.at(w), result)
                        == x,
                    None => waits_at(code.at(w), s, old(code).len(), miss, s.vars, s.trace),
                },
                st => code.at(w) == st,
            } by {
            let a1 = c1.at(w);
            let a2 = c2.at(w);
            if let Status::Run(s) = old(code).at(w) {
                let stack = seq![s.vals[a as int], s.vals[b as int]];
                let x = exact_int(op, s.vals[a as int], s.vals[b as int]);
                if in_range(Ty::I32, x) {
                    wrap_of_int32(x);
                }
                assert(stack[stack.len() - 2] == s.vals[a as int]);
                assert(stack[stack.len() - 1] == s.vals[b as int]);
            }
        }
    }
    result
}

fn emit_int_mod(code: &mut Code, a: usize, b: usize, miss: usize) -> (r: usize)
    requires
        a < old(code).len(),
        b < old(code).len(),
        miss < old(code).len(),
    ensures
        kept(*old(code), *final(code)),
        final(code).kind(r as int) == Known::Value(Ty::I32),
        old(code).holds(a, Ty::I32) && old(code).holds(b, Ty::I32) && old(code).blocked(miss)
            ==> steady(*old(code), *final(code)),
        r < final(code).len(),
        old(code).len() < final(code).len(),
        forall|w: World|
            #![trigger final(code).at(w)]
            match old(code).at(w) {
                Status::Run(s) => if s.vals[a as int] >= 0 && s.vals[b as int] != 0 {
                    runs_on(final(code).at(w), s, old(code).len(), s.vars, s.trace) && value(final(code).at(w), r)
                        == binary_value(BinaryOp::Srem, Ty::I32, s.vals[a as int], s.vals[b as int])
                } else {
                    waits_at(final(code).at(w), s, old(code).len(), miss, s.vars, s.trace)
                },
                st => final(code).at(w) == st,
            },
{
    broadcast use group_truths;

    let non_negative = code.compare_imm(IntCc::SignedGreaterThanOrEqual, Ty::I32, a, 0);
    let non_zero = code.compare_imm(IntCc::NotEqual, Ty::I32, b, 0);
    let exact = code.binary(BinaryOp::And, Ty::I8, non_negative, non_zero);
    let ghost c1 = *code;
    require(code, exact, miss);
    let ghost c2 = *code;
    let r = code.binary(BinaryOp::Srem, Ty::I32, a, b);
    proof {
        reveal(appended);
        assert forall|w: World|
            #![trigger code.at(w)]
            match old(code).at(w) {
                Status::Run(s) => if s.vals[a as int] >= 0 && s.vals[b as int] != 0 {
                    runs_on(code.at(w), s, old(code).len(), s.vars, s.trace) && value(code.at(w), r)
                        == binary_value(BinaryOp::Srem, Ty::I32, s.vals[a as int], s.vals[b as int])
                } else {
                    waits_at(code.at(w), s, old(code).len(), miss, s.vars, s.trace)
                },
                st => code.at(w) == st,
            } by {
            let a1 = c1.at(w);
            let a2 = c2.at(w);
        }
    }
    r
}

fn emit_int_neg(code: &mut Code, a: usize, miss: usize) -> (r: usize)
    requires
        a < old(code).len(),
        miss < old(code).len(),
    ensures
        kept(*old(code), *final(code)),
        final(code).kind(r as int) == Known::Value(Ty::I32),
        old(code).holds(a, Ty::I32) && old(code).blocked(miss) ==> steady(*old(code), *final(code)),
        r < final(code).len(),
        old(code).len() < final(code).len(),
        forall|w: World|
            #![trigger final(code).at(w)]
            match old(code).at(w) {
                Status::Run(s) => if s.vals[a as int] == 0 || s.vals[a as int] == i32::MIN {
                    waits_at(final(code).at(w), s, old(code).len(), miss, s.vars, s.trace)
                } else {
                    runs_on(final(code).at(w), s, old(code).len(), s.vars, s.trace) && value(final(code).at(w), r)
                        == unary_value(UnaryOp::Neg, Ty::I32, s.vals[a as int])
                },
                st => final(code).at(w) == st,
            },
{
    broadcast use group_truths;

    let zero = code.compare_imm(IntCc::Equal, Ty::I32, a, 0);
    let min = code.compare_imm(IntCc::Equal, Ty::I32, a, i32::MIN as i64);
    let bad = code.binary(BinaryOp::Or, Ty::I8, zero, min);
    let ghost c1 = *code;
    forbid(code, bad, miss);
    let ghost c2 = *code;
    let r = code.unary(UnaryOp::Neg, Ty::I32, a);
    proof {
        reveal(appended);
        assert forall|w: World|
            #![trigger code.at(w)]
            match old(code).at(w) {
                Status::Run(s) => if s.vals[a as int] == 0 || s.vals[a as int] == i32::MIN {
                    waits_at(code.at(w), s, old(code).len(), miss, s.vars, s.trace)
                } else {
                    runs_on(code.at(w), s, old(code).len(), s.vars, s.trace) && value(code.at(w), r) == unary_value(
                        UnaryOp::Neg,
                        Ty::I32,
                        s.vals[a as int],
                    )
                },
                st => code.at(w) == st,
            } by {
            let a1 = c1.at(w);
            let a2 = c2.at(w);
        }
    }
    r
}

fn emit_value(code: &mut Code, op: LeafOp, args: &Vec<usize>, stack: &Vec<usize>, miss: usize) -> (r: usize)
    requires
        op != LeafOp::Drop,
        leaf_pops(op) <= stack@.len(),
        op matches LeafOp::Argument(index) ==> index < args@.len(),
        known(args@, old(code).len()),
        known(stack@, old(code).len()),
        miss < old(code).len(),
    ensures
        kept(*old(code), *final(code)),
        final(code).kind(r as int) == leaf_kind(op, args@, *old(code)),
        leaf_fits(op, stack@, *old(code)) && old(code).blocked(miss) ==> steady(*old(code), *final(code)),
        r < final(code).len(),
        old(code).len() <= final(code).len(),
        forall|w: World|
            #![trigger final(code).at(w)]
            match old(code).at(w) {
                Status::Run(s) => match leaf_value(op, s.get(args@), s.get(stack@), w) {
                    Some(x) => runs_on(final(code).at(w), s, old(code).len(), s.vars, s.trace) && value(
                        final(code).at(w),
                        r,
                    ) == x,
                    None => waits_at(final(code).at(w), s, old(code).len(), miss, s.vars, s.trace),
                },
                st => final(code).at(w) == st,
            },
{
    proof {
        reveal(appended);
    }
    let n = stack.len();
    match op {
        LeafOp::IntConst(x) => {
            proof {
                wrap_of_int32(x as int);
            }
            code.iconst(Ty::I32, x as i64)
        },
        LeafOp::FloatConst(bits) => code.float_const(bits),
        LeafOp::FloatOfInt(x) => {
            proof {
                wrap_of_int32(x as int);
            }
            let integer = code.iconst(Ty::I32, x as i64);
            code.convert(ConvertOp::FloatFromSigned, Ty::I32, Ty::F64, integer)
        },
        LeafOp::Argument(index) => args[index],
        LeafOp::IntAdd | LeafOp::IntSub | LeafOp::IntMul => emit_int_binary(
            code,
            op,
            stack[n - 2],
            stack[n - 1],
            miss,
        ),
        LeafOp::IntNeg => emit_int_neg(code, stack[n - 1], miss),
        LeafOp::IntMod => emit_int_mod(code, stack[n - 2], stack[n - 1], miss),
        LeafOp::FloatAdd => code.float_binary(FloatOp::Add, stack[n - 2], stack[n - 1]),
        LeafOp::FloatSub => code.float_binary(FloatOp::Sub, stack[n - 2], stack[n - 1]),
        LeafOp::FloatMul => code.float_binary(FloatOp::Mul, stack[n - 2], stack[n - 1]),
        LeafOp::FloatDiv => code.float_binary(FloatOp::Div, stack[n - 2], stack[n - 1]),
        LeafOp::FloatNeg => code.float_unary(FloatUnaryOp::Neg, stack[n - 1]),
        LeafOp::Drop => 0,
    }
}

/// How many operands an operation needs.
pub fn leaf_operands(op: LeafOp) -> (r: usize)
    ensures
        r == leaf_pops(op),
{
    match op {
        LeafOp::IntConst(_) | LeafOp::FloatConst(_) | LeafOp::FloatOfInt(_) | LeafOp::Argument(_) => 0,
        LeafOp::Drop | LeafOp::IntNeg | LeafOp::FloatNeg => 1,
        _ => 2,
    }
}

/// Emits an operation on the values whose positions are on the stack.
pub fn emit_leaf(code: &mut Code, op: LeafOp, args: &Vec<usize>, stack: &mut Vec<usize>, miss: usize)
    requires
        leaf_pops(op) <= old(stack)@.len(),
        op matches LeafOp::Argument(index) ==> index < args@.len(),
        known(args@, old(code).len()),
        known(old(stack)@, old(code).len()),
        miss < old(code).len(),
    ensures
        kept(*old(code), *final(code)),
        leaf_fits(op, old(stack)@, *old(code)) && old(code).blocked(miss) ==> steady(*old(code), *final(code)),
        final(stack)@ == old(stack)@.take(old(stack)@.len() - leaf_pops(op)) + (if op == LeafOp::Drop {
            Seq::<usize>::empty()
        } else {
            seq![final(stack)@.last()]
        }),
        op != LeafOp::Drop ==> final(code).kind(final(stack)@.last() as int) == leaf_kind(op, args@, *old(code)),
        old(code).len() <= final(code).len(),
        final(stack)@.len() == old(stack)@.len() - leaf_pops(op) + leaf_pushes(op),
        known(final(stack)@, final(code).len()),
        forall|w: World|
            #![trigger final(code).at(w)]
            leaf_post(
                op,
                args@,
                old(stack)@,
                final(stack)@,
                old(code).at(w),
                final(code).at(w),
                old(code).len(),
                miss,
                w,
            ),
{
    let ghost before = stack@;
    let pops = leaf_operands(op);
    if matches!(op, LeafOp::Drop) {
        let _ = stack.pop();
        proof {
            assert forall|w: World|
                #![trigger code.at(w)]
                leaf_post(op, args@, before, stack@, old(code).at(w), code.at(w), old(code).len(), miss, w) by {
                if let Status::Run(s) = old(code).at(w) {
                    assert(s.get(stack@) =~= s.get(before).take(before.len() - 1));
                }
            }
        }
        return ;
    }
    let result = emit_value(code, op, args, stack, miss);
    stack.truncate(stack.len() - pops);
    let ghost below = stack@;
    stack.push(result);
    proof {
        assert(below =~= before.take(before.len() - leaf_pops(op)));
        assert forall|k: int| 0 <= k < stack@.len() implies #[trigger] stack@[k] < code.len() by {
            if k < below.len() {
                assert(before[k] < old(code).len());
            }
        }
        assert forall|w: World|
            #![trigger code.at(w)]
            leaf_post(op, args@, before, stack@, old(code).at(w), code.at(w), old(code).len(), miss, w) by {
            if let Status::Run(s) = old(code).at(w) {
                if let Some(x) = leaf_value(op, s.get(args@), s.get(before), w) {
                    let t = code.at(w)->Run_0;
                    gets_agree(s, t, old(code).len(), before);
                    assert(t.get(stack@) =~= s.get(before).take(before.len() - leaf_pops(op)).push(x)) by {
                        assert forall|k: int| 0 <= k < below.len() implies t.get(stack@)[k] == s.get(before)[k] by {
                            assert(t.get(before)[k] == s.get(before)[k]);
                        }
                    }
                }
            }
        }
    }
}

/// The record of a leaf that answered: one store of the result.
pub open spec fn answered(st: Status, ty: Ty, output: int, result: int) -> bool {
    st matches Status::Done { values, state } && values == seq![0int] && state.trace == seq![
        Event::Store { ty, address: wrap(Ty::I64, output), value: result },
    ]
}

/// A leaf that missed has written nothing.
pub open spec fn missed(st: Status) -> bool {
    st matches Status::Done { values, state } && values == seq![1int] && state.trace.len() == 0
}

/// Answers with the value on top of the stack.
pub fn emit_answer(code: &mut Code, ty: Ty, output: usize, result: usize)
    requires
        output < old(code).len(),
        result < old(code).len(),
    ensures
        kept(*old(code), *final(code)),
        old(code).holds(output, Ty::I64) && old(code).holds(result, ty) ==> closing(*old(code), *final(code)),
        final(code).len() > old(code).len(),
        forall|w: World|
            #![trigger final(code).at(w)]
            match old(code).at(w) {
                Status::Run(s) => final(code).at(w) matches Status::Done { values, state } && values == seq![0int]
                    && state.trace == s.trace.push(
                    Event::Store { ty, address: wrap(Ty::I64, s.vals[output as int]), value: s.vals[result as int] },
                ),
                st => final(code).at(w) == st,
            },
{
    let zero = code.iconst(Ty::I32, 0);
    code.store(ty, result, output, 0);
    let ghost c1 = *code;
    let mut values: Vec<usize> = Vec::new();
    values.push(zero);
    let ghost list = values@;
    code.ret(values);
    proof {
        reveal(appended);
        assert forall|w: World|
            #![trigger code.at(w)]
            match old(code).at(w) {
                Status::Run(s) => code.at(w) matches Status::Done { values, state } && values == seq![0int]
                    && state.trace == s.trace.push(
                    Event::Store { ty, address: wrap(Ty::I64, s.vals[output as int]), value: s.vals[result as int] },
                ),
                st => code.at(w) == st,
            } by {
            let a1 = c1.at(w);
            if let Status::Run(s) = old(code).at(w) {
                assert(a1->Run_0.get(list) =~= seq![0int]);
            }
        }
    }
}

/// Writes the block that reports a miss.
pub fn emit_miss(code: &mut Code, miss: usize)
    ensures
        kept(*old(code), *final(code)),
        forall|block: int|
            0 <= block < old(code).len() && block != miss ==> #[trigger] final(code).unstarted(block) == old(
                code,
            ).unstarted(block),
        forall|p: Seq<Passed>| shut(*old(code), p) && old(code).unstarted(miss as int) ==> #[trigger] shut(*final(code), p),
        final(code).len() > old(code).len(),
        forall|w: World|
            #![trigger final(code).at(w)]
            match old(code).at(w) {
                Status::Wait { block, args, state } => if block == miss {
                    final(code).at(w) matches Status::Done { values, state: after } && values == seq![1int]
                        && after.trace == state.trace
                } else {
                    final(code).at(w) == old(code).at(w)
                },
                Status::Run(_) => final(code).at(w) == Status::Stuck,
                st => final(code).at(w) == st,
            },
{
    let _ = code.switch_to(miss);
    let one = code.iconst(Ty::I32, 1);
    let ghost c1 = *code;
    let mut values: Vec<usize> = Vec::new();
    values.push(one);
    let ghost list = values@;
    code.ret(values);
    proof {
        reveal(appended);
        assert forall|w: World|
            #![trigger code.at(w)]
            match old(code).at(w) {
                Status::Wait { block, args, state } => if block == miss {
                    code.at(w) matches Status::Done { values, state: after } && values == seq![1int] && after.trace
                        == state.trace
                } else {
                    code.at(w) == old(code).at(w)
                },
                Status::Run(_) => code.at(w) == Status::Stuck,
                st => code.at(w) == st,
            } by {
            let a1 = c1.at(w);
            if let Status::Wait { block, args, state } = old(code).at(w) {
                if block == miss {
                    assert(a1->Run_0.get(list) =~= seq![1int]);
                }
            }
        }
    }
}

} // verus!
