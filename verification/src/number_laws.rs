//! What the operations on numbers give, and how they relate to each other.
use crate::arithmetic::ScalarBitwiseOp;
use crate::arithmetic::bitwise_result;
use crate::arithmetic::equality_of;
use crate::arithmetic::int_sum_of;
use crate::arithmetic::is_property_key;
use crate::arithmetic::remainder_of;
use crate::arithmetic::sum_of;
use crate::arithmetic::unary_result;
use crate::code::FloatCc;
use crate::code::FloatOp;
use crate::code::FloatUnaryOp;
use crate::code::World;
use crate::code::two_to;
use crate::lower_numbers::binary_result;
use crate::lower_numbers::comparison_of;
use crate::lower_numbers::integer_result;
use crate::lower_numbers::update_result;
use crate::lower_values::FrameBinaryOp;
use crate::lower_values::exact_result;
use crate::lower_values::has_checked_form;
use crate::lower_values::number_of;
use crate::lower_values::result_tag;
use crate::lower_values::stays_integer;
use crate::lower_values::to_int32;
use crate::scalar::OperandMode;
use crate::scalar::ScalarBinaryOp;
use crate::scalar::ScalarCompareOp;
use crate::scalar::tag_fits;
use crate::spelling::spelling;
use vstd::prelude::*;

verus! {

/// An Int32.
pub open spec fn is_int32(x: int) -> bool {
    -0x8000_0000 <= x <= 0x7fff_ffff
}

/// One operand is negative and the product is zero: JavaScript's result is the
/// negative zero, which no Int32 is.
pub open spec fn is_negative_zero(l: int, r: int) -> bool {
    l == 0 && r < 0 || l < 0 && r == 0
}

/// Of two Int32 one is less, greater or equal, and only one: the comparisons of
/// inlined code answer so, and the others are their negations and mirror images.
pub proof fn inlined_comparisons_order_integers(l: int, r: int)
    ensures
        exact_result(FrameBinaryOp::LessThan, l, r) == 1 <==> l < r,
        exact_result(FrameBinaryOp::GreaterThan, l, r) == 1 <==> r < l,
        exact_result(FrameBinaryOp::Equal, l, r) == 1 <==> l == r,
        exact_result(FrameBinaryOp::LessThan, l, r) + exact_result(FrameBinaryOp::GreaterThan, l, r) + exact_result(
            FrameBinaryOp::Equal,
            l,
            r,
        ) == 1,
        exact_result(FrameBinaryOp::GreaterThan, l, r) == exact_result(FrameBinaryOp::LessThan, r, l),
        exact_result(FrameBinaryOp::GreaterThanOrEqual, l, r) == exact_result(FrameBinaryOp::LessThanOrEqual, r, l),
        exact_result(FrameBinaryOp::LessThanOrEqual, l, r) == 1 - exact_result(FrameBinaryOp::GreaterThan, l, r),
        exact_result(FrameBinaryOp::GreaterThanOrEqual, l, r) == 1 - exact_result(FrameBinaryOp::LessThan, l, r),
        exact_result(FrameBinaryOp::NotEqual, l, r) == 1 - exact_result(FrameBinaryOp::Equal, l, r),
        exact_result(FrameBinaryOp::StrictEqual, l, r) == exact_result(FrameBinaryOp::Equal, l, r),
        exact_result(FrameBinaryOp::StrictNotEqual, l, r) == exact_result(FrameBinaryOp::NotEqual, l, r),
        0 <= exact_result(FrameBinaryOp::Equal, l, r) <= 1,
        0 <= exact_result(FrameBinaryOp::LessThan, l, r) <= 1,
        0 <= exact_result(FrameBinaryOp::GreaterThan, l, r) <= 1,
{
}

/// Every comparison of inlined code answers a truth value, and nothing else does.
pub proof fn inlined_results_have_their_type(op: FrameBinaryOp)
    requires
        has_checked_form(op),
    ensures
        result_tag(op) == 1 <==> (op == FrameBinaryOp::LessThan || op == FrameBinaryOp::LessThanOrEqual || op
            == FrameBinaryOp::GreaterThan || op == FrameBinaryOp::GreaterThanOrEqual || op == FrameBinaryOp::Equal || op
            == FrameBinaryOp::NotEqual || op == FrameBinaryOp::StrictEqual || op == FrameBinaryOp::StrictNotEqual),
        result_tag(op) == 0 || result_tag(op) == 1,
{
}

/// The sum, difference and product of inlined code are those of the integers; a
/// difference undoes a sum. They go on exactly where the result is an Int32.
pub proof fn inlined_arithmetic_is_exact(l: int, r: int)
    requires
        is_int32(l),
        is_int32(r),
    ensures
        exact_result(FrameBinaryOp::Add, l, r) == l + r,
        exact_result(FrameBinaryOp::Sub, exact_result(FrameBinaryOp::Add, l, r), r) == l,
        exact_result(FrameBinaryOp::Add, exact_result(FrameBinaryOp::Sub, l, r), r) == l,
        exact_result(FrameBinaryOp::Mul, l, r) == l * r,
        stays_integer(FrameBinaryOp::Add, l, r) <==> is_int32(l + r),
        stays_integer(FrameBinaryOp::Sub, l, r) <==> is_int32(l - r),
        stays_integer(FrameBinaryOp::Mul, l, r) <==> is_int32(l * r) && !is_negative_zero(l, r),
        forall|op: FrameBinaryOp|
            op != FrameBinaryOp::Add && op != FrameBinaryOp::Sub && op != FrameBinaryOp::Mul ==> #[trigger] stays_integer(op, l, r),
{
    if l * r == 0 {
        assert(l == 0 || r == 0) by (nonlinear_arith)
            requires
                l * r == 0,
        ;
    }
}

/// Division, remainder and shifts are left to the runtime; everything else of
/// inlined code has a form on two Int32.
pub proof fn inlined_operations_are_told_apart(op: FrameBinaryOp)
    ensures
        !has_checked_form(op) <==> (op == FrameBinaryOp::Div || op == FrameBinaryOp::Mod || op == FrameBinaryOp::Shl || op
            == FrameBinaryOp::Sar || op == FrameBinaryOp::Shr),
{
}

/// Bits that both have, that one has, and that one alone has: what both have and
/// what one has add up to the operands, and the rest is what one alone has.
pub proof fn inlined_bits_add_up(l: int, r: int)
    requires
        is_int32(l),
        is_int32(r),
    ensures
        exact_result(FrameBinaryOp::BitAnd, l, r) + exact_result(FrameBinaryOp::BitOr, l, r) == l + r,
        exact_result(FrameBinaryOp::BitXor, l, r) == exact_result(FrameBinaryOp::BitOr, l, r) - exact_result(
            FrameBinaryOp::BitAnd,
            l,
            r,
        ),
        exact_result(FrameBinaryOp::BitAnd, l, 0) == 0,
        exact_result(FrameBinaryOp::BitOr, l, 0) == l,
        exact_result(FrameBinaryOp::BitXor, l, l) == 0,
        is_int32(exact_result(FrameBinaryOp::BitAnd, l, r)),
        is_int32(exact_result(FrameBinaryOp::BitOr, l, r)),
        is_int32(exact_result(FrameBinaryOp::BitXor, l, r)),
{
    bits(l as i64, r as i64);
}

proof fn bits(a: i64, b: i64)
    requires
        -0x8000_0000 <= a <= 0x7fff_ffff,
        -0x8000_0000 <= b <= 0x7fff_ffff,
    ensures
        (a & b) + (a | b) == a + b,
        a ^ b == (a | b) - (a & b),
        a & 0 == 0,
        a | 0 == a,
        a ^ a == 0,
        -0x8000_0000 <= a & b <= 0x7fff_ffff,
        -0x8000_0000 <= a | b <= 0x7fff_ffff,
        -0x8000_0000 <= a ^ b <= 0x7fff_ffff,
{
    assert(-0x8000_0000 <= a <= 0x7fff_ffff && -0x8000_0000 <= b <= 0x7fff_ffff ==> {
        &&& -0x8000_0000 <= a & b <= 0x7fff_ffff
        &&& -0x8000_0000 <= a | b <= 0x7fff_ffff
        &&& -0x8000_0000 <= a ^ b <= 0x7fff_ffff
        &&& (a & b) + (a | b) == a + b
        &&& a ^ b == (a | b) - (a & b)
        &&& a & 0 == 0
        &&& a | 0 == a
        &&& a ^ a == 0
    }) by (bit_vector);
}

/// The sum, difference, product and quotient of two Int32 are those of the
/// integers. There is none where it is no Int32: it is out of range, not whole, or
/// the negative zero.
pub proof fn arithmetic_is_exact(l: int, r: int, x: int)
    requires
        is_int32(l),
        is_int32(r),
    ensures
        integer_result(ScalarBinaryOp::Add, l, r) == Some(x) <==> is_int32(x) && x == l + r,
        integer_result(ScalarBinaryOp::Sub, l, r) == Some(x) <==> is_int32(x) && x + r == l,
        integer_result(ScalarBinaryOp::Mul, l, r) == Some(x) <==> is_int32(x) && x == l * r && !is_negative_zero(l, r),
        integer_result(ScalarBinaryOp::Div, l, r) == Some(x) <==> is_int32(x) && r != 0 && x * r == l && !(l == 0 && r < 0),
{
    quotients(l, r, x);
}

proof fn quotients(l: int, r: int, x: int)
    requires
        is_int32(l),
        is_int32(r),
    ensures
        integer_result(ScalarBinaryOp::Div, l, r) == Some(x) <==> is_int32(x) && r != 0 && x * r == l && !(l == 0 && r < 0),
{
    if r != 0 {
        let q = crate::code::quotient(l, r);
        assert(-0x8000_0000 <= q <= 0x8000_0000 && (q == 0x8000_0000 ==> l == -0x8000_0000 && r == -1)) by (nonlinear_arith)
            requires
                q == crate::code::quotient(l, r),
                r != 0,
                -0x8000_0000 <= l <= 0x7fff_ffff,
                -0x8000_0000 <= r <= 0x7fff_ffff,
        ;
        if x * r == l {
            assert(q == x) by (nonlinear_arith)
                requires
                    q == crate::code::quotient(l, r),
                    r != 0,
                    x * r == l,
            ;
        }
        assert(r * q == q * r) by (nonlinear_arith);
    }
}

/// On Int32 operands the modes agree: a sum is the exact one where it is an
/// Int32. Where there is no Int32, Int32 code has no result, and code on numbers
/// has that of the doubles, by the operation of the same name.
pub proof fn modes_agree_on_integers(int32_loop: bool, l: int, r: int, w: World)
    requires
        is_int32(l),
        is_int32(r),
    ensures
        forall|op: ScalarBinaryOp|
            match integer_result(op, l, r) {
                Some(x) => #[trigger] binary_result(op, OperandMode::Int32, int32_loop, l, 0, r, 0, w) == Some((x, 0int)),
                None => binary_result(op, OperandMode::Int32, int32_loop, l, 0, r, 0, w) is None,
            },
        binary_result(ScalarBinaryOp::Add, OperandMode::Number, false, l, 0, r, 0, w) == (if is_int32(l + r) {
            Some((l + r, 0int))
        } else {
            Some(((w.float_binary)(FloatOp::Add, (w.float_of)(l), (w.float_of)(r)), 8int))
        }),
        binary_result(ScalarBinaryOp::Sub, OperandMode::Number, false, l, 0, r, 0, w) == Some(
            ((w.float_binary)(FloatOp::Sub, (w.float_of)(l), (w.float_of)(r)), 8int),
        ),
        binary_result(ScalarBinaryOp::Mul, OperandMode::Number, false, l, 0, r, 0, w) == Some(
            ((w.float_binary)(FloatOp::Mul, (w.float_of)(l), (w.float_of)(r)), 8int),
        ),
        binary_result(ScalarBinaryOp::Div, OperandMode::Number, false, l, 0, r, 0, w) == Some(
            ((w.float_binary)(FloatOp::Div, (w.float_of)(l), (w.float_of)(r)), 8int),
        ),
{
}

/// On doubles each operation is the one of the same name, with the operands in
/// their order, whether the operands are proven doubles or any numbers.
pub proof fn double_arithmetic_keeps_its_name(lp: int, rp: int, w: World)
    ensures
        forall|mode: OperandMode| mode != OperandMode::Int32 ==> #[trigger] binary_result(
            ScalarBinaryOp::Add,
            mode,
            false,
            lp,
            8,
            rp,
            8,
            w,
        ) == Some(((w.float_binary)(FloatOp::Add, lp, rp), 8int)),
        forall|mode: OperandMode| mode != OperandMode::Int32 ==> #[trigger] binary_result(
            ScalarBinaryOp::Sub,
            mode,
            false,
            lp,
            8,
            rp,
            8,
            w,
        ) == Some(((w.float_binary)(FloatOp::Sub, lp, rp), 8int)),
        forall|mode: OperandMode| mode != OperandMode::Int32 ==> #[trigger] binary_result(
            ScalarBinaryOp::Mul,
            mode,
            false,
            lp,
            8,
            rp,
            8,
            w,
        ) == Some(((w.float_binary)(FloatOp::Mul, lp, rp), 8int)),
        forall|mode: OperandMode| mode != OperandMode::Int32 ==> #[trigger] binary_result(
            ScalarBinaryOp::Div,
            mode,
            false,
            lp,
            8,
            rp,
            8,
            w,
        ) == Some(((w.float_binary)(FloatOp::Div, lp, rp), 8int)),
{
}

/// An Int32 and a double meet as doubles: the integer is converted, the double is
/// taken as it is.
pub proof fn mixed_numbers_meet_as_doubles(op: ScalarBinaryOp, i: int, d: int, w: World)
    requires
        is_int32(i),
    ensures
        number_of(i, 0, w) == (w.float_of)(i),
        number_of(d, 8, w) == d,
        binary_result(op, OperandMode::Number, false, i, 0, d, 8, w) == binary_result(
            op,
            OperandMode::Float64,
            false,
            (w.float_of)(i),
            8,
            d,
            8,
            w,
        ),
        binary_result(op, OperandMode::Number, false, d, 8, i, 0, w) == binary_result(
            op,
            OperandMode::Float64,
            false,
            d,
            8,
            (w.float_of)(i),
            8,
            w,
        ),
{
}

/// The checks of a mode admit its tags and no others.
pub proof fn checks_admit_their_mode(tag: int)
    ensures
        tag_fits(OperandMode::Int32, tag) <==> tag == 0,
        tag_fits(OperandMode::Float64, tag) <==> tag == 8,
        tag_fits(OperandMode::Number, tag) <==> tag_fits(OperandMode::Int32, tag) || tag_fits(OperandMode::Float64, tag),
{
}

/// Of two Int32 one is less, greater or equal, in raw loops and elsewhere.
pub proof fn comparisons_order_integers(int32_loop: bool, l: int, r: int, w: World)
    requires
        is_int32(l),
        is_int32(r),
    ensures
        comparison_of(ScalarCompareOp::LessThan, true, int32_loop, l, 0, r, 0, w) <==> l < r,
        comparison_of(ScalarCompareOp::GreaterThan, true, int32_loop, l, 0, r, 0, w) <==> r < l,
        comparison_of(ScalarCompareOp::LessEqual, true, int32_loop, l, 0, r, 0, w) <==> !comparison_of(
            ScalarCompareOp::GreaterThan,
            true,
            int32_loop,
            l,
            0,
            r,
            0,
            w,
        ),
        comparison_of(ScalarCompareOp::GreaterEqual, true, int32_loop, l, 0, r, 0, w) <==> !comparison_of(
            ScalarCompareOp::LessThan,
            true,
            int32_loop,
            l,
            0,
            r,
            0,
            w,
        ),
{
}

/// Other numbers are compared as doubles, by the comparison of the same name and
/// with the operands in their order.
pub proof fn comparisons_of_numbers_are_those_of_doubles(lp: int, lt: int, rp: int, rt: int, w: World)
    requires
        is_int32(lp) || lt != 0,
        is_int32(rp) || rt != 0,
    ensures
        ({
            let l = if lt == 0 { (w.float_of)(lp) } else { lp };
            let r = if rt == 0 { (w.float_of)(rp) } else { rp };
            &&& comparison_of(ScalarCompareOp::LessThan, false, false, lp, lt, rp, rt, w) == (w.float_holds)(FloatCc::LessThan, l, r)
            &&& comparison_of(ScalarCompareOp::LessEqual, false, false, lp, lt, rp, rt, w) == (w.float_holds)(
                FloatCc::LessThanOrEqual,
                l,
                r,
            )
            &&& comparison_of(ScalarCompareOp::GreaterThan, false, false, lp, lt, rp, rt, w) == (w.float_holds)(
                FloatCc::GreaterThan,
                l,
                r,
            )
            &&& comparison_of(ScalarCompareOp::GreaterEqual, false, false, lp, lt, rp, rt, w) == (w.float_holds)(
                FloatCc::GreaterThanOrEqual,
                l,
                r,
            )
        }),
{
}

/// A remainder is not negative, is less than the divisor's magnitude, and differs
/// from the dividend by a multiple of the divisor. There is one exactly where both
/// are Int32, the dividend is not negative and the divisor is not zero.
pub proof fn remainders_are_those_of_division(int32_loop: bool, l: int, lt: int, r: int, rt: int)
    requires
        is_int32(l),
        is_int32(r),
    ensures
        remainder_of(int32_loop, l, lt, r, rt) is Some <==> lt == 0 && rt == 0 && l >= 0 && r != 0,
        remainder_of(int32_loop, l, lt, r, rt) matches Some((x, tag)) ==> {
            &&& tag == 0
            &&& 0 <= x <= l
            &&& x < r || x < -r
            &&& exists|q: int| l == #[trigger] (q * r) + x
        },
{
    if lt == 0 && rt == 0 && l >= 0 && r != 0 {
        let m = if r > 0 { r } else { -r };
        let x = l % m;
        let q = if r > 0 { l / m } else { -(l / m) };
        assert(l == q * r + x && 0 <= x <= l) by (nonlinear_arith)
            requires
                l >= 0,
                m > 0,
                x == l % m,
                r > 0 && m == r && q == l / m || r < 0 && m == -r && q == -(l / m),
        ;
        assert(remainder_of(int32_loop, l, lt, r, rt) == Some((x, 0int)));
        assert(l == (q * r) + x);
    }
}

/// A sum of Int32 is exact where it is one. Otherwise a raw loop has none, and
/// numbers are added as doubles. What is no number is not added.
pub proof fn sums_are_exact(l: int, r: int, w: World)
    requires
        is_int32(l),
        is_int32(r),
    ensures
        sum_of(true, l, 0, r, 0, w) == (if is_int32(l + r) { Some((l + r, 0int)) } else { None }),
        int_sum_of(l, r) == sum_of(true, l, 0, r, 0, w),
        is_int32(l + r) ==> sum_of(false, l, 0, r, 0, w) == Some((l + r, 0int)),
        !is_int32(l + r) ==> sum_of(false, l, 0, r, 0, w) == Some(
            ((w.float_binary)(FloatOp::Add, (w.float_of)(l), (w.float_of)(r)), 8int),
        ),
        forall|d: int| #[trigger] sum_of(false, d, 8, r, 0, w) == Some(
            ((w.float_binary)(FloatOp::Add, d, (w.float_of)(r)), 8int),
        ),
        forall|d: int| #[trigger] sum_of(false, l, 0, d, 8, w) == Some(
            ((w.float_binary)(FloatOp::Add, (w.float_of)(l), d), 8int),
        ),
        forall|x: int, t: int, y: int, u: int|
            (t != 0 && t != 8) || (u != 0 && u != 8) ==> (#[trigger] sum_of(false, x, t, y, u, w)) is None,
{
}

/// An increment and a decrement undo each other, and move an Int32 by one. A
/// result that is no Int32 is a double, or there is none.
pub proof fn updates_move_by_their_step(int32_loop: bool, mode: OperandMode, bounded: bool, step: int, x: int, w: World)
    requires
        is_int32(x),
        is_int32(step),
        int32_loop ==> mode == OperandMode::Int32,
    ensures
        is_int32(x + step) ==> update_result(int32_loop, mode, bounded, step, x, 0, w) == Some((x + step, 0int)),
        !is_int32(x + step) && !(int32_loop && bounded) ==> update_result(int32_loop, mode, bounded, step, x, 0, w) == (if mode
            == OperandMode::Int32 {
            None
        } else {
            Some(((w.float_binary)(FloatOp::Add, (w.float_of)(x), (w.float_of)(step)), 8int))
        }),
        is_int32(x + step) && is_int32(-step) ==> update_result(int32_loop, mode, bounded, -step, x + step, 0, w) == Some(
            (x, 0int),
        ),
{
}

/// What `plus`, `neg`, `not` and `lnot` give for an Int32: itself, the number that
/// adds up with it to zero, the number that adds up with it to minus one, and
/// whether it is zero.
pub proof fn unary_operations_on_integers(int32_loop: bool, x: int, w: World)
    requires
        is_int32(x),
    ensures
        unary_result("plus"@, int32_loop, x, 0, w) == Some((x, 0int)),
        x != 0 && is_int32(-x) ==> unary_result("neg"@, int32_loop, x, 0, w) == Some((-x, 0int)),
        x == 0 || !is_int32(-x) ==> unary_result("neg"@, int32_loop, x, 0, w) == (if int32_loop {
            None
        } else {
            Some(((w.float_unary)(FloatUnaryOp::Neg, (w.float_of)(x)), 8int))
        }),
        unary_result("not"@, int32_loop, x, 0, w) == Some((-1 - x, 0int)),
        unary_result("lnot"@, int32_loop, x, 0, w) == Some((if x == 0 { 1int } else { 0 }, 1int)),
{
    spelling();
}

/// On a double, `plus` is the double, `neg` its negation, and `lnot` says that it
/// is a zero or no number at all, whatever its sign.
pub proof fn unary_operations_on_doubles(bits: int, w: World)
    requires
        -0x8000_0000_0000_0000 <= bits <= 0x7fff_ffff_ffff_ffff,
    ensures
        unary_result("plus"@, false, bits, 8, w) == Some((bits, 8int)),
        unary_result("neg"@, false, bits, 8, w) == Some(((w.float_unary)(FloatUnaryOp::Neg, bits), 8int)),
        unary_result("lnot"@, false, bits, 8, w) == Some(
            (
                if bits == 0 || bits == -0x8000_0000_0000_0000 || bits > 0x7ff0_0000_0000_0000 || -0x10_0000_0000_0000 < bits < 0 {
                    1int
                } else {
                    0
                },
                1int,
            ),
        ),
{
    spelling();
    let x = bits as i64;
    assert(x >= 0 ==> x & 0x7fff_ffff_ffff_ffff == x) by (bit_vector);
    assert(x < 0 ==> (x & 0x7fff_ffff_ffff_ffff) == x + 0x8000_0000_0000_0000) by (bit_vector);
}

/// On what is no number only `lnot` has a result: truth values are negated, and
/// `null` and `undefined` are false. References are left to the runtime.
pub proof fn unary_operations_on_other_values(int32_loop: bool, x: int, tag: int, w: World)
    requires
        is_int32(x),
        tag != 0,
        tag != 8,
    ensures
        unary_result("plus"@, int32_loop, x, tag, w) is None,
        unary_result("neg"@, int32_loop, x, tag, w) is None,
        unary_result("not"@, int32_loop, x, tag, w) is None,
        tag == 1 ==> unary_result("lnot"@, int32_loop, x, tag, w) == Some((if x == 0 { 1int } else { 0 }, 1int)),
        tag == 2 || tag == 3 ==> unary_result("lnot"@, int32_loop, x, tag, w) == Some((1int, 1int)),
        tag < 0 || tag > 3 ==> unary_result("lnot"@, int32_loop, x, tag, w) is None,
{
    spelling();
}

/// Strict equality holds of two Int32 that are the same, of two doubles that
/// compare as equal, of two equal truth values, and of `null` or `undefined` and
/// itself; of nothing else. Loose equality adds `null` and `undefined`, and leaves
/// truth values beside numbers to the runtime, as both leave references.
pub proof fn equality_by_type(strict: bool, lp: int, lt: int, rp: int, rt: int, w: World)
    requires
        is_int32(lp) || lt != 0 && lt != 1,
        is_int32(rp) || rt != 0 && rt != 1,
    ensures
        ({
            let e = equality_of(strict, false, lp, lt, rp, rt, w);
            let l = if lt == 0 { (w.float_of)(lp) } else { lp };
            let r = if rt == 0 { (w.float_of)(rp) } else { rp };
            let number = |t: int| t == 0 || t == 8;
            let empty = |t: int| t == 2 || t == 3;
            let primitive = |t: int| number(t) || t == 1 || empty(t);
            &&& !primitive(lt) || !primitive(rt) ==> e is None
            &&& number(lt) && number(rt) ==> e == Some((w.float_holds)(FloatCc::Equal, l, r))
            &&& lt == 1 && rt == 1 ==> e == Some(lp == rp)
            &&& empty(lt) && empty(rt) ==> e == Some(lt == rt || !strict)
            &&& empty(lt) && primitive(rt) && !empty(rt) || primitive(lt) && !empty(lt) && empty(rt) ==> e == Some(false)
            &&& lt == 1 && number(rt) || number(lt) && rt == 1 ==> e == (if strict { Some(false) } else { None })
        }),
{
}

/// In a raw loop Int32 are equal where their payloads are.
pub proof fn equality_in_raw_loops(strict: bool, l: int, r: int, w: World)
    ensures
        equality_of(strict, true, l, 0, r, 0, w) == Some(l == r),
{
}

/// Both, either, and one of two alone, bit by bit: what both have and what either
/// has add up to the operands.
pub proof fn bits_add_up(int32_loop: bool, l: int, r: int, w: World)
    requires
        is_int32(l),
        is_int32(r),
    ensures
        ({
            let both = bitwise_result(ScalarBitwiseOp::And, int32_loop, l, r, w);
            let either = bitwise_result(ScalarBitwiseOp::Or, int32_loop, l, r, w);
            let alone = bitwise_result(ScalarBitwiseOp::Xor, int32_loop, l, r, w);
            &&& both is Some && either is Some && alone is Some
            &&& both->Some_0.1 == 0 && either->Some_0.1 == 0 && alone->Some_0.1 == 0
            &&& both->Some_0.0 + either->Some_0.0 == l + r
            &&& alone->Some_0.0 == either->Some_0.0 - both->Some_0.0
        }),
        bitwise_result(ScalarBitwiseOp::And, int32_loop, l, 0, w) == Some((0int, 0int)),
        bitwise_result(ScalarBitwiseOp::Or, int32_loop, l, 0, w) == Some((l, 0int)),
        bitwise_result(ScalarBitwiseOp::Xor, int32_loop, l, l, w) == Some((0int, 0int)),
{
    bits(l as i64, r as i64);
    bits(l as i64, 0);
    bits(l as i64, l as i64);
}

/// A shift counts by the low five bits of its right operand. To the left it
/// multiplies, and keeps the low 32 bits; to the right it divides and rounds down,
/// with the sign or without. Without, the result may be too large for an Int32: it
/// is then a double, and a raw loop has none.
pub proof fn shifts_scale_by_powers_of_two(int32_loop: bool, l: int, r: int, w: World)
    requires
        is_int32(l),
        is_int32(r),
    ensures
        ({
            let power = two_to(r % 32);
            let left = bitwise_result(ScalarBitwiseOp::Shl, int32_loop, l, r, w);
            let right = bitwise_result(ScalarBitwiseOp::Sar, int32_loop, l, r, w);
            let unsigned = bitwise_result(ScalarBitwiseOp::Shr, int32_loop, l, r, w);
            let whole = if l < 0 { l + 0x1_0000_0000 } else { l };
            &&& left matches Some((x, tag)) && tag == 0 && is_int32(x) && (x - l * power) % 0x1_0000_0000 == 0
            &&& right matches Some((x, tag)) && tag == 0 && x * power <= l < (x + 1) * power
            &&& is_int32(whole / power) ==> unsigned == Some((whole / power, 0int))
            &&& !is_int32(whole / power) ==> unsigned == (if int32_loop {
                None
            } else {
                Some(((w.float_of)(whole / power), 8int))
            })
        }),
{
    let c = r % 32;
    low_five_bits(r);
    power_bounds(c);
    let power = two_to(c);
    assert((l / power) * power <= l < (l / power + 1) * power) by (nonlinear_arith)
        requires
            power >= 1,
    ;
    let whole = if l < 0 { l + 0x1_0000_0000 } else { l };
    assert(0 <= whole / power <= whole) by (nonlinear_arith)
        requires
            power >= 1,
            whole >= 0,
    ;
    let p = l * power;
    assert((crate::code::wrap(crate::code::Ty::I32, p) - p) % 0x1_0000_0000 == 0);
}

proof fn low_five_bits(r: int)
    requires
        is_int32(r),
    ensures
        crate::arithmetic::shift_count(r) == r % 32,
{
    let x = r as i64;
    assert(-0x8000_0000 <= x <= 0x7fff_ffff ==> x & 31 == x % 32) by (bit_vector);
}

proof fn power_bounds(c: int)
    requires
        0 <= c < 32,
    ensures
        1 <= two_to(c) <= 0x8000_0000,
{
    reveal_with_fuel(two_to, 33);
}

/// ToInt32 of an Int32 is itself. Of a double it is the low 32 bits of what is left
/// of the number without whole multiples of two to the thirty-second.
pub proof fn conversions_to_int32_drop_multiples(x: int, bits: int, w: World)
    requires
        is_int32(x),
    ensures
        to_int32(x, 0, w) == x,
        ({
            let modulus = 0x41f0_0000_0000_0000int;
            let whole = (w.float_unary)(FloatUnaryOp::Trunc, (w.float_binary)(FloatOp::Div, bits, modulus));
            let rest = (w.float_binary)(FloatOp::Sub, bits, (w.float_binary)(FloatOp::Mul, whole, modulus));
            let r = to_int32(bits, 8, w);
            is_int32((w.integer_of)(rest)) ==> r == (w.integer_of)(rest)
        }),
        is_int32(to_int32(bits, 8, w)),
{
}

/// A property key that needs no conversion is an Int32, a string or a symbol.
pub proof fn keys_need_no_conversion(tag: int)
    ensures
        is_property_key(tag) <==> tag == 0 || tag == -7 || tag == -8,
{
}

/// `not` on a double is `not` on its conversion to an Int32, and the two add up to
/// minus one.
pub proof fn complements_convert_first(bits: int, w: World)
    ensures
        unary_result("not"@, false, bits, 8, w) matches Some((x, tag)) && tag == 0 && x + to_int32(bits, 8, w) == -1,
{
    spelling();
}

} // verus!
