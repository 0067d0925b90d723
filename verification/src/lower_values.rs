//! Tagged values in emitted code.
use crate::code::agree;
use crate::code::binary_value;
use crate::code::in_range;
use crate::code::quiet;
use crate::code::truth;
use crate::code::unsigned;
use crate::code::value;
use crate::code::waits_for_known_blocks;
use crate::code::wrap;
use crate::code::BinaryOp;
use crate::code::kept;
use crate::code::Code;
use crate::code::ConvertOp;
use crate::code::Event;
use crate::code::FloatOp;
use crate::code::FloatUnaryOp;
use crate::code::IntCc;
use crate::code::State;
use crate::code::Status;
use crate::code::Ty;
use crate::code::World;
use crate::qjs::JS_TAG_BOOL;
use crate::qjs::JS_TAG_INT;
use crate::qjs::JS_TAG_UNDEFINED;
use crate::typing::steady;
use crate::typing::closing;
use crate::typing::calm;
use crate::assemble::Known;
use crate::code::kept_kinds;
use crate::frame_typing::pair_held;
use crate::frame_typing::slot_named;
use crate::frame_typing::slots_named;
use vstd::prelude::*;

verus! {

broadcast use {crate::typing::group_typing, crate::frame_typing::group_frame};

/// The payload and tag of a value, as positions in the code.
#[derive(Clone, Copy, Debug, PartialEq, Eq, Structural)]
pub struct OptPair {
    pub payload: usize,
    pub tag: usize,
}

/// The variables that hold the payload and tag of a frame slot.
#[derive(Clone, Copy, Debug, PartialEq, Eq, Structural)]
pub struct OptVars {
    pub payload: usize,
    pub tag: usize,
}

pub broadcast proof fn and_of_truths(ty: Ty, a: bool, b: bool)
    ensures
        #[trigger] binary_value(BinaryOp::And, ty, truth(a), truth(b)) == truth(a && b),
{
    assert(1i64 & 1i64 == 1) by (bit_vector);
    assert(1i64 & 0i64 == 0) by (bit_vector);
    assert(0i64 & 1i64 == 0) by (bit_vector);
    assert(0i64 & 0i64 == 0) by (bit_vector);
}

pub broadcast proof fn or_of_truths(ty: Ty, a: bool, b: bool)
    ensures
        #[trigger] binary_value(BinaryOp::Or, ty, truth(a), truth(b)) == truth(a || b),
{
    assert(1i64 | 1i64 == 1) by (bit_vector);
    assert(1i64 | 0i64 == 1) by (bit_vector);
    assert(0i64 | 1i64 == 1) by (bit_vector);
    assert(0i64 | 0i64 == 0) by (bit_vector);
}

pub broadcast proof fn negated_truth(ty: Ty, a: bool)
    ensures
        #[trigger] binary_value(BinaryOp::Xor, ty, truth(a), 1) == truth(!a),
{
    assert(1i64 ^ 1i64 == 0) by (bit_vector);
    assert(0i64 ^ 1i64 == 1) by (bit_vector);
}

pub broadcast group group_truths {
    and_of_truths,
    or_of_truths,
    negated_truth,
}

pub open spec fn vars_after(vars: Map<int, int>, slot: OptVars, payload: int, tag: int) -> Map<int, int> {
    vars.insert(slot.payload as int, payload).insert(slot.tag as int, tag)
}

/// Assigns a value to a frame slot.
pub fn opt_define(code: &mut Code, vars: OptVars, pair: OptPair)
    ensures
        kept(*old(code), *final(code)),
        old(code).names(vars.payload, old(code).kind(pair.payload as int)->Value_0)
            && old(code).valued(pair.payload) && old(code).names(vars.tag, Ty::I64)
            && old(code).holds(pair.tag, Ty::I64)
            ==> steady(*old(code), *final(code)),
        final(code).len() == old(code).len() + 2,
        forall|w: World| #[trigger]
            final(code).at(w) == (match old(code).at(w) {
                Status::Run(s) => Status::Run(
                    State { vars: vars_after(s.vars, vars, s.vals[pair.payload as int], s.vals[pair.tag as int]), ..s },
                ),
                st => st,
            }),
{
    code.def_var(vars.payload, pair.payload);
    code.def_var(vars.tag, pair.tag);
}

/// Reads a frame slot.
pub fn opt_use(code: &mut Code, vars: OptVars, payload_type: Ty) -> (r: OptPair)
    ensures
        kept(*old(code), *final(code)),
        slot_named(*old(code), vars, payload_type) ==> steady(*old(code), *final(code)),
        final(code).kind(r.payload as int) == Known::Value(payload_type),
        final(code).kind(r.tag as int) == Known::Value(Ty::I64),
        r.payload == old(code).len(),
        r.tag == old(code).len() + 1,
        final(code).len() == old(code).len() + 2,
        forall|w: World| #[trigger]
            final(code).at(w) == (match old(code).at(w) {
                Status::Run(s) => Status::Run(
                    s.define(r.payload as int, s.vars[vars.payload as int]).define(r.tag as int, s.vars[vars.tag as int]),
                ),
                st => st,
            }),
{
    let payload = code.use_var(vars.payload, payload_type);
    let tag = code.use_var(vars.tag, Ty::I64);
    OptPair { payload, tag }
}

/// The two loads that read the tagged value at `address`.
pub open spec fn pair_loads(trace: Seq<Event>, address: int, payload: int, tag: int) -> Seq<Event> {
    trace.push(Event::Load { ty: Ty::I64, address: wrap(Ty::I64, address), value: payload }).push(
        Event::Load { ty: Ty::I64, address: wrap(Ty::I64, address + 8), value: tag },
    )
}

/// The two stores that write a tagged value at `address`.
pub open spec fn pair_stores(trace: Seq<Event>, address: int, payload: int, tag: int) -> Seq<Event> {
    trace.push(Event::Store { ty: Ty::I64, address: wrap(Ty::I64, address), value: payload }).push(
        Event::Store { ty: Ty::I64, address: wrap(Ty::I64, address + 8), value: tag },
    )
}

/// Loads the value at `index` of a buffer of tagged values.
pub fn opt_load(code: &mut Code, base: usize, index: usize) -> (r: OptPair)
    requires
        index <= 0x7ff_fffe,
        base < old(code).len(),
    ensures
        kept(*old(code), *final(code)),
        old(code).holds(base, Ty::I64) ==> steady(*old(code), *final(code)),
        pair_held(*final(code), r),
        r.payload == old(code).len(),
        r.tag == old(code).len() + 1,
        final(code).len() == old(code).len() + 2,
        forall|w: World| #[trigger]
            final(code).at(w) == (match old(code).at(w) {
                Status::Run(s) => {
                    let payload = s.answer(Ty::I64, w);
                    let tag = wrap(Ty::I64, (w.observe)(s.trace.len() + 1int));
                    Status::Run(
                        State {
                            vals: s.vals.insert(r.payload as int, payload).insert(r.tag as int, tag),
                            trace: pair_loads(s.trace, s.vals[base as int] + index * 16, payload, tag),
                            ..s
                        },
                    )
                },
                st => st,
            }),
{
    let offset: i32 = index as i32 * 16;
    let payload = code.load(Ty::I64, base, offset);
    let tag = code.load(Ty::I64, base, offset + 8);
    OptPair { payload, tag }
}

/// Stores a value at a byte offset; the payload of the raw-i32 shape is
/// sign-extended first.
pub fn opt_store_at(code: &mut Code, base: usize, offset: i32, pair: OptPair, payload_type: Ty)
    requires
        0 <= offset <= 0x7fff_fff0,
        base < old(code).len(),
        pair.payload < old(code).len(),
        pair.tag < old(code).len(),
    ensures
        kept(*old(code), *final(code)),
        old(code).holds(base, Ty::I64) && old(code).holds(pair.payload, payload_type)
            && old(code).holds(pair.tag, Ty::I64) && (payload_type == Ty::I32 || payload_type == Ty::I64)
            ==> steady(*old(code), *final(code)),
        final(code).len() > old(code).len(),
        forall|w: World|
            match old(code).at(w) {
                Status::Run(s) => #[trigger] final(code).at(w) matches Status::Run(t) && t.vars == s.vars && t.trace
                    == pair_stores(
                    s.trace,
                    s.vals[base as int] + offset,
                    s.vals[pair.payload as int],
                    s.vals[pair.tag as int],
                ) && agree(s, t, old(code).len()),
                st => final(code).at(w) == st,
            },
{
    let payload: usize = if payload_type == Ty::I32 {
        code.convert(ConvertOp::SignExtend, Ty::I32, Ty::I64, pair.payload)
    } else {
        pair.payload
    };
    code.store(Ty::I64, payload, base, offset);
    code.store(Ty::I64, pair.tag, base, offset + 8);
}

/// Stores a value at `index` of a buffer of tagged values.
pub fn opt_store(code: &mut Code, base: usize, index: usize, pair: OptPair, payload_type: Ty)
    requires
        index <= 0x7ff_fffe,
        base < old(code).len(),
        pair.payload < old(code).len(),
        pair.tag < old(code).len(),
    ensures
        kept(*old(code), *final(code)),
        old(code).holds(base, Ty::I64) && old(code).holds(pair.payload, payload_type)
            && old(code).holds(pair.tag, Ty::I64) && (payload_type == Ty::I32 || payload_type == Ty::I64)
            ==> steady(*old(code), *final(code)),
        final(code).len() > old(code).len(),
        forall|w: World|
            match old(code).at(w) {
                Status::Run(s) => #[trigger] final(code).at(w) matches Status::Run(t) && t.vars == s.vars && t.trace
                    == pair_stores(
                    s.trace,
                    s.vals[base as int] + index * 16,
                    s.vals[pair.payload as int],
                    s.vals[pair.tag as int],
                ) && agree(s, t, old(code).len()),
                st => final(code).at(w) == st,
            },
{
    opt_store_at(code, base, index as i32 * 16, pair, payload_type)
}

/// The double that a number stands for.
pub open spec fn number_of(payload: int, tag: int, w: World) -> int {
    if tag == JS_TAG_INT {
        (w.float_of)(wrap(Ty::I32, payload))
    } else {
        payload
    }
}

/// The double of a value that is known to be a number.
pub fn opt_f64(code: &mut Code, pair: OptPair) -> (r: usize)
    requires
        pair.payload < old(code).len(),
        pair.tag < old(code).len(),
    ensures
        kept(*old(code), *final(code)),
        pair_held(*old(code), pair) ==> steady(*old(code), *final(code)),
        final(code).kind(r as int) == Known::Value(Ty::F64),
        old(code).len() <= r < final(code).len(),
        forall|w: World|
            #![trigger final(code).at(w)]
            quiet(old(code).at(w), final(code).at(w), old(code).len()) && (old(code).at(w) is Run ==> value(final(code).at(w), r)
                == number_of(value(old(code).at(w), pair.payload), value(old(code).at(w), pair.tag), w)),
{
    let is_int = code.compare_imm(IntCc::Equal, Ty::I64, pair.tag, JS_TAG_INT as i64);
    let integer = code.convert(ConvertOp::Reduce, Ty::I64, Ty::I32, pair.payload);
    let intf = code.convert(ConvertOp::FloatFromSigned, Ty::I32, Ty::F64, integer);
    let float = code.convert(ConvertOp::Bitcast, Ty::I64, Ty::F64, pair.payload);
    code.select(Ty::F64, is_int, intf, float)
}

pub fn opt_tag_is(code: &mut Code, tag: usize, expected: i32) -> (r: usize)
    ensures
        kept(*old(code), *final(code)),
        old(code).holds(tag, Ty::I64) ==> steady(*old(code), *final(code)),
        final(code).kind(r as int) == Known::Value(Ty::I8),
        r == old(code).len(),
        final(code).len() == old(code).len() + 1,
        forall|w: World| #[trigger]
            final(code).at(w) == (match old(code).at(w) {
                Status::Run(s) => Status::Run(s.define(r as int, truth(s.vals[tag as int] == expected))),
                st => st,
            }),
{
    code.compare_imm(IntCc::Equal, Ty::I64, tag, expected as i64)
}

/// The Int32 payload of a pair whose tag was (or is about to be) checked; in
/// the raw-i32 shape it is the payload itself.
pub fn opt_i32(code: &mut Code, int32_loop: bool, pair: OptPair) -> (r: usize)
    requires
        pair.payload < old(code).len(),
    ensures
        kept(*old(code), *final(code)),
        old(code).holds(pair.payload, if int32_loop { Ty::I32 } else { Ty::I64 }) ==> steady(*old(code), *final(code)),
        old(code).holds(pair.payload, if int32_loop { Ty::I32 } else { Ty::I64 }) ==> final(code).holds(r, Ty::I32),
        r < final(code).len(),
        old(code).len() <= final(code).len(),
        int32_loop ==> r == pair.payload,
        forall|w: World|
            #![trigger final(code).at(w)]
            quiet(old(code).at(w), final(code).at(w), old(code).len()) && (old(code).at(w) is Run ==> value(final(code).at(w), r)
                == if int32_loop {
                value(old(code).at(w), pair.payload)
            } else {
                wrap(Ty::I32, value(old(code).at(w), pair.payload))
            }),
{
    if int32_loop {
        pair.payload
    } else {
        code.convert(ConvertOp::Reduce, Ty::I64, Ty::I32, pair.payload)
    }
}

/// The tagged form of an Int32.
pub fn opt_int_pair(code: &mut Code, int32_loop: bool, integer: usize) -> (r: OptPair)
    requires
        integer < old(code).len(),
    ensures
        kept(*old(code), *final(code)),
        old(code).holds(integer, Ty::I32) ==> steady(*old(code), *final(code)),
        old(code).holds(integer, Ty::I32) ==> final(code).holds(r.payload, if int32_loop { Ty::I32 } else { Ty::I64 }),
        final(code).kind(r.tag as int) == Known::Value(Ty::I64),
        r.payload < final(code).len(),
        r.tag < final(code).len(),
        old(code).len() < final(code).len(),
        forall|w: World|
            #![trigger final(code).at(w)]
            quiet(old(code).at(w), final(code).at(w), old(code).len()) && (old(code).at(w) is Run ==> value(
                final(code).at(w),
                r.payload,
            ) == value(old(code).at(w), integer) && value(final(code).at(w), r.tag) == JS_TAG_INT),
{
    let payload: usize = if int32_loop {
        integer
    } else {
        code.convert(ConvertOp::SignExtend, Ty::I32, Ty::I64, integer)
    };
    let tag = code.iconst(Ty::I64, JS_TAG_INT as i64);
    OptPair { payload, tag }
}

/// The tagged form of a truth value.
pub fn opt_bool_pair(code: &mut Code, payload_type: Ty, flag: usize) -> (r: OptPair)
    requires
        flag < old(code).len(),
        payload_type == Ty::I32 || payload_type == Ty::I64,
    ensures
        kept(*old(code), *final(code)),
        old(code).holds(flag, Ty::I8) ==> steady(*old(code), *final(code)),
        final(code).kind(r.payload as int) == Known::Value(payload_type),
        final(code).kind(r.tag as int) == Known::Value(Ty::I64),
        r.payload == old(code).len(),
        r.tag == old(code).len() + 1,
        final(code).len() == old(code).len() + 2,
        forall|w: World|
            #![trigger final(code).at(w)]
            quiet(old(code).at(w), final(code).at(w), old(code).len()) && (old(code).at(w) is Run ==> value(
                final(code).at(w),
                r.payload,
            ) == wrap(payload_type, unsigned(Ty::I8, value(old(code).at(w), flag))) && value(final(code).at(w), r.tag)
                == JS_TAG_BOOL),
{
    let payload = code.convert(ConvertOp::ZeroExtend, Ty::I8, payload_type, flag);
    let tag = code.iconst(Ty::I64, JS_TAG_BOOL as i64);
    OptPair { payload, tag }
}

/// The bits of the double 2^32.
pub const TWO_TO_32_BITS: i64 = 0x41f0_0000_0000_0000;

/// ECMAScript ToInt32 of a number: an Int32 is itself; a double is reduced
/// modulo 2^32 by double arithmetic and truncated.
pub open spec fn to_int32(payload: int, tag: int, w: World) -> int {
    if tag == JS_TAG_INT {
        wrap(Ty::I32, payload)
    } else {
        let modulus = TWO_TO_32_BITS as int;
        let quotient = (w.float_unary)(FloatUnaryOp::Trunc, (w.float_binary)(FloatOp::Div, payload, modulus));
        let remainder = (w.float_binary)(FloatOp::Sub, payload, (w.float_binary)(FloatOp::Mul, quotient, modulus));
        wrap(Ty::I32, wrap(Ty::I64, (w.integer_of)(remainder)))
    }
}

/// ECMAScript ToInt32 of a value already proven Int32 or Float64.
pub fn opt_to_i32(code: &mut Code, pair: OptPair) -> (r: usize)
    requires
        pair.payload < old(code).len(),
        pair.tag < old(code).len(),
    ensures
        kept(*old(code), *final(code)),
        pair_held(*old(code), pair) ==> steady(*old(code), *final(code)),
        final(code).kind(r as int) == Known::Value(Ty::I32),
        old(code).len() <= r < final(code).len(),
        forall|w: World|
            #![trigger final(code).at(w)]
            quiet(old(code).at(w), final(code).at(w), old(code).len()) && (old(code).at(w) is Run ==> value(final(code).at(w), r)
                == to_int32(value(old(code).at(w), pair.payload), value(old(code).at(w), pair.tag), w)),
{
    let is_int = opt_tag_is(code, pair.tag, JS_TAG_INT);
    let direct = code.convert(ConvertOp::Reduce, Ty::I64, Ty::I32, pair.payload);
    let number = code.convert(ConvertOp::Bitcast, Ty::I64, Ty::F64, pair.payload);
    let modulus = code.float_const(TWO_TO_32_BITS);
    let quotient = code.float_binary(FloatOp::Div, number, modulus);
    let quotient = code.float_unary(FloatUnaryOp::Trunc, quotient);
    let multiple = code.float_binary(FloatOp::Mul, quotient, modulus);
    let remainder = code.float_binary(FloatOp::Sub, number, multiple);
    let converted = code.convert(ConvertOp::FloatToSigned, Ty::F64, Ty::I64, remainder);
    let converted = code.convert(ConvertOp::Reduce, Ty::I64, Ty::I32, converted);
    code.select(Ty::I32, is_int, direct, converted)
}

/// The value `undefined`.
pub fn undefined(code: &mut Code) -> (r: OptPair)
    ensures
        kept(*old(code), *final(code)),
        steady(*old(code), *final(code)),
        pair_held(*final(code), r),
        r.payload == old(code).len(),
        r.tag == old(code).len() + 1,
        final(code).len() == old(code).len() + 2,
        forall|w: World|
            #![trigger final(code).at(w)]
            quiet(old(code).at(w), final(code).at(w), old(code).len()) && (old(code).at(w) is Run ==> value(
                final(code).at(w),
                r.payload,
            ) == 0 && value(final(code).at(w), r.tag) == JS_TAG_UNDEFINED),
{
    let payload = code.iconst(Ty::I64, 0);
    let tag = code.iconst(Ty::I64, JS_TAG_UNDEFINED as i64);
    OptPair { payload, tag }
}

/// The address of element `index`, scaled in 64 bits: a 32-bit product would
/// wrap at 4 GiB.
pub fn element_address(code: &mut Code, base: usize, index: usize, stride: i64) -> (r: usize)
    requires
        base < old(code).len(),
        index < old(code).len(),
    ensures
        kept(*old(code), *final(code)),
        old(code).holds(base, Ty::I64) && old(code).holds(index, Ty::I32) ==> steady(*old(code), *final(code)),
        final(code).kind(r as int) == Known::Value(Ty::I64),
        r == old(code).len() + 2,
        final(code).len() == old(code).len() + 3,
        forall|w: World|
            #![trigger final(code).at(w)]
            quiet(old(code).at(w), final(code).at(w), old(code).len()) && (old(code).at(w) is Run ==> value(final(code).at(w), r)
                == wrap(
                Ty::I64,
                value(old(code).at(w), base) + wrap(
                    Ty::I64,
                    unsigned(Ty::I32, value(old(code).at(w), index)) * stride,
                ),
            )),
{
    let wide = code.convert(ConvertOp::ZeroExtend, Ty::I32, Ty::I64, index);
    let offset = code.binary_imm(BinaryOp::Mul, Ty::I64, wide, stride);
    code.binary(BinaryOp::Add, Ty::I64, base, offset)
}

/// The address of an element whose index was checked is exact: neither the
/// scaling nor the sum wraps where the array lies in the address space.
pub proof fn element_address_is_exact(base: int, index: int, stride: int)
    requires
        0 <= index < 0x8000_0000,
        0 <= stride <= 16,
        0 <= base,
        base + index * stride < 0x8000_0000_0000_0000,
    ensures
        wrap(Ty::I64, base + wrap(Ty::I64, unsigned(Ty::I32, index) * stride)) == base + index * stride,
{
    assert(0 <= index * stride < 0x8_0000_0000) by (nonlinear_arith)
        requires
            0 <= index < 0x8000_0000,
            0 <= stride <= 16,
    ;
}

/// The operations of inlined bytecode.
#[derive(Clone, Copy, Debug, PartialEq, Eq, Structural)]
pub enum FrameBinaryOp {
    Add,
    Sub,
    Mul,
    Div,
    Mod,
    BitAnd,
    BitOr,
    BitXor,
    Shl,
    Sar,
    Shr,
    LessThan,
    LessThanOrEqual,
    GreaterThan,
    GreaterThanOrEqual,
    Equal,
    NotEqual,
    StrictEqual,
    StrictNotEqual,
}

pub open spec fn is_arithmetic(op: FrameBinaryOp) -> bool {
    op == FrameBinaryOp::Add || op == FrameBinaryOp::Sub || op == FrameBinaryOp::Mul
}

pub open spec fn has_checked_form(op: FrameBinaryOp) -> bool {
    match op {
        FrameBinaryOp::Div | FrameBinaryOp::Mod | FrameBinaryOp::Shl | FrameBinaryOp::Sar | FrameBinaryOp::Shr => false,
        _ => true,
    }
}

pub open spec fn exact_result(op: FrameBinaryOp, l: int, r: int) -> int {
    match op {
        FrameBinaryOp::Add => l + r,
        FrameBinaryOp::Sub => l - r,
        FrameBinaryOp::Mul => l * r,
        FrameBinaryOp::BitAnd => (l as i64 & r as i64) as int,
        FrameBinaryOp::BitOr => (l as i64 | r as i64) as int,
        FrameBinaryOp::BitXor => (l as i64 ^ r as i64) as int,
        FrameBinaryOp::LessThan => truth(l < r),
        FrameBinaryOp::LessThanOrEqual => truth(l <= r),
        FrameBinaryOp::GreaterThan => truth(l > r),
        FrameBinaryOp::GreaterThanOrEqual => truth(l >= r),
        FrameBinaryOp::Equal | FrameBinaryOp::StrictEqual => truth(l == r),
        FrameBinaryOp::NotEqual | FrameBinaryOp::StrictNotEqual => truth(l != r),
        _ => 0,
    }
}

/// The operation on two Int32 yields one: arithmetic does not overflow, and a
/// product is not negative zero.
pub open spec fn stays_integer(op: FrameBinaryOp, l: int, r: int) -> bool {
    &&& is_arithmetic(op) ==> in_range(Ty::I32, exact_result(op, l, r))
    &&& op == FrameBinaryOp::Mul ==> !(l * r == 0 && (l < 0) != (r < 0))
}

pub open spec fn result_tag(op: FrameBinaryOp) -> int {
    if is_arithmetic(op) || op == FrameBinaryOp::BitAnd || op == FrameBinaryOp::BitOr || op == FrameBinaryOp::BitXor {
        JS_TAG_INT as int
    } else {
        JS_TAG_BOOL as int
    }
}

/// Both operands are Int32 and the result is one, or a truth value.
pub open spec fn checked_applies(op: FrameBinaryOp, s: State, lhs: OptPair, rhs: OptPair) -> bool {
    &&& s.vals[lhs.tag as int] == JS_TAG_INT
    &&& s.vals[rhs.tag as int] == JS_TAG_INT
    &&& stays_integer(op, wrap(Ty::I32, s.vals[lhs.payload as int]), wrap(Ty::I32, s.vals[rhs.payload as int]))
}

proof fn sign_of_xor(l: int, r: int)
    requires
        in_range(Ty::I64, l),
        in_range(Ty::I64, r),
    ensures
        (binary_value(BinaryOp::Xor, Ty::I64, l, r) < 0) == ((l < 0) != (r < 0)),
{
    let a = l as i64;
    let b = r as i64;
    assert((a ^ b < 0) == ((a < 0) != (b < 0))) by (bit_vector);
}

/// Control is at the block `target`, with the same variables and nothing observed.
pub open spec fn left_for(st: Status, st2: Status, target: usize, n: int) -> bool {
    st2 matches Status::Wait { block, args, state } && block == target && args.len() == 0 && quiet(st, Status::Run(state), n)
}

/// The sign-extended Int32 payloads of two values; control leaves for `failed`
/// where one is no Int32.
fn int_operands(code: &mut Code, lhs: OptPair, rhs: OptPair, failed: usize) -> (r: (usize, usize))
    requires
        failed < old(code).len(),
        lhs.payload < old(code).len(),
        lhs.tag < old(code).len(),
        rhs.payload < old(code).len(),
        rhs.tag < old(code).len(),
    ensures
        kept(*old(code), *final(code)),
        pair_held(*old(code), lhs) && pair_held(*old(code), rhs) && old(code).blocked(failed)
            ==> steady(*old(code), *final(code)),
        final(code).kind(r.0 as int) == Known::Value(Ty::I64),
        final(code).kind(r.1 as int) == Known::Value(Ty::I64),
        r.0 < final(code).len(),
        r.1 < final(code).len(),
        old(code).len() < final(code).len(),
        forall|w: World|
            #![trigger final(code).at(w)]
            match old(code).at(w) {
                Status::Run(s) => if s.vals[lhs.tag as int] == JS_TAG_INT && s.vals[rhs.tag as int] == JS_TAG_INT {
                    &&& quiet(Status::Run(s), final(code).at(w), old(code).len())
                    &&& value(final(code).at(w), r.0) == wrap(Ty::I32, s.vals[lhs.payload as int])
                    &&& value(final(code).at(w), r.1) == wrap(Ty::I32, s.vals[rhs.payload as int])
                } else {
                    left_for(Status::Run(s), final(code).at(w), failed, old(code).len())
                },
                st => final(code).at(w) == st,
            },
{
    broadcast use group_truths;

    let li = code.compare_imm(IntCc::Equal, Ty::I64, lhs.tag, JS_TAG_INT as i64);
    let ri = code.compare_imm(IntCc::Equal, Ty::I64, rhs.tag, JS_TAG_INT as i64);
    let valid = code.binary(BinaryOp::And, Ty::I8, li, ri);
    let compute = code.new_block();
    code.branch(valid, compute, failed);
    let _ = code.switch_to(compute);
    let l = code.convert(ConvertOp::Reduce, Ty::I64, Ty::I32, lhs.payload);
    let r = code.convert(ConvertOp::Reduce, Ty::I64, Ty::I32, rhs.payload);
    let l = code.convert(ConvertOp::SignExtend, Ty::I32, Ty::I64, l);
    let r = code.convert(ConvertOp::SignExtend, Ty::I32, Ty::I64, r);
    proof {
        assert forall|w: World|
            #![trigger code.at(w)]
            match old(code).at(w) {
                Status::Run(s) => if s.vals[lhs.tag as int] == JS_TAG_INT && s.vals[rhs.tag as int] == JS_TAG_INT {
                    &&& quiet(Status::Run(s), code.at(w), old(code).len())
                    &&& value(code.at(w), l) == wrap(Ty::I32, s.vals[lhs.payload as int])
                    &&& value(code.at(w), r) == wrap(Ty::I32, s.vals[rhs.payload as int])
                } else {
                    left_for(Status::Run(s), code.at(w), failed, old(code).len())
                },
                st => code.at(w) == st,
            } by {
            waits_for_known_blocks(old(code).insts@, w);
        }
    }
    (l, r)
}

/// A sum, difference or product of two sign-extended Int32; control leaves for
/// `failed` where the JavaScript result is no Int32.
fn checked_arithmetic(code: &mut Code, op: FrameBinaryOp, l: usize, r: usize, failed: usize) -> (x: usize)
    requires
        is_arithmetic(op),
        failed < old(code).len(),
        l < old(code).len(),
        r < old(code).len(),
    ensures
        kept(*old(code), *final(code)),
        old(code).holds(l, Ty::I64) && old(code).holds(r, Ty::I64) && old(code).blocked(failed)
            ==> steady(*old(code), *final(code)),
        final(code).kind(x as int) == Known::Value(Ty::I64),
        x < final(code).len(),
        old(code).len() < final(code).len(),
        forall|w: World|
            #![trigger final(code).at(w)]
            match old(code).at(w) {
                Status::Run(s) => in_range(Ty::I32, s.vals[l as int]) && in_range(Ty::I32, s.vals[r as int]) ==> if stays_integer(
                    op,
                    s.vals[l as int],
                    s.vals[r as int],
                ) {
                    &&& quiet(Status::Run(s), final(code).at(w), old(code).len())
                    &&& value(final(code).at(w), x) == exact_result(op, s.vals[l as int], s.vals[r as int])
                } else {
                    left_for(Status::Run(s), final(code).at(w), failed, old(code).len())
                },
                st => final(code).at(w) == st,
            },
{
    broadcast use group_truths;

    let wide_op: BinaryOp = match op {
        FrameBinaryOp::Add => BinaryOp::Add,
        FrameBinaryOp::Sub => BinaryOp::Sub,
        _ => BinaryOp::Mul,
    };
    let wide = code.binary(wide_op, Ty::I64, l, r);
    let narrow = code.convert(ConvertOp::Reduce, Ty::I64, Ty::I32, wide);
    let extended = code.convert(ConvertOp::SignExtend, Ty::I32, Ty::I64, narrow);
    let mut fits = code.compare(IntCc::Equal, Ty::I64, wide, extended);
    if op == FrameBinaryOp::Mul {
        let zero = code.compare_imm(IntCc::Equal, Ty::I64, wide, 0);
        let signs = code.binary(BinaryOp::Xor, Ty::I64, l, r);
        let negative = code.compare_imm(IntCc::SignedLessThan, Ty::I64, signs, 0);
        let negative_zero = code.binary(BinaryOp::And, Ty::I8, zero, negative);
        let nonnegative_zero = code.compare_imm(IntCc::Equal, Ty::I8, negative_zero, 0);
        fits = code.binary(BinaryOp::And, Ty::I8, fits, nonnegative_zero);
    }
    let ghost tested = *code;
    proof {
        assert forall|w: World|
            #![trigger tested.at(w)]
            match old(code).at(w) {
                Status::Run(s) => in_range(Ty::I32, s.vals[l as int]) && in_range(Ty::I32, s.vals[r as int]) ==> {
                    &&& quiet(Status::Run(s), tested.at(w), old(code).len())
                    &&& value(tested.at(w), fits) == truth(stays_integer(op, s.vals[l as int], s.vals[r as int]))
                    &&& stays_integer(op, s.vals[l as int], s.vals[r as int]) ==> value(tested.at(w), extended) == exact_result(
                        op,
                        s.vals[l as int],
                        s.vals[r as int],
                    )
                },
                st => tested.at(w) == st,
            } by {
            if let Status::Run(s) = old(code).at(w) {
                let x = s.vals[l as int];
                let y = s.vals[r as int];
                if in_range(Ty::I32, x) && in_range(Ty::I32, y) {
                    assert(-0x4000_0000_0000_0000 <= x * y <= 0x4000_0000_0000_0000) by (nonlinear_arith)
                        requires
                            -0x8000_0000 <= x < 0x8000_0000,
                            -0x8000_0000 <= y < 0x8000_0000,
                    ;
                    sign_of_xor(x, y);
                }
            }
        }
    }
    let success = code.new_block();
    code.branch(fits, success, failed);
    let _ = code.switch_to(success);
    proof {
        assert forall|w: World|
            #![trigger code.at(w)]
            match old(code).at(w) {
                Status::Run(s) => in_range(Ty::I32, s.vals[l as int]) && in_range(Ty::I32, s.vals[r as int]) ==> if stays_integer(
                    op,
                    s.vals[l as int],
                    s.vals[r as int],
                ) {
                    &&& quiet(Status::Run(s), code.at(w), old(code).len())
                    &&& value(code.at(w), extended) == exact_result(op, s.vals[l as int], s.vals[r as int])
                } else {
                    left_for(Status::Run(s), code.at(w), failed, old(code).len())
                },
                st => code.at(w) == st,
            } by {
            waits_for_known_blocks(old(code).insts@, w);
            let t = tested.at(w);
        }
    }
    extended
}

/// An operation on two Int32 with the exact JavaScript result. Where an operand
/// is no Int32 or the result is not one, control leaves for `failed` before
/// anything is written.
pub fn checked_binary(code: &mut Code, op: FrameBinaryOp, lhs: OptPair, rhs: OptPair, failed: usize) -> (r: Option<OptPair>)
    requires
        failed < old(code).len(),
        lhs.payload < old(code).len(),
        lhs.tag < old(code).len(),
        rhs.payload < old(code).len(),
        rhs.tag < old(code).len(),
    ensures
        kept(*old(code), *final(code)),
        pair_held(*old(code), lhs) && pair_held(*old(code), rhs) && old(code).blocked(failed)
            ==> steady(*old(code), *final(code)),
        r matches Some(pair) ==> pair_held(*final(code), pair),
        r is Some <==> has_checked_form(op),
        r is None ==> final(code).insts@ == old(code).insts@,
        r matches Some(pair) ==> {
            &&& pair.payload < final(code).len()
            &&& pair.tag < final(code).len()
            &&& old(code).len() < final(code).len()
            &&& forall|w: World|
                #![trigger final(code).at(w)]
                match old(code).at(w) {
                    Status::Run(s) => if checked_applies(op, s, lhs, rhs) {
                        &&& quiet(Status::Run(s), final(code).at(w), old(code).len())
                        &&& value(final(code).at(w), pair.payload) == exact_result(
                            op,
                            wrap(Ty::I32, s.vals[lhs.payload as int]),
                            wrap(Ty::I32, s.vals[rhs.payload as int]),
                        )
                        &&& value(final(code).at(w), pair.tag) == result_tag(op)
                    } else {
                        left_for(Status::Run(s), final(code).at(w), failed, old(code).len())
                    },
                    st => final(code).at(w) == st,
                }
        },
{
    match op {
        FrameBinaryOp::Div | FrameBinaryOp::Mod | FrameBinaryOp::Shl | FrameBinaryOp::Sar | FrameBinaryOp::Shr => {
            return None;
        },
        _ => {},
    }
    let (l, r) = int_operands(code, lhs, rhs, failed);
    let (payload, tag): (usize, i32) = match op {
        FrameBinaryOp::Add | FrameBinaryOp::Sub | FrameBinaryOp::Mul => (
            checked_arithmetic(code, op, l, r, failed),
            JS_TAG_INT,
        ),
        FrameBinaryOp::BitAnd => (code.binary(BinaryOp::And, Ty::I64, l, r), JS_TAG_INT),
        FrameBinaryOp::BitOr => (code.binary(BinaryOp::Or, Ty::I64, l, r), JS_TAG_INT),
        FrameBinaryOp::BitXor => (code.binary(BinaryOp::Xor, Ty::I64, l, r), JS_TAG_INT),
        _ => {
            let cc: IntCc = match op {
                FrameBinaryOp::LessThan => IntCc::SignedLessThan,
                FrameBinaryOp::LessThanOrEqual => IntCc::SignedLessThanOrEqual,
                FrameBinaryOp::GreaterThan => IntCc::SignedGreaterThan,
                FrameBinaryOp::GreaterThanOrEqual => IntCc::SignedGreaterThanOrEqual,
                FrameBinaryOp::Equal | FrameBinaryOp::StrictEqual => IntCc::Equal,
                _ => IntCc::NotEqual,
            };
            let boolean = code.compare(cc, Ty::I64, l, r);
            (code.convert(ConvertOp::ZeroExtend, Ty::I8, Ty::I64, boolean), JS_TAG_BOOL)
        },
    };
    let tag_value = code.iconst(Ty::I64, tag as i64);
    Some(OptPair { payload, tag: tag_value })
}

} // verus!
