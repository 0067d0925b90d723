//! Arithmetic, comparison and conversion with exact JavaScript results.
use crate::code::binary_value;
use crate::code::in_range;
use crate::code::quiet;
use crate::code::truth;
use crate::code::unsigned;
use crate::code::value;
use crate::code::wrap;
use crate::code::BinaryOp;
use crate::code::kept;
use crate::code::Code;
use crate::code::ConvertOp;
use crate::code::FloatCc;
use crate::code::FloatOp;
use crate::code::FloatUnaryOp;
use crate::code::IntCc;
use crate::code::State;
use crate::code::Status;
use crate::code::Ty;
use crate::code::UnaryOp;
use crate::code::World;
use crate::control::CompileFailure;
use crate::exits::deopt_trace;
use crate::exits::emit_opt_guard_branch;
use crate::exits::own_failure;
use crate::exits::own_failures;
use crate::exits::placed_failure;
use crate::exits::same_deopt;
use crate::exits::stack_ownable;
use crate::frame::exits_with;
use crate::frame::runs_on;
use crate::frame::OptEnv;
use crate::lower_values::group_truths;
use crate::lower_values::number_of;
use crate::lower_values::opt_bool_pair;
use crate::lower_values::opt_define;
use crate::lower_values::opt_f64;
use crate::lower_values::opt_i32;
use crate::lower_values::opt_int_pair;
use crate::lower_values::opt_tag_is;
use crate::lower_values::opt_to_i32;
use crate::lower_values::opt_use;
use crate::lower_values::to_int32;
use crate::lower_values::vars_after;
use crate::lower_values::OptPair;
use crate::names::name_is;
use crate::provenance::OptProvenance;
use crate::qjs::JS_TAG_BOOL;
use crate::qjs::JS_TAG_FLOAT64;
use crate::qjs::JS_TAG_INT;
use crate::qjs::JS_TAG_NULL;
use crate::qjs::JS_TAG_STRING;
use crate::qjs::JS_TAG_SYMBOL;
use crate::qjs::JS_TAG_UNDEFINED;
use crate::specialization::ScalarNumericMode;
use crate::typing::steady;
use crate::typing::closing;
use crate::typing::calm;
use crate::assemble::Known;
use crate::frame_typing::pair_held;
use crate::frame_typing::slot_named;
use crate::frame_typing::slots_named;
use crate::frame_typing::cached_named;
use crate::frame_typing::cache_named;
use vstd::prelude::*;

verus! {

broadcast use {crate::typing::group_typing, crate::frame_typing::group_frame};

pub open spec fn is_number(tag: int) -> bool {
    tag == JS_TAG_INT || tag == JS_TAG_FLOAT64
}

/// The deoptimization of the instruction at `pc`.
pub open spec fn deopts(
    env: OptEnv<'_>,
    st: Status,
    s: State,
    provenance: Seq<OptProvenance>,
    depth: int,
    pc: u32,
    guard: u32,
    w: World,
) -> bool {
    exits_with(st, deopt_trace(env, s, s.vars, s.trace, provenance, depth as nat, pc, guard, w))
}

pub open spec fn may_deopt(env: OptEnv<'_>, provenance: Seq<OptProvenance>, depth: int) -> bool {
    env.int32_loop || stack_ownable(env, provenance, depth)
}

/// The sum of two tagged values, where both are numbers. In the raw-i32 shape
/// both are Int32, and a sum that is none cannot be represented.
pub open spec fn sum_of(int32_loop: bool, lp: int, lt: int, rp: int, rt: int, w: World) -> Option<(int, int)> {
    if int32_loop {
        if in_range(Ty::I32, lp + rp) {
            Some((lp + rp, JS_TAG_INT as int))
        } else {
            None
        }
    } else if is_number(lt) && is_number(rt) {
        let exact = wrap(Ty::I32, lp) + wrap(Ty::I32, rp);
        if lt == JS_TAG_INT && rt == JS_TAG_INT && in_range(Ty::I32, exact) {
            Some((exact, JS_TAG_INT as int))
        } else {
            Some(((w.float_binary)(FloatOp::Add, number_of(lp, lt, w), number_of(rp, rt, w)), JS_TAG_FLOAT64 as int))
        }
    } else {
        None
    }
}

/// Control goes on with the value `r`, or the instruction deoptimizes.
pub open spec fn pair_post(
    env: OptEnv<'_>,
    st2: Status,
    s: State,
    n: int,
    expected: Option<(int, int)>,
    r: OptPair,
    provenance: Seq<OptProvenance>,
    depth: int,
    pc: u32,
    guard: u32,
    w: World,
) -> bool {
    match expected {
        Some((payload, tag)) => runs_on(st2, s, n, s.vars, s.trace) && value(st2, r.payload) == payload && value(st2, r.tag)
            == tag,
        None => deopts(env, st2, s, provenance, depth, pc, guard, w),
    }
}

/// `lhs + rhs` with exact JavaScript semantics: Int32 + Int32 stays Int32
/// unless it overflows into a double, any other numeric mix is a double sum,
/// and other operands deoptimize before any effect.
#[verifier::spinoff_prover]
#[verifier::rlimit(90)]
pub fn emit_opt_checked_add(
    code: &mut Code,
    env: &OptEnv<'_>,
    provenance: &Vec<OptProvenance>,
    depth: usize,
    lhs: OptPair,
    rhs: OptPair,
    pc: u32,
    guard: u32,
) -> (r: Result<OptPair, CompileFailure>)
    requires
        env.wf(old(code).len()),
        depth <= env.stack@.len(),
        lhs.payload < old(code).len(),
        lhs.tag < old(code).len(),
        rhs.payload < old(code).len(),
        rhs.tag < old(code).len(),
    ensures
        kept(*old(code), *final(code)),
        r is Ok && env.typed(*old(code)) && pair_held(*old(code), lhs) && pair_held(*old(code), rhs)
            ==> steady(*old(code), *final(code)),
        r is Ok && env.typed(*old(code)) && pair_held(*old(code), lhs) && pair_held(*old(code), rhs)
            ==> pair_held(*final(code), r->Ok_0),
        r is Ok <==> may_deopt(*env, provenance@, depth as int),
        r matches Err(e) ==> e == own_failure(*env, provenance@, depth as int),
        final(code).len() >= old(code).len(),
        r matches Ok(pair) ==> pair.payload < final(code).len() && pair.tag < final(code).len() && forall|w: World|
            #![trigger final(code).at(w)]
            match old(code).at(w) {
                Status::Run(s) => pair_post(
                    *env,
                    final(code).at(w),
                    s,
                    old(code).len(),
                    sum_of(
                        env.int32_loop,
                        s.vals[lhs.payload as int],
                        s.vals[lhs.tag as int],
                        s.vals[rhs.payload as int],
                        s.vals[rhs.tag as int],
                        w,
                    ),
                    pair,
                    provenance@,
                    depth as int,
                    pc,
                    guard,
                    w,
                ),
                st => final(code).at(w) == st,
            },
{
    broadcast use group_truths;

    if env.int32_loop {
        // Every value in the raw-i32 loop shape is a proven Int32, so only the
        // overflow exit remains.
        let (sum, overflow) = code.overflowing(BinaryOp::Add, Ty::I32, lhs.payload, rhs.payload);
        let fits = code.binary_imm(BinaryOp::Xor, Ty::I8, overflow, 1);
        let ghost c1 = *code;
        if let Err(e) = emit_opt_guard_branch(code, env, provenance, depth, pc, guard, fits) {
            return Err(e);
        }
        let ghost c2 = *code;
        let pair = opt_int_pair(code, true, sum);
        proof {
            assert forall|w: World|
                #![trigger code.at(w)]
                match old(code).at(w) {
                    Status::Run(s) => pair_post(
                        *env,
                        code.at(w),
                        s,
                        old(code).len(),
                        sum_of(
                            env.int32_loop,
                            s.vals[lhs.payload as int],
                            s.vals[lhs.tag as int],
                            s.vals[rhs.payload as int],
                            s.vals[rhs.tag as int],
                            w,
                        ),
                        pair,
                        provenance@,
                        depth as int,
                        pc,
                        guard,
                        w,
                    ),
                    st => code.at(w) == st,
                } by {
                let a1 = c1.at(w);
                let a2 = c2.at(w);
                if let Status::Run(s) = old(code).at(w) {
                    same_deopt(*env, s, a1->Run_0, provenance@, depth as nat, pc, guard, w);
                }
            }
        }
        return Ok(pair);
    }
    let lhs_int = opt_tag_is(code, lhs.tag, JS_TAG_INT);
    let rhs_int = opt_tag_is(code, rhs.tag, JS_TAG_INT);
    let both_int = code.binary(BinaryOp::And, Ty::I8, lhs_int, rhs_int);
    let lhs_float = opt_tag_is(code, lhs.tag, JS_TAG_FLOAT64);
    let rhs_float = opt_tag_is(code, rhs.tag, JS_TAG_FLOAT64);
    let lhs_numeric = code.binary(BinaryOp::Or, Ty::I8, lhs_int, lhs_float);
    let rhs_numeric = code.binary(BinaryOp::Or, Ty::I8, rhs_int, rhs_float);
    let numeric = code.binary(BinaryOp::And, Ty::I8, lhs_numeric, rhs_numeric);
    let ghost c1 = *code;
    if let Err(e) = emit_opt_guard_branch(code, env, provenance, depth, pc, guard, numeric) {
        return Err(e);
    }
    let ghost c2 = *code;
    let li = code.convert(ConvertOp::Reduce, Ty::I64, Ty::I32, lhs.payload);
    let ri = code.convert(ConvertOp::Reduce, Ty::I64, Ty::I32, rhs.payload);
    let (sum, overflow) = code.overflowing(BinaryOp::Add, Ty::I32, li, ri);
    let no_overflow = code.binary_imm(BinaryOp::Xor, Ty::I8, overflow, 1);
    let keep_int = code.binary(BinaryOp::And, Ty::I8, both_int, no_overflow);
    let ghost c3 = *code;
    let lf = opt_f64(code, lhs);
    let ghost c4 = *code;
    let rf = opt_f64(code, rhs);
    let ghost c5 = *code;
    let float_sum = code.float_binary(FloatOp::Add, lf, rf);
    let int_payload = code.convert(ConvertOp::SignExtend, Ty::I32, Ty::I64, sum);
    let float_payload = code.convert(ConvertOp::Bitcast, Ty::F64, Ty::I64, float_sum);
    let int_tag = code.iconst(Ty::I64, JS_TAG_INT as i64);
    let float_tag = code.iconst(Ty::I64, JS_TAG_FLOAT64 as i64);
    let payload = code.select(Ty::I64, keep_int, int_payload, float_payload);
    let tag = code.select(Ty::I64, keep_int, int_tag, float_tag);
    let pair = OptPair { payload, tag };
    proof {
        assert forall|w: World|
            #![trigger code.at(w)]
            match old(code).at(w) {
                Status::Run(s) => pair_post(
                    *env,
                    code.at(w),
                    s,
                    old(code).len(),
                    sum_of(
                        env.int32_loop,
                        s.vals[lhs.payload as int],
                        s.vals[lhs.tag as int],
                        s.vals[rhs.payload as int],
                        s.vals[rhs.tag as int],
                        w,
                    ),
                    pair,
                    provenance@,
                    depth as int,
                    pc,
                    guard,
                    w,
                ),
                st => code.at(w) == st,
            } by {
            let a1 = c1.at(w);
            let a2 = c2.at(w);
            let a3 = c3.at(w);
            let a4 = c4.at(w);
            let a5 = c5.at(w);
            if let Status::Run(s) = old(code).at(w) {
                same_deopt(*env, s, a1->Run_0, provenance@, depth as nat, pc, guard, w);
            }
        }
    }
    Ok(pair)
}

/// The sum of two values of which both are known to be Int32.
pub open spec fn int_sum_of(lp: int, rp: int) -> Option<(int, int)> {
    let exact = wrap(Ty::I32, lp) + wrap(Ty::I32, rp);
    if in_range(Ty::I32, exact) {
        Some((exact, JS_TAG_INT as int))
    } else {
        None
    }
}

/// `lhs + rhs` for an update. Where the operands are known to be Int32, only
/// the overflow exit remains.
#[verifier::spinoff_prover]
#[verifier::rlimit(60)]
pub fn emit_opt_checked_update(
    code: &mut Code,
    env: &OptEnv<'_>,
    mode: ScalarNumericMode,
    provenance: &Vec<OptProvenance>,
    depth: usize,
    lhs: OptPair,
    rhs: OptPair,
    pc: u32,
    guard: u32,
) -> (r: Result<OptPair, CompileFailure>)
    requires
        env.wf(old(code).len()),
        depth <= env.stack@.len(),
        lhs.payload < old(code).len(),
        lhs.tag < old(code).len(),
        rhs.payload < old(code).len(),
        rhs.tag < old(code).len(),
    ensures
        kept(*old(code), *final(code)),
        r is Ok && env.typed(*old(code)) && pair_held(*old(code), lhs) && pair_held(*old(code), rhs)
            ==> steady(*old(code), *final(code)),
        r is Ok && env.typed(*old(code)) && pair_held(*old(code), lhs) && pair_held(*old(code), rhs)
            ==> pair_held(*final(code), r->Ok_0),
        r is Ok <==> may_deopt(*env, provenance@, depth as int),
        r matches Err(e) ==> e == own_failure(*env, provenance@, depth as int),
        final(code).len() >= old(code).len(),
        r matches Ok(pair) ==> pair.payload < final(code).len() && pair.tag < final(code).len() && forall|w: World|
            #![trigger final(code).at(w)]
            match old(code).at(w) {
                Status::Run(s) => pair_post(
                    *env,
                    final(code).at(w),
                    s,
                    old(code).len(),
                    if env.int32_loop || mode != ScalarNumericMode::Int32 {
                        sum_of(
                            env.int32_loop,
                            s.vals[lhs.payload as int],
                            s.vals[lhs.tag as int],
                            s.vals[rhs.payload as int],
                            s.vals[rhs.tag as int],
                            w,
                        )
                    } else {
                        int_sum_of(s.vals[lhs.payload as int], s.vals[rhs.payload as int])
                    },
                    pair,
                    provenance@,
                    depth as int,
                    pc,
                    guard,
                    w,
                ),
                st => final(code).at(w) == st,
            },
{
    broadcast use group_truths;

    if env.int32_loop || mode != ScalarNumericMode::Int32 {
        return emit_opt_checked_add(code, env, provenance, depth, lhs, rhs, pc, guard);
    }
    let li = opt_i32(code, false, lhs);
    let ghost c0 = *code;
    let ri = opt_i32(code, false, rhs);
    let ghost c1 = *code;
    let (sum, overflow) = code.overflowing(BinaryOp::Add, Ty::I32, li, ri);
    let valid = code.binary_imm(BinaryOp::Xor, Ty::I8, overflow, 1);
    let ghost c2 = *code;
    if let Err(e) = emit_opt_guard_branch(code, env, provenance, depth, pc, guard, valid) {
        return Err(e);
    }
    let ghost c3 = *code;
    let pair = opt_int_pair(code, false, sum);
    proof {
        assert forall|w: World|
            #![trigger code.at(w)]
            match old(code).at(w) {
                Status::Run(s) => pair_post(
                    *env,
                    code.at(w),
                    s,
                    old(code).len(),
                    int_sum_of(s.vals[lhs.payload as int], s.vals[rhs.payload as int]),
                    pair,
                    provenance@,
                    depth as int,
                    pc,
                    guard,
                    w,
                ),
                st => code.at(w) == st,
            } by {
            let a0 = c0.at(w);
            let a1 = c1.at(w);
            let a2 = c2.at(w);
            let a3 = c3.at(w);
            if let Status::Run(s) = old(code).at(w) {
                same_deopt(*env, s, a2->Run_0, provenance@, depth as nat, pc, guard, w);
            }
        }
    }
    Ok(pair)
}

/// A double, by its bits, that counts as true: neither zero nor not a number.
pub open spec fn double_truthy(bits: int) -> bool {
    let magnitude = (bits as i64 & 0x7fff_ffff_ffff_ffffi64) as int;
    0 < magnitude <= 0x7ff0_0000_0000_0000
}

/// Whether the double with these bits counts as true.
pub fn f64_bits_truthy(code: &mut Code, payload: usize) -> (r: usize)
    requires
        payload < old(code).len(),
    ensures
        kept(*old(code), *final(code)),
        old(code).holds(payload, Ty::I64) ==> steady(*old(code), *final(code)),
        final(code).kind(r as int) == Known::Value(Ty::I8),
        r < final(code).len(),
        old(code).len() < final(code).len(),
        forall|w: World|
            #![trigger final(code).at(w)]
            quiet(old(code).at(w), final(code).at(w), old(code).len()) && (old(code).at(w) is Run ==> value(final(code).at(w), r)
                == truth(double_truthy(value(old(code).at(w), payload)))),
{
    broadcast use group_truths;

    let magnitude = code.binary_imm(BinaryOp::And, Ty::I64, payload, 0x7fff_ffff_ffff_ffff);
    let positive = code.compare_imm(IntCc::SignedGreaterThan, Ty::I64, magnitude, 0);
    let number = code.compare_imm(IntCc::SignedLessThanOrEqual, Ty::I64, magnitude, 0x7ff0_0000_0000_0000);
    code.binary(BinaryOp::And, Ty::I8, positive, number)
}

/// The value of a unary operation, where it is computed natively.
pub open spec fn unary_result(operation: Seq<char>, int32_loop: bool, payload: int, tag: int, w: World) -> Option<(int, int)> {
    let number = tag == JS_TAG_INT || !int32_loop && tag == JS_TAG_FLOAT64;
    let integer = if int32_loop {
        payload
    } else {
        wrap(Ty::I32, payload)
    };
    if operation == "plus"@ {
        if number {
            Some((payload, tag))
        } else {
            None
        }
    } else if operation == "neg"@ {
        let stays = tag == JS_TAG_INT && integer != 0 && integer != i32::MIN;
        if stays {
            Some((wrap(Ty::I32, -integer), JS_TAG_INT as int))
        } else if number && !int32_loop {
            Some(((w.float_unary)(FloatUnaryOp::Neg, number_of(payload, tag, w)), JS_TAG_FLOAT64 as int))
        } else {
            None
        }
    } else if operation == "not"@ {
        if number {
            Some((-(if int32_loop { payload } else { to_int32(payload, tag, w) }) - 1, JS_TAG_INT as int))
        } else {
            None
        }
    } else {
        let empty = tag == JS_TAG_NULL || tag == JS_TAG_UNDEFINED;
        if number || tag == JS_TAG_BOOL || empty {
            let holds = !empty && if !int32_loop && tag == JS_TAG_FLOAT64 {
                double_truthy(payload)
            } else {
                integer != 0
            };
            Some((truth(!holds), JS_TAG_BOOL as int))
        } else {
            None
        }
    }
}

pub open spec fn is_unary(operation: Seq<char>) -> bool {
    operation == "plus"@ || operation == "neg"@ || operation == "not"@ || operation == "lnot"@
}

/// The slot at `index` becomes the value, or the instruction deoptimizes.
pub open spec fn slot_post(
    env: OptEnv<'_>,
    st2: Status,
    s: State,
    n: int,
    expected: Option<(int, int)>,
    index: int,
    provenance: Seq<OptProvenance>,
    depth: int,
    pc: u32,
    guard: u32,
    w: World,
) -> bool {
    match expected {
        Some((payload, tag)) => runs_on(st2, s, n, vars_after(s.vars, env.stack@[index], payload, tag), s.trace),
        None => deopts(env, st2, s, provenance, depth, pc, guard, w),
    }
}

#[verifier::spinoff_prover]
#[verifier::rlimit(80)]
fn unary_neg(
    code: &mut Code,
    env: &OptEnv<'_>,
    provenance: &Vec<OptProvenance>,
    depth: usize,
    operand: OptPair,
    pc: u32,
    guard: u32,
) -> (r: Result<OptPair, CompileFailure>)
    requires
        env.wf(old(code).len()),
        depth <= env.stack@.len(),
        operand.payload < old(code).len(),
        operand.tag < old(code).len(),
    ensures
        kept(*old(code), *final(code)),
        r is Ok && env.typed(*old(code)) && pair_held(*old(code), operand) ==> steady(*old(code), *final(code)),
        r is Ok && env.typed(*old(code)) && pair_held(*old(code), operand) ==> pair_held(*final(code), r->Ok_0),
        r is Ok <==> may_deopt(*env, provenance@, depth as int),
        r matches Err(e) ==> e == own_failure(*env, provenance@, depth as int),
        final(code).len() >= old(code).len(),
        r matches Ok(pair) ==> pair.payload < final(code).len() && pair.tag < final(code).len() && forall|w: World|
            #![trigger final(code).at(w)]
            match old(code).at(w) {
                Status::Run(s) => pair_post(
                    *env,
                    final(code).at(w),
                    s,
                    old(code).len(),
                    unary_result("neg"@, env.int32_loop, s.vals[operand.payload as int], s.vals[operand.tag as int], w),
                    pair,
                    provenance@,
                    depth as int,
                    pc,
                    guard,
                    w,
                ),
                st => final(code).at(w) == st,
            },
{
    broadcast use group_truths;

    proof {
        reveal_strlit("neg");
        reveal_strlit("plus");
        assert("neg"@.len() == 3);
        assert("plus"@.len() == 4);
    }
    let is_int = opt_tag_is(code, operand.tag, JS_TAG_INT);
    let ghost c0 = *code;
    let iv = opt_i32(code, env.int32_loop, operand);
    let ghost c1 = *code;
    let nonzero = code.compare_imm(IntCc::NotEqual, Ty::I32, iv, 0);
    let not_min = code.compare_imm(IntCc::NotEqual, Ty::I32, iv, -0x8000_0000);
    let representable = code.binary(BinaryOp::And, Ty::I8, nonzero, not_min);
    let keep_int = code.binary(BinaryOp::And, Ty::I8, is_int, representable);
    let is_float = opt_tag_is(code, operand.tag, JS_TAG_FLOAT64);
    let numeric = code.binary(BinaryOp::Or, Ty::I8, is_int, is_float);
    let ghost c2 = *code;
    // Zero and the least Int32 negate to doubles, which the raw-i32 loop shape
    // cannot hold.
    let admitted: usize = if env.int32_loop {
        keep_int
    } else {
        numeric
    };
    if let Err(e) = emit_opt_guard_branch(code, env, provenance, depth, pc, guard, admitted) {
        return Err(e);
    }
    let ghost c3 = *code;
    let negated = code.unary(UnaryOp::Neg, Ty::I32, iv);
    let ghost c4 = *code;
    let pair = if env.int32_loop {
        opt_int_pair(code, true, negated)
    } else {
        let fv = opt_f64(code, operand);
        let float_result = code.float_unary(FloatUnaryOp::Neg, fv);
        let int_payload = code.convert(ConvertOp::SignExtend, Ty::I32, Ty::I64, negated);
        let float_payload = code.convert(ConvertOp::Bitcast, Ty::F64, Ty::I64, float_result);
        let int_tag = code.iconst(Ty::I64, JS_TAG_INT as i64);
        let float_tag = code.iconst(Ty::I64, JS_TAG_FLOAT64 as i64);
        let payload = code.select(Ty::I64, keep_int, int_payload, float_payload);
        let tag = code.select(Ty::I64, keep_int, int_tag, float_tag);
        OptPair { payload, tag }
    };
    proof {
        assert forall|w: World|
            #![trigger code.at(w)]
            match old(code).at(w) {
                Status::Run(s) => pair_post(
                    *env,
                    code.at(w),
                    s,
                    old(code).len(),
                    unary_result("neg"@, env.int32_loop, s.vals[operand.payload as int], s.vals[operand.tag as int], w),
                    pair,
                    provenance@,
                    depth as int,
                    pc,
                    guard,
                    w,
                ),
                st => code.at(w) == st,
            } by {
            let a0 = c0.at(w);
            let a1 = c1.at(w);
            let a2 = c2.at(w);
            let a3 = c3.at(w);
            let a4 = c4.at(w);
            if let Status::Run(s) = old(code).at(w) {
                same_deopt(*env, s, a2->Run_0, provenance@, depth as nat, pc, guard, w);
            }
        }
    }
    Ok(pair)
}

#[verifier::spinoff_prover]
#[verifier::rlimit(90)]
fn unary_lnot(
    code: &mut Code,
    env: &OptEnv<'_>,
    provenance: &Vec<OptProvenance>,
    depth: usize,
    operand: OptPair,
    pc: u32,
    guard: u32,
) -> (r: Result<OptPair, CompileFailure>)
    requires
        env.wf(old(code).len()),
        depth <= env.stack@.len(),
        operand.payload < old(code).len(),
        operand.tag < old(code).len(),
    ensures
        kept(*old(code), *final(code)),
        r is Ok && env.typed(*old(code)) && pair_held(*old(code), operand) ==> steady(*old(code), *final(code)),
        r is Ok && env.typed(*old(code)) && pair_held(*old(code), operand) ==> pair_held(*final(code), r->Ok_0),
        r is Ok <==> may_deopt(*env, provenance@, depth as int),
        r matches Err(e) ==> e == own_failure(*env, provenance@, depth as int),
        final(code).len() >= old(code).len(),
        r matches Ok(pair) ==> pair.payload < final(code).len() && pair.tag < final(code).len() && forall|w: World|
            #![trigger final(code).at(w)]
            match old(code).at(w) {
                Status::Run(s) => pair_post(
                    *env,
                    final(code).at(w),
                    s,
                    old(code).len(),
                    unary_result("lnot"@, env.int32_loop, s.vals[operand.payload as int], s.vals[operand.tag as int], w),
                    pair,
                    provenance@,
                    depth as int,
                    pc,
                    guard,
                    w,
                ),
                st => final(code).at(w) == st,
            },
{
    broadcast use group_truths;

    proof {
        reveal_strlit("lnot");
        reveal_strlit("plus");
        reveal_strlit("neg");
        reveal_strlit("not");
        assert("lnot"@[0] != "plus"@[0]);
        assert("lnot"@.len() == 4 && "neg"@.len() == 3 && "not"@.len() == 3);
    }
    let is_int = opt_tag_is(code, operand.tag, JS_TAG_INT);
    let is_float = opt_tag_is(code, operand.tag, JS_TAG_FLOAT64);
    let is_bool = opt_tag_is(code, operand.tag, JS_TAG_BOOL);
    let is_null = opt_tag_is(code, operand.tag, JS_TAG_NULL);
    let is_undefined = opt_tag_is(code, operand.tag, JS_TAG_UNDEFINED);
    let scalar = code.binary(BinaryOp::Or, Ty::I8, is_int, is_bool);
    let empty = code.binary(BinaryOp::Or, Ty::I8, is_null, is_undefined);
    let number: usize = if env.int32_loop {
        scalar
    } else {
        code.binary(BinaryOp::Or, Ty::I8, scalar, is_float)
    };
    let allowed = code.binary(BinaryOp::Or, Ty::I8, number, empty);
    let ghost c1 = *code;
    if let Err(e) = emit_opt_guard_branch(code, env, provenance, depth, pc, guard, allowed) {
        return Err(e);
    }
    let ghost c2 = *code;
    let iv = opt_i32(code, env.int32_loop, operand);
    let ghost c3 = *code;
    let integer_truth = code.compare_imm(IntCc::NotEqual, Ty::I32, iv, 0);
    let ghost c4 = *code;
    let numeric_truth: usize = if env.int32_loop {
        integer_truth
    } else {
        let float_truth = f64_bits_truthy(code, operand.payload);
        code.select(Ty::I8, is_float, float_truth, integer_truth)
    };
    let ghost c5 = *code;
    let falsehood = code.iconst(Ty::I8, 0);
    let whole = code.select(Ty::I8, empty, falsehood, numeric_truth);
    let negated = code.binary_imm(BinaryOp::Xor, Ty::I8, whole, 1);
    let ghost c6 = *code;
    let pair = opt_bool_pair(code, env.payload_type, negated);
    proof {
        assert forall|w: World|
            #![trigger code.at(w)]
            match old(code).at(w) {
                Status::Run(s) => pair_post(
                    *env,
                    code.at(w),
                    s,
                    old(code).len(),
                    unary_result("lnot"@, env.int32_loop, s.vals[operand.payload as int], s.vals[operand.tag as int], w),
                    pair,
                    provenance@,
                    depth as int,
                    pc,
                    guard,
                    w,
                ),
                st => code.at(w) == st,
            } by {
            let a1 = c1.at(w);
            let a2 = c2.at(w);
            let a3 = c3.at(w);
            let a4 = c4.at(w);
            let a5 = c5.at(w);
            let a6 = c6.at(w);
            if let Status::Run(s) = old(code).at(w) {
                same_deopt(*env, s, a1->Run_0, provenance@, depth as nat, pc, guard, w);
                let expected = unary_result(
                    "lnot"@,
                    env.int32_loop,
                    s.vals[operand.payload as int],
                    s.vals[operand.tag as int],
                    w,
                );
                if expected is Some {
                    let t = a5->Run_0;
                    let holds = !(s.vals[operand.tag as int] == JS_TAG_NULL || s.vals[operand.tag as int] == JS_TAG_UNDEFINED)
                        && t.vals[numeric_truth as int] != 0;
                    assert(value(a6, whole) == truth(holds));
                    assert(value(a6, negated) == truth(!holds));
                }
            }
        }
    }
    Ok(pair)
}

/// `neg`, `plus`, `not` and `lnot` on the stack top. Numbers (and, for `lnot`,
/// booleans, null and undefined) are computed natively with exact JavaScript
/// results; every other tag deoptimizes before any effect.
pub fn emit_opt_unary(
    code: &mut Code,
    env: &OptEnv<'_>,
    provenance: &mut Vec<OptProvenance>,
    depth: usize,
    operation: &str,
    pc: u32,
    guard: u32,
) -> (r: Result<(), CompileFailure>)
    requires
        env.wf(old(code).len()),
        depth <= env.stack@.len(),
        depth <= old(provenance)@.len(),
    ensures
        kept(*old(code), *final(code)),
        r is Ok && env.typed(*old(code)) ==> steady(*old(code), *final(code)),
        r is Ok <==> depth > 0 && is_unary(operation@) && may_deopt(*env, old(provenance)@, depth as int),
        r matches Err(e) ==> e == (if depth > 0 && !is_unary(operation@) {
            CompileFailure::UnsupportedOpcode
        } else {
            own_failure(*env, old(provenance)@, depth as int)
        }),
        final(code).len() >= old(code).len(),
        r is Ok ==> final(provenance)@ == old(provenance)@.update(depth - 1, OptProvenance::ImmediatePrimitive),
        r is Ok ==> forall|w: World|
            #![trigger final(code).at(w)]
            match old(code).at(w) {
                Status::Run(s) => slot_post(
                    *env,
                    final(code).at(w),
                    s,
                    old(code).len(),
                    unary_result(
                        operation@,
                        env.int32_loop,
                        s.vars[env.stack@[depth - 1].payload as int],
                        s.vars[env.stack@[depth - 1].tag as int],
                        w,
                    ),
                    depth - 1,
                    old(provenance)@,
                    depth as int,
                    pc,
                    guard,
                    w,
                ),
                st => final(code).at(w) == st,
            },
{
    proof {
        own_failures(*env, provenance@, depth as int);
    }
    broadcast use group_truths;

    if depth == 0 {
        return Err(CompileFailure::InvalidArtifact);
    }
    let index: usize = depth - 1;
    let operand = opt_use(code, env.stack[index], env.payload_type);
    let ghost c1 = *code;
    let pair = if name_is(operation, "neg") {
        match unary_neg(code, env, provenance, depth, operand, pc, guard) {
            Ok(pair) => pair,
            Err(e) => return Err(e),
        }
    } else if name_is(operation, "lnot") {
        match unary_lnot(code, env, provenance, depth, operand, pc, guard) {
            Ok(pair) => pair,
            Err(e) => return Err(e),
        }
    } else if name_is(operation, "plus") || name_is(operation, "not") {
        let is_int = opt_tag_is(code, operand.tag, JS_TAG_INT);
        let is_float = opt_tag_is(code, operand.tag, JS_TAG_FLOAT64);
        let numeric: usize = if env.int32_loop {
            is_int
        } else {
            code.binary(BinaryOp::Or, Ty::I8, is_int, is_float)
        };
        let ghost c2 = *code;
        if let Err(e) = emit_opt_guard_branch(code, env, provenance, depth, pc, guard, numeric) {
            return Err(e);
        }
        let ghost c3 = *code;
        proof {
            reveal_strlit("plus");
            reveal_strlit("not");
            reveal_strlit("neg");
            assert("plus"@.len() == 4 && "not"@.len() == 3);
            assert("neg"@[1] == 'e' && "not"@[1] == 'o');
            assert forall|w: World|
                #![trigger c3.at(w)]
                match c1.at(w) {
                    Status::Run(s) => if is_number(s.vals[operand.tag as int]) && (!env.int32_loop || s.vals[operand.tag as int]
                        == JS_TAG_INT) {
                        runs_on(c3.at(w), s, c1.len(), s.vars, s.trace)
                    } else {
                        deopts(*env, c3.at(w), s, provenance@, depth as int, pc, guard, w)
                    },
                    st => c3.at(w) == st,
                } by {
                let a2 = c2.at(w);
                if let Status::Run(s) = c1.at(w) {
                    same_deopt(*env, s, a2->Run_0, provenance@, depth as nat, pc, guard, w);
                }
            }
        }
        if name_is(operation, "plus") {
            operand
        } else {
            let iv: usize = if env.int32_loop {
                operand.payload
            } else {
                opt_to_i32(code, operand)
            };
            let ghost c4 = *code;
            let inverted = code.unary(UnaryOp::Not, Ty::I32, iv);
            let ghost c5 = *code;
            let pair = opt_int_pair(code, env.int32_loop, inverted);
            proof {
                assert forall|w: World|
                    #![trigger code.at(w)]
                    match c3.at(w) {
                        Status::Run(s) => runs_on(code.at(w), s, c3.len(), s.vars, s.trace) && value(code.at(w), pair.payload)
                            == -(if env.int32_loop {
                            s.vals[operand.payload as int]
                        } else {
                            to_int32(s.vals[operand.payload as int], s.vals[operand.tag as int], w)
                        }) - 1 && value(code.at(w), pair.tag) == JS_TAG_INT,
                        st => code.at(w) == st,
                    } by {
                    let a4 = c4.at(w);
                    let a5 = c5.at(w);
                }
            }
            pair
        }
    } else {
        return Err(CompileFailure::UnsupportedOpcode);
    };
    let ghost c6 = *code;
    opt_define(code, env.stack[index], pair);
    provenance.set(index, OptProvenance::ImmediatePrimitive);
    proof {
        assert forall|w: World|
            #![trigger code.at(w)]
            match old(code).at(w) {
                Status::Run(s) => slot_post(
                    *env,
                    code.at(w),
                    s,
                    old(code).len(),
                    unary_result(
                        operation@,
                        env.int32_loop,
                        s.vars[env.stack@[depth - 1].payload as int],
                        s.vars[env.stack@[depth - 1].tag as int],
                        w,
                    ),
                    depth - 1,
                    old(provenance)@,
                    depth as int,
                    pc,
                    guard,
                    w,
                ),
                st => code.at(w) == st,
            } by {
            let a1 = c1.at(w);
            let a6 = c6.at(w);
            if let Status::Run(s) = old(code).at(w) {
                same_deopt(*env, s, a1->Run_0, old(provenance)@, depth as nat, pc, guard, w);
            }
        }
    }
    Ok(())
}

/// The operands of a binary operation are replaced by its result.
pub open spec fn folded(provenance: Seq<OptProvenance>, output: int) -> Seq<OptProvenance> {
    provenance.update(output, OptProvenance::ImmediatePrimitive).update(output + 1, OptProvenance::Unknown)
}

/// The Int32 payload that a value holds.
pub open spec fn int_payload(int32_loop: bool, payload: int) -> int {
    if int32_loop {
        payload
    } else {
        wrap(Ty::I32, payload)
    }
}

/// The remainder of two Int32, where it is one: the dividend is not negative
/// and the divisor is not zero. It has the sign of the dividend.
pub open spec fn remainder_of(int32_loop: bool, lp: int, lt: int, rp: int, rt: int) -> Option<(int, int)> {
    let l = int_payload(int32_loop, lp);
    let r = int_payload(int32_loop, rp);
    if lt == JS_TAG_INT && rt == JS_TAG_INT && l >= 0 && r != 0 {
        Some((l % (if r > 0 { r } else { -r }), JS_TAG_INT as int))
    } else {
        None
    }
}

/// A remainder that is computed is an Int32 and never negative zero: it lies
/// between zero and its dividend, and below the magnitude of its divisor.
pub proof fn remainders_stay_integers(int32_loop: bool, lp: int, lt: int, rp: int, rt: int)
    ensures
        remainder_of(int32_loop, lp, lt, rp, rt) matches Some((payload, tag)) ==> {
            let l = int_payload(int32_loop, lp);
            let r = int_payload(int32_loop, rp);
            &&& tag == JS_TAG_INT
            &&& 0 <= payload <= l
            &&& payload < (if r > 0 {
                r
            } else {
                -r
            })
        },
{
    let l = int_payload(int32_loop, lp);
    let r = int_payload(int32_loop, rp);
    let m = if r > 0 {
        r
    } else {
        -r
    };
    if l >= 0 && m > 0 {
        vstd::arithmetic::div_mod::lemma_mod_bound(l, m);
        vstd::arithmetic::div_mod::lemma_mod_decreases(l as nat, m as nat);
    }
}

proof fn remainder_is(l: int, r: int)
    requires
        l >= 0,
        r != 0,
    ensures
        binary_value(BinaryOp::Srem, Ty::I32, l, r) == l % (if r > 0 {
            r
        } else {
            -r
        }),
{
    if r > 0 {
        vstd::arithmetic::div_mod::lemma_fundamental_div_mod(l, r);
    } else {
        vstd::arithmetic::div_mod::lemma_fundamental_div_mod(l, -r);
        assert(r * (-(l / (-r))) == (-r) * (l / (-r))) by (nonlinear_arith);
    }
}

pub open spec fn mod_post(
    env: OptEnv<'_>,
    st: Status,
    st2: Status,
    n: int,
    provenance: Seq<OptProvenance>,
    depth: int,
    pc: u32,
    guard: u32,
    w: World,
) -> bool {
    match st {
        Status::Run(s) => slot_post(
            env,
            st2,
            s,
            n,
            remainder_of(
                env.int32_loop,
                s.vars[env.stack@[depth - 2].payload as int],
                s.vars[env.stack@[depth - 2].tag as int],
                s.vars[env.stack@[depth - 1].payload as int],
                s.vars[env.stack@[depth - 1].tag as int],
            ),
            depth - 2,
            provenance,
            depth,
            pc,
            guard,
            w,
        ),
        st => st2 == st,
    }
}

/// `%` on two Int32 operands whose result is provably an Int32: a dividend that
/// is not negative never yields negative zero, and a divisor that is not zero
/// cannot trap. Everything else deoptimizes.
#[verifier::rlimit(30)]
pub fn emit_opt_mod(
    code: &mut Code,
    env: &OptEnv<'_>,
    provenance: &mut Vec<OptProvenance>,
    depth: usize,
    pc: u32,
    guard: u32,
) -> (r: Result<usize, CompileFailure>)
    requires
        env.wf(old(code).len()),
        depth <= env.stack@.len(),
        depth <= old(provenance)@.len(),
    ensures
        kept(*old(code), *final(code)),
        r is Ok && env.typed(*old(code)) ==> steady(*old(code), *final(code)),
        r is Ok <==> depth >= 2 && may_deopt(*env, old(provenance)@, depth as int),
        r matches Err(e) ==> e == placed_failure(depth >= 2, *env, old(provenance)@, depth as int),
        final(code).len() >= old(code).len(),
        r matches Ok(d) ==> d == depth - 1 && final(provenance)@ == folded(old(provenance)@, depth - 2),
        r is Ok ==> forall|w: World|
            #![trigger final(code).at(w)]
            mod_post(
                *env,
                old(code).at(w),
                final(code).at(w),
                old(code).len(),
                old(provenance)@,
                depth as int,
                pc,
                guard,
                w,
            ),
{
    broadcast use group_truths;

    if depth < 2 {
        return Err(CompileFailure::InvalidArtifact);
    }
    let output: usize = depth - 2;
    let lhs = opt_use(code, env.stack[output], env.payload_type);
    let rhs = opt_use(code, env.stack[output + 1], env.payload_type);
    let lhs_int = opt_tag_is(code, lhs.tag, JS_TAG_INT);
    let rhs_int = opt_tag_is(code, rhs.tag, JS_TAG_INT);
    let both_int = code.binary(BinaryOp::And, Ty::I8, lhs_int, rhs_int);
    let ghost c1 = *code;
    let li = opt_i32(code, env.int32_loop, lhs);
    let ghost c2 = *code;
    let ri = opt_i32(code, env.int32_loop, rhs);
    let ghost c3 = *code;
    let non_negative = code.compare_imm(IntCc::SignedGreaterThanOrEqual, Ty::I32, li, 0);
    let non_zero = code.compare_imm(IntCc::NotEqual, Ty::I32, ri, 0);
    let exact = code.binary(BinaryOp::And, Ty::I8, non_negative, non_zero);
    let ok = code.binary(BinaryOp::And, Ty::I8, both_int, exact);
    let ghost c4 = *code;
    if let Err(e) = emit_opt_guard_branch(code, env, provenance, depth, pc, guard, ok) {
        return Err(e);
    }
    let ghost c5 = *code;
    let remainder = code.binary(BinaryOp::Srem, Ty::I32, li, ri);
    let ghost c6 = *code;
    let pair = opt_int_pair(code, env.int32_loop, remainder);
    let ghost c7 = *code;
    opt_define(code, env.stack[output], pair);
    provenance.set(output, OptProvenance::ImmediatePrimitive);
    provenance.set(output + 1, OptProvenance::Unknown);
    proof {
        assert forall|w: World|
            #![trigger code.at(w)]
            mod_post(*env, old(code).at(w), code.at(w), old(code).len(), old(provenance)@, depth as int, pc, guard, w) by {
            let a1 = c1.at(w);
            let a2 = c2.at(w);
            let a3 = c3.at(w);
            let a4 = c4.at(w);
            let a5 = c5.at(w);
            let a6 = c6.at(w);
            let a7 = c7.at(w);
            if let Status::Run(s) = old(code).at(w) {
                same_deopt(*env, s, a4->Run_0, old(provenance)@, depth as nat, pc, guard, w);
                let l = value(a4, li);
                let r = value(a4, ri);
                if l >= 0 && r != 0 {
                    remainder_is(l, r);
                }
            }
        }
    }
    Ok(output + 1)
}

pub open spec fn is_primitive(int32_loop: bool, tag: int) -> bool {
    is_numeric(int32_loop, tag) || tag == JS_TAG_BOOL || is_nullish(tag)
}

pub open spec fn is_numeric(int32_loop: bool, tag: int) -> bool {
    tag == JS_TAG_INT || !int32_loop && tag == JS_TAG_FLOAT64
}

pub open spec fn is_nullish(tag: int) -> bool {
    tag == JS_TAG_UNDEFINED || tag == JS_TAG_NULL
}

/// Whether two values are equal, where that needs no coercion and no look at
/// the heap. Two numbers compare as doubles, two booleans by payload; null and
/// undefined are equal to each other unless the comparison is strict; values
/// of different kinds are not equal.
pub open spec fn equality_of(strict: bool, int32_loop: bool, lp: int, lt: int, rp: int, rt: int, w: World) -> Option<bool> {
    let coerces = lt == JS_TAG_BOOL && is_numeric(int32_loop, rt) || rt == JS_TAG_BOOL && is_numeric(int32_loop, lt);
    if !is_primitive(int32_loop, lt) || !is_primitive(int32_loop, rt) || !strict && coerces {
        None
    } else if is_numeric(int32_loop, lt) && is_numeric(int32_loop, rt) {
        Some(
            if int32_loop {
                lp == rp
            } else {
                (w.float_holds)(FloatCc::Equal, number_of(lp, lt, w), number_of(rp, rt, w))
            },
        )
    } else if lt == JS_TAG_BOOL && rt == JS_TAG_BOOL {
        Some(int_payload(int32_loop, lp) == int_payload(int32_loop, rp))
    } else if is_nullish(lt) && is_nullish(rt) {
        Some(!strict || lt == rt)
    } else {
        Some(false)
    }
}

/// The kinds of two operands, as truth values in the code.
struct Kinds {
    both_numeric: usize,
    both_bool: usize,
    both_nullish: usize,
    allowed: usize,
}

spec fn kinds_are(st: Status, k: Kinds, strict: bool, int32_loop: bool, lt: int, rt: int) -> bool {
    &&& value(st, k.both_numeric) == truth(is_numeric(int32_loop, lt) && is_numeric(int32_loop, rt))
    &&& value(st, k.both_bool) == truth(lt == JS_TAG_BOOL && rt == JS_TAG_BOOL)
    &&& value(st, k.both_nullish) == truth(is_nullish(lt) && is_nullish(rt))
    &&& value(st, k.allowed) == truth(
        is_primitive(int32_loop, lt) && is_primitive(int32_loop, rt) && (strict || !(lt == JS_TAG_BOOL && is_numeric(
            int32_loop,
            rt,
        ) || rt == JS_TAG_BOOL && is_numeric(int32_loop, lt))),
    )
}

/// The kind of one operand: numeric, boolean, nullish, and any of these.
fn operand_kinds(code: &mut Code, int32_loop: bool, tag: usize) -> (r: (usize, usize, usize, usize))
    requires
        tag < old(code).len(),
    ensures
        kept(*old(code), *final(code)),
        old(code).holds(tag, Ty::I64) ==> steady(*old(code), *final(code)),
        final(code).kind(r.0 as int) == Known::Value(Ty::I8),
        final(code).kind(r.1 as int) == Known::Value(Ty::I8),
        final(code).kind(r.2 as int) == Known::Value(Ty::I8),
        final(code).kind(r.3 as int) == Known::Value(Ty::I8),
        r.0 < final(code).len() && r.1 < final(code).len() && r.2 < final(code).len() && r.3 < final(code).len(),
        old(code).len() < final(code).len(),
        forall|w: World|
            #![trigger final(code).at(w)]
            quiet(old(code).at(w), final(code).at(w), old(code).len()) && (old(code).at(w) matches Status::Run(s) ==> {
                &&& value(final(code).at(w), r.0) == truth(is_numeric(int32_loop, s.vals[tag as int]))
                &&& value(final(code).at(w), r.1) == truth(s.vals[tag as int] == JS_TAG_BOOL)
                &&& value(final(code).at(w), r.2) == truth(is_nullish(s.vals[tag as int]))
                &&& value(final(code).at(w), r.3) == truth(is_primitive(int32_loop, s.vals[tag as int]))
            }),
{
    broadcast use group_truths;

    let is_int = opt_tag_is(code, tag, JS_TAG_INT);
    let numeric: usize = if int32_loop {
        is_int
    } else {
        let is_float = opt_tag_is(code, tag, JS_TAG_FLOAT64);
        code.binary(BinaryOp::Or, Ty::I8, is_int, is_float)
    };
    let ghost c1 = *code;
    let is_bool = opt_tag_is(code, tag, JS_TAG_BOOL);
    let is_undefined = opt_tag_is(code, tag, JS_TAG_UNDEFINED);
    let is_null = opt_tag_is(code, tag, JS_TAG_NULL);
    let nullish = code.binary(BinaryOp::Or, Ty::I8, is_undefined, is_null);
    let scalar = code.binary(BinaryOp::Or, Ty::I8, numeric, is_bool);
    let primitive = code.binary(BinaryOp::Or, Ty::I8, scalar, nullish);
    proof {
        assert forall|w: World|
            #![trigger code.at(w)]
            quiet(old(code).at(w), code.at(w), old(code).len()) && (old(code).at(w) matches Status::Run(s) ==> {
                &&& value(code.at(w), numeric) == truth(is_numeric(int32_loop, s.vals[tag as int]))
                &&& value(code.at(w), is_bool) == truth(s.vals[tag as int] == JS_TAG_BOOL)
                &&& value(code.at(w), nullish) == truth(is_nullish(s.vals[tag as int]))
                &&& value(code.at(w), primitive) == truth(is_primitive(int32_loop, s.vals[tag as int]))
            }) by {
            let a1 = c1.at(w);
        }
    }
    (numeric, is_bool, nullish, primitive)
}

fn equality_kinds(code: &mut Code, strict: bool, int32_loop: bool, lt: usize, rt: usize) -> (r: Kinds)
    requires
        lt < old(code).len(),
        rt < old(code).len(),
    ensures
        kept(*old(code), *final(code)),
        old(code).holds(lt, Ty::I64) && old(code).holds(rt, Ty::I64) ==> steady(*old(code), *final(code)),
        final(code).kind(r.both_numeric as int) == Known::Value(Ty::I8),
        final(code).kind(r.both_bool as int) == Known::Value(Ty::I8),
        final(code).kind(r.both_nullish as int) == Known::Value(Ty::I8),
        final(code).kind(r.allowed as int) == Known::Value(Ty::I8),
        r.both_numeric < final(code).len(),
        r.both_bool < final(code).len(),
        r.both_nullish < final(code).len(),
        r.allowed < final(code).len(),
        old(code).len() < final(code).len(),
        forall|w: World|
            #![trigger final(code).at(w)]
            quiet(old(code).at(w), final(code).at(w), old(code).len()) && (old(code).at(w) matches Status::Run(s) ==> kinds_are(
                final(code).at(w),
                r,
                strict,
                int32_loop,
                s.vals[lt as int],
                s.vals[rt as int],
            )),
{
    broadcast use group_truths;

    let (lhs_numeric, lhs_bool, lhs_nullish, lhs_primitive) = operand_kinds(code, int32_loop, lt);
    let ghost c1 = *code;
    let (rhs_numeric, rhs_bool, rhs_nullish, rhs_primitive) = operand_kinds(code, int32_loop, rt);
    let ghost c2 = *code;
    let both_numeric = code.binary(BinaryOp::And, Ty::I8, lhs_numeric, rhs_numeric);
    let both_bool = code.binary(BinaryOp::And, Ty::I8, lhs_bool, rhs_bool);
    let both_nullish = code.binary(BinaryOp::And, Ty::I8, lhs_nullish, rhs_nullish);
    let primitive = code.binary(BinaryOp::And, Ty::I8, lhs_primitive, rhs_primitive);
    let ghost c3 = *code;
    let allowed: usize = if strict {
        primitive
    } else {
        let lhs_coerces = code.binary(BinaryOp::And, Ty::I8, lhs_bool, rhs_numeric);
        let rhs_coerces = code.binary(BinaryOp::And, Ty::I8, rhs_bool, lhs_numeric);
        let coerces = code.binary(BinaryOp::Or, Ty::I8, lhs_coerces, rhs_coerces);
        let pure = code.binary_imm(BinaryOp::Xor, Ty::I8, coerces, 1);
        code.binary(BinaryOp::And, Ty::I8, primitive, pure)
    };
    let r = Kinds { both_numeric, both_bool, both_nullish, allowed };
    proof {
        assert forall|w: World|
            #![trigger code.at(w)]
            quiet(old(code).at(w), code.at(w), old(code).len()) && (old(code).at(w) matches Status::Run(s) ==> kinds_are(
                code.at(w),
                r,
                strict,
                int32_loop,
                s.vals[lt as int],
                s.vals[rt as int],
            )) by {
            let a1 = c1.at(w);
            let a2 = c2.at(w);
            let a3 = c3.at(w);
        }
    }
    r
}

/// Whether two operands of the given kinds are equal.
fn equality_flag(code: &mut Code, strict: bool, int32_loop: bool, kinds: Kinds, lhs: OptPair, rhs: OptPair) -> (r: usize)
    requires
        kinds.both_numeric < old(code).len(),
        kinds.both_bool < old(code).len(),
        kinds.both_nullish < old(code).len(),
        lhs.payload < old(code).len(),
        lhs.tag < old(code).len(),
        rhs.payload < old(code).len(),
        rhs.tag < old(code).len(),
    ensures
        kept(*old(code), *final(code)),
        !int32_loop && old(code).holds(kinds.both_numeric, Ty::I8) && old(code).holds(kinds.both_bool, Ty::I8)
            && old(code).holds(kinds.both_nullish, Ty::I8) && pair_held(*old(code), lhs)
            && pair_held(*old(code), rhs)
            ==> steady(*old(code), *final(code)),
        final(code).kind(r as int) == Known::Value(Ty::I8),
        r < final(code).len(),
        old(code).len() < final(code).len(),
        forall|w: World|
            #![trigger final(code).at(w)]
            quiet(old(code).at(w), final(code).at(w), old(code).len()) && (old(code).at(w) matches Status::Run(s) ==> {
                let e = equality_of(
                    strict,
                    int32_loop,
                    s.vals[lhs.payload as int],
                    s.vals[lhs.tag as int],
                    s.vals[rhs.payload as int],
                    s.vals[rhs.tag as int],
                    w,
                );
                kinds_are(old(code).at(w), kinds, strict, int32_loop, s.vals[lhs.tag as int], s.vals[rhs.tag as int]) && e is Some
                    ==> value(final(code).at(w), r) == truth(e->Some_0)
            }),
{
    let numeric_equal: usize = if int32_loop {
        code.compare(IntCc::Equal, Ty::I32, lhs.payload, rhs.payload)
    } else {
        let lf = opt_f64(code, lhs);
        let ghost b1 = *code;
        let rf = opt_f64(code, rhs);
        let ghost b2 = *code;
        let x = code.float_compare(FloatCc::Equal, lf, rf);
        proof {
            assert forall|w: World|
                #![trigger code.at(w)]
                quiet(old(code).at(w), code.at(w), old(code).len()) && (old(code).at(w) matches Status::Run(s) ==> value(
                    code.at(w),
                    x,
                ) == truth(
                    (w.float_holds)(
                        FloatCc::Equal,
                        number_of(s.vals[lhs.payload as int], s.vals[lhs.tag as int], w),
                        number_of(s.vals[rhs.payload as int], s.vals[rhs.tag as int], w),
                    ),
                )) by {
                let a1 = b1.at(w);
                let a2 = b2.at(w);
            }
        }
        x
    };
    let ghost c1 = *code;
    let li = opt_i32(code, int32_loop, lhs);
    let ghost c2 = *code;
    let ri = opt_i32(code, int32_loop, rhs);
    let ghost c3 = *code;
    let payload_equal = code.compare(IntCc::Equal, Ty::I32, li, ri);
    let nullish_equal: usize = if strict {
        code.compare(IntCc::Equal, Ty::I64, lhs.tag, rhs.tag)
    } else {
        code.iconst(Ty::I8, 1)
    };
    let ghost c4 = *code;
    let falsehood = code.iconst(Ty::I8, 0);
    let nullish_or_not = code.select(Ty::I8, kinds.both_nullish, nullish_equal, falsehood);
    let simple_equal = code.select(Ty::I8, kinds.both_bool, payload_equal, nullish_or_not);
    let r = code.select(Ty::I8, kinds.both_numeric, numeric_equal, simple_equal);
    proof {
        assert forall|w: World|
            #![trigger code.at(w)]
            quiet(old(code).at(w), code.at(w), old(code).len()) && (old(code).at(w) matches Status::Run(s) ==> {
                let e = equality_of(
                    strict,
                    int32_loop,
                    s.vals[lhs.payload as int],
                    s.vals[lhs.tag as int],
                    s.vals[rhs.payload as int],
                    s.vals[rhs.tag as int],
                    w,
                );
                kinds_are(old(code).at(w), kinds, strict, int32_loop, s.vals[lhs.tag as int], s.vals[rhs.tag as int]) && e is Some
                    ==> value(code.at(w), r) == truth(e->Some_0)
            }) by {
            let a1 = c1.at(w);
            let a2 = c2.at(w);
            let a3 = c3.at(w);
            let a4 = c4.at(w);
        }
    }
    r
}

pub open spec fn is_strict(operation: Seq<char>) -> bool {
    operation == "strict_eq"@ || operation == "strict_neq"@
}

pub open spec fn is_negated(operation: Seq<char>) -> bool {
    operation == "neq"@ || operation == "strict_neq"@
}

pub open spec fn equality_post(
    env: OptEnv<'_>,
    st: Status,
    st2: Status,
    n: int,
    operation: Seq<char>,
    provenance: Seq<OptProvenance>,
    depth: int,
    pc: u32,
    guard: u32,
    w: World,
) -> bool {
    match st {
        Status::Run(s) => {
            let e = equality_of(
                is_strict(operation),
                env.int32_loop,
                s.vars[env.stack@[depth - 2].payload as int],
                s.vars[env.stack@[depth - 2].tag as int],
                s.vars[env.stack@[depth - 1].payload as int],
                s.vars[env.stack@[depth - 1].tag as int],
                w,
            );
            slot_post(
                env,
                st2,
                s,
                n,
                if e is Some {
                    Some((truth(e->Some_0 != is_negated(operation)), JS_TAG_BOOL as int))
                } else {
                    None
                },
                depth - 2,
                provenance,
                depth,
                pc,
                guard,
                w,
            )
        },
        st => st2 == st,
    }
}

/// `==`, `!=`, `===` and `!==` with exact results for operands that need no
/// coercion. Loose equality of a boolean with a number coerces and deoptimizes,
/// as does every string, object, symbol or BigInt operand.
#[verifier::spinoff_prover]
#[verifier::rlimit(60)]
pub fn emit_opt_equality(
    code: &mut Code,
    env: &OptEnv<'_>,
    provenance: &mut Vec<OptProvenance>,
    depth: usize,
    operation: &str,
    pc: u32,
    guard: u32,
) -> (r: Result<usize, CompileFailure>)
    requires
        env.wf(old(code).len()),
        depth <= env.stack@.len(),
        depth <= old(provenance)@.len(),
    ensures
        kept(*old(code), *final(code)),
        r is Ok && env.typed(*old(code)) ==> steady(*old(code), *final(code)),
        r is Ok <==> depth >= 2 && may_deopt(*env, old(provenance)@, depth as int),
        r matches Err(e) ==> e == placed_failure(depth >= 2, *env, old(provenance)@, depth as int),
        final(code).len() >= old(code).len(),
        r matches Ok(d) ==> d == depth - 1 && final(provenance)@ == folded(old(provenance)@, depth - 2),
        r is Ok ==> forall|w: World|
            #![trigger final(code).at(w)]
            equality_post(
                *env,
                old(code).at(w),
                final(code).at(w),
                old(code).len(),
                operation@,
                old(provenance)@,
                depth as int,
                pc,
                guard,
                w,
            ),
{
    broadcast use group_truths;

    if depth < 2 {
        return Err(CompileFailure::InvalidArtifact);
    }
    let output: usize = depth - 2;
    let lhs = opt_use(code, env.stack[output], env.payload_type);
    let rhs = opt_use(code, env.stack[output + 1], env.payload_type);
    let strict = name_is(operation, "strict_eq") || name_is(operation, "strict_neq");
    let ghost c1 = *code;
    let kinds = equality_kinds(code, strict, env.int32_loop, lhs.tag, rhs.tag);
    let ghost c2 = *code;
    if let Err(e) = emit_opt_guard_branch(code, env, provenance, depth, pc, guard, kinds.allowed) {
        return Err(e);
    }
    let ghost c3 = *code;
    let equal = equality_flag(code, strict, env.int32_loop, kinds, lhs, rhs);
    let ghost c4 = *code;
    let result: usize = if name_is(operation, "neq") || name_is(operation, "strict_neq") {
        code.binary_imm(BinaryOp::Xor, Ty::I8, equal, 1)
    } else {
        equal
    };
    let ghost c5 = *code;
    let pair = opt_bool_pair(code, env.payload_type, result);
    let ghost c6 = *code;
    opt_define(code, env.stack[output], pair);
    provenance.set(output, OptProvenance::ImmediatePrimitive);
    provenance.set(output + 1, OptProvenance::Unknown);
    proof {
        assert forall|w: World|
            #![trigger code.at(w)]
            equality_post(
                *env,
                old(code).at(w),
                code.at(w),
                old(code).len(),
                operation@,
                old(provenance)@,
                depth as int,
                pc,
                guard,
                w,
            ) by {
            let a1 = c1.at(w);
            let a2 = c2.at(w);
            let a3 = c3.at(w);
            let a4 = c4.at(w);
            let a5 = c5.at(w);
            let a6 = c6.at(w);
            if let Status::Run(s) = old(code).at(w) {
                same_deopt(*env, s, a2->Run_0, old(provenance)@, depth as nat, pc, guard, w);
            }
        }
    }
    Ok(output + 1)
}

/// A value that is a property key as it stands.
pub open spec fn is_property_key(tag: int) -> bool {
    tag == JS_TAG_INT || tag == JS_TAG_STRING || tag == JS_TAG_SYMBOL
}

/// Goes on where the stack top is a property key, and deoptimizes otherwise.
pub fn emit_opt_guarded_propkey(
    code: &mut Code,
    env: &OptEnv<'_>,
    provenance: &Vec<OptProvenance>,
    depth: usize,
    pc: u32,
    guard: u32,
) -> (r: Result<usize, CompileFailure>)
    requires
        env.wf(old(code).len()),
        depth <= env.stack@.len(),
    ensures
        kept(*old(code), *final(code)),
        r is Ok && env.typed(*old(code)) ==> steady(*old(code), *final(code)),
        r is Ok <==> depth > 0 && may_deopt(*env, provenance@, depth as int),
        r matches Err(e) ==> e == own_failure(*env, provenance@, depth as int),
        r matches Ok(d) ==> d == depth,
        final(code).len() >= old(code).len(),
        r is Ok ==> forall|w: World|
            #![trigger final(code).at(w)]
            match old(code).at(w) {
                Status::Run(s) => if is_property_key(s.vars[env.stack@[depth - 1].tag as int]) {
                    runs_on(final(code).at(w), s, old(code).len(), s.vars, s.trace)
                } else {
                    deopts(*env, final(code).at(w), s, provenance@, depth as int, pc, guard, w)
                },
                st => final(code).at(w) == st,
            },
{
    proof {
        own_failures(*env, provenance@, depth as int);
    }
    broadcast use group_truths;

    if depth == 0 {
        return Err(CompileFailure::InvalidArtifact);
    }
    let operand = opt_use(code, env.stack[depth - 1], env.payload_type);
    let integer = opt_tag_is(code, operand.tag, JS_TAG_INT);
    let string = opt_tag_is(code, operand.tag, JS_TAG_STRING);
    let symbol = opt_tag_is(code, operand.tag, JS_TAG_SYMBOL);
    let either = code.binary(BinaryOp::Or, Ty::I8, integer, string);
    let valid = code.binary(BinaryOp::Or, Ty::I8, either, symbol);
    let ghost c1 = *code;
    if let Err(e) = emit_opt_guard_branch(code, env, provenance, depth, pc, guard, valid) {
        return Err(e);
    }
    proof {
        assert forall|w: World|
            #![trigger code.at(w)]
            match old(code).at(w) {
                Status::Run(s) => if is_property_key(s.vars[env.stack@[depth - 1].tag as int]) {
                    runs_on(code.at(w), s, old(code).len(), s.vars, s.trace)
                } else {
                    deopts(*env, code.at(w), s, provenance@, depth as int, pc, guard, w)
                },
                st => code.at(w) == st,
            } by {
            let a1 = c1.at(w);
            if let Status::Run(s) = old(code).at(w) {
                same_deopt(*env, s, a1->Run_0, provenance@, depth as nat, pc, guard, w);
            }
        }
    }
    Ok(depth)
}

/// Bitwise and shift operations.
#[derive(Clone, Copy, Debug, PartialEq, Eq, Structural)]
pub enum ScalarBitwiseOp {
    Or,
    And,
    Xor,
    Shl,
    Sar,
    Shr,
}

/// The low five bits of a shift count.
pub open spec fn shift_count(r: int) -> int {
    (r as i64 & 31i64) as int
}

/// The result of a bitwise operation on two Int32, as an Int32.
pub open spec fn bitwise_value(op: ScalarBitwiseOp, l: int, r: int) -> int {
    match op {
        ScalarBitwiseOp::Or => binary_value(BinaryOp::Or, Ty::I32, l, r),
        ScalarBitwiseOp::And => binary_value(BinaryOp::And, Ty::I32, l, r),
        ScalarBitwiseOp::Xor => binary_value(BinaryOp::Xor, Ty::I32, l, r),
        ScalarBitwiseOp::Shl => binary_value(BinaryOp::Shl, Ty::I32, l, shift_count(r)),
        ScalarBitwiseOp::Sar => binary_value(BinaryOp::Sshr, Ty::I32, l, shift_count(r)),
        ScalarBitwiseOp::Shr => binary_value(BinaryOp::Ushr, Ty::I32, l, shift_count(r)),
    }
}

/// The tagged result. The unsigned shift is a double where it is 2^31 or more,
/// which the raw-i32 shape cannot represent.
pub open spec fn bitwise_result(op: ScalarBitwiseOp, int32_loop: bool, lp: int, rp: int, w: World) -> Option<(int, int)> {
    let x = bitwise_value(op, int_payload(int32_loop, lp), int_payload(int32_loop, rp));
    if op != ScalarBitwiseOp::Shr || x >= 0 {
        Some((x, JS_TAG_INT as int))
    } else if int32_loop {
        None
    } else {
        Some(((w.float_of)(unsigned(Ty::I32, x)), JS_TAG_FLOAT64 as int))
    }
}

fn bitwise(code: &mut Code, op: ScalarBitwiseOp, li: usize, ri: usize) -> (r: usize)
    requires
        li < old(code).len(),
        ri < old(code).len(),
    ensures
        kept(*old(code), *final(code)),
        old(code).holds(li, Ty::I32) && old(code).holds(ri, Ty::I32) ==> steady(*old(code), *final(code)),
        final(code).kind(r as int) == Known::Value(Ty::I32),
        r < final(code).len(),
        old(code).len() < final(code).len(),
        forall|w: World|
            #![trigger final(code).at(w)]
            quiet(old(code).at(w), final(code).at(w), old(code).len()) && (old(code).at(w) matches Status::Run(s) ==> value(
                final(code).at(w),
                r,
            ) == bitwise_value(op, s.vals[li as int], s.vals[ri as int])),
{
    match op {
        ScalarBitwiseOp::Or => code.binary(BinaryOp::Or, Ty::I32, li, ri),
        ScalarBitwiseOp::And => code.binary(BinaryOp::And, Ty::I32, li, ri),
        ScalarBitwiseOp::Xor => code.binary(BinaryOp::Xor, Ty::I32, li, ri),
        _ => {
            let count = code.binary_imm(BinaryOp::And, Ty::I32, ri, 31);
            match op {
                ScalarBitwiseOp::Shl => code.binary(BinaryOp::Shl, Ty::I32, li, count),
                ScalarBitwiseOp::Sar => code.binary(BinaryOp::Sshr, Ty::I32, li, count),
                _ => code.binary(BinaryOp::Ushr, Ty::I32, li, count),
            }
        },
    }
}

pub open spec fn int_binary_post(
    env: OptEnv<'_>,
    st: Status,
    st2: Status,
    n: int,
    op: ScalarBitwiseOp,
    lhs: OptPair,
    rhs: OptPair,
    provenance: Seq<OptProvenance>,
    depth: int,
    pc: u32,
    guard: u32,
    w: World,
) -> bool {
    match st {
        Status::Run(s) => slot_post(
            env,
            st2,
            s,
            n,
            bitwise_result(op, env.int32_loop, s.vals[lhs.payload as int], s.vals[rhs.payload as int], w),
            depth - 2,
            provenance,
            depth,
            pc,
            guard,
            w,
        ),
        st => st2 == st,
    }
}

/// Bitwise and shift operations on two Int32 operands. Shift counts are masked
/// to five bits; `>>>` turns a result of 2^31 or more into a double, or
/// deoptimizes in the raw-i32 loop shape, which cannot hold one.
#[verifier::spinoff_prover]
#[verifier::rlimit(80)]
pub fn emit_opt_guarded_int_binary(
    code: &mut Code,
    env: &OptEnv<'_>,
    provenance: &mut Vec<OptProvenance>,
    depth: usize,
    operation: ScalarBitwiseOp,
    lhs: OptPair,
    rhs: OptPair,
    pc: u32,
    guard: u32,
) -> (r: Result<usize, CompileFailure>)
    requires
        env.wf(old(code).len()),
        depth <= env.stack@.len(),
        depth <= old(provenance)@.len(),
        lhs.payload < old(code).len(),
        lhs.tag < old(code).len(),
        rhs.payload < old(code).len(),
        rhs.tag < old(code).len(),
    ensures
        kept(*old(code), *final(code)),
        r is Ok && env.typed(*old(code)) && pair_held(*old(code), lhs) && pair_held(*old(code), rhs)
            ==> steady(*old(code), *final(code)),
        r is Ok <==> depth >= 2,
        r is Err ==> r == Err::<usize, CompileFailure>(CompileFailure::InvalidArtifact),
        final(code).len() >= old(code).len(),
        r matches Ok(d) ==> d == depth - 1 && final(provenance)@ == folded(old(provenance)@, depth - 2),
        r is Ok ==> forall|w: World|
            #![trigger final(code).at(w)]
            int_binary_post(
                *env,
                old(code).at(w),
                final(code).at(w),
                old(code).len(),
                operation,
                lhs,
                rhs,
                old(provenance)@,
                depth as int,
                pc,
                guard,
                w,
            ),
{
    if depth < 2 {
        return Err(CompileFailure::InvalidArtifact);
    }
    let output: usize = depth - 2;
    let li = opt_i32(code, env.int32_loop, lhs);
    let ghost c1 = *code;
    let ri = opt_i32(code, env.int32_loop, rhs);
    let ghost c2 = *code;
    let result = bitwise(code, operation, li, ri);
    let ghost c3 = *code;
    let pair = if operation == ScalarBitwiseOp::Shr {
        let fits_int32 = code.compare_imm(IntCc::SignedGreaterThanOrEqual, Ty::I32, result, 0);
        if env.int32_loop {
            let ghost b1 = *code;
            if let Err(e) = emit_opt_guard_branch(code, env, provenance, depth, pc, guard, fits_int32) {
                return Err(e);
            }
            let ghost b2 = *code;
            let pair = opt_int_pair(code, true, result);
            proof {
                assert forall|w: World|
                    #![trigger code.at(w)]
                    match c3.at(w) {
                        Status::Run(s) => pair_post(
                            *env,
                            code.at(w),
                            s,
                            c3.len(),
                            if s.vals[result as int] >= 0 {
                                Some((s.vals[result as int], JS_TAG_INT as int))
                            } else {
                                None
                            },
                            pair,
                            old(provenance)@,
                            depth as int,
                            pc,
                            guard,
                            w,
                        ),
                        st => code.at(w) == st,
                    } by {
                    let a1 = b1.at(w);
                    let a2 = b2.at(w);
                    if let Status::Run(s) = c3.at(w) {
                        same_deopt(*env, s, a1->Run_0, old(provenance)@, depth as nat, pc, guard, w);
                    }
                }
            }
            pair
        } else {
            let int_payload = code.convert(ConvertOp::SignExtend, Ty::I32, Ty::I64, result);
            let uint_float = code.convert(ConvertOp::FloatFromUnsigned, Ty::I32, Ty::F64, result);
            let float_payload = code.convert(ConvertOp::Bitcast, Ty::F64, Ty::I64, uint_float);
            let int_tag = code.iconst(Ty::I64, JS_TAG_INT as i64);
            let float_tag = code.iconst(Ty::I64, JS_TAG_FLOAT64 as i64);
            let payload = code.select(Ty::I64, fits_int32, int_payload, float_payload);
            let tag = code.select(Ty::I64, fits_int32, int_tag, float_tag);
            OptPair { payload, tag }
        }
    } else {
        opt_int_pair(code, env.int32_loop, result)
    };
    let ghost c4 = *code;
    opt_define(code, env.stack[output], pair);
    provenance.set(output, OptProvenance::ImmediatePrimitive);
    provenance.set(output + 1, OptProvenance::Unknown);
    proof {
        assert forall|w: World|
            #![trigger code.at(w)]
            int_binary_post(
                *env,
                old(code).at(w),
                code.at(w),
                old(code).len(),
                operation,
                lhs,
                rhs,
                old(provenance)@,
                depth as int,
                pc,
                guard,
                w,
            ) by {
            let a1 = c1.at(w);
            let a2 = c2.at(w);
            let a3 = c3.at(w);
            let a4 = c4.at(w);
            if let Status::Run(s) = old(code).at(w) {
                same_deopt(*env, s, a3->Run_0, old(provenance)@, depth as nat, pc, guard, w);
            }
        }
    }
    Ok(output + 1)
}

} // verus!
