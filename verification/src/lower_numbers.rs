//! Lowering of arithmetic, comparison and updates of numbers.
use crate::arithmetic::emit_opt_checked_add;
use crate::arithmetic::emit_opt_checked_update;
use crate::arithmetic::emit_opt_guarded_int_binary;
use crate::arithmetic::bitwise_result;
use crate::arithmetic::folded;
use crate::arithmetic::int_payload;
use crate::arithmetic::int_sum_of;
use crate::arithmetic::may_deopt;
use crate::arithmetic::pair_post;
use crate::arithmetic::sum_of;
use crate::checks::forbid;
use crate::checks::rejoin;
use crate::checks::require;
use crate::checks::steers;
use crate::code::holds;
use crate::code::in_range;
use crate::code::quotient;
use crate::code::truth;
use crate::code::value;
use crate::code::waits_for_known_blocks;
use crate::code::wrap;
use crate::code::BinaryOp;
use crate::code::kept;
use crate::code::Code;
use crate::code::ConvertOp;
use crate::code::FloatCc;
use crate::code::FloatOp;
use crate::code::IntCc;
use crate::code::State;
use crate::code::Status;
use crate::code::Ty;
use crate::code::World;
use crate::control::CompileFailure;
use crate::elements::checked_chain;
use crate::elements::passes;
use crate::exits::deopt_depends_on_frame;
use crate::exits::deopt_trace;
use crate::exits::placed_failure;
use crate::scalar_ops::operation_placed;
use crate::frame::exits_with;
use crate::frame::runs_on;
use crate::frame::OptEnv;
use crate::lower_moves::Destination;
use crate::lower_values::group_truths;
use crate::lower_values::number_of;
use crate::lower_values::opt_bool_pair;
use crate::lower_values::opt_define;
use crate::lower_values::opt_f64;
use crate::lower_values::opt_i32;
use crate::lower_values::opt_int_pair;
use crate::lower_values::opt_store;
use crate::lower_values::opt_tag_is;
use crate::lower_values::opt_use;
use crate::lower_values::pair_stores;
use crate::lower_values::vars_after;
use crate::lower_values::OptPair;
use crate::lower_values::OptVars;
use crate::lowering::holds_value;
use crate::lowering::LowerState;
use crate::lowering::Lowered;
use crate::ownership::invalidated;
use crate::ownership::opt_invalidate_provenance;
use crate::provenance::OptProvenance;
use crate::qjs::JS_TAG_BOOL;
use crate::qjs::JS_TAG_FLOAT64;
use crate::qjs::JS_TAG_INT;
use crate::scalar::checks_pass;
use crate::scalar::frame_vars;
use crate::scalar::proven_mode;
use crate::scalar::proven_of;
use crate::scalar::OperandMode;
use crate::scalar::ScalarBinaryOp;
use crate::scalar::ScalarCompareOp;
use crate::scalar::ScalarOperation;
use crate::scalar_ops::opt_prepare_scalar_operation;
use crate::scalar_ops::operation_ready;
use crate::scalar_ops::NodeSite;
use crate::scalar_ops::ScalarNode;
use crate::specialization::ScalarNumericMode;
use crate::typing::steady;
use crate::typing::closing;
use crate::typing::calm;
use crate::assemble::Known;
use crate::frame_typing::pair_held;
use crate::frame_typing::slot_named;
use crate::frame_typing::slots_named;
use crate::frame_typing::cached_named;
use crate::frame_typing::cache_named;
use crate::frame_typing::state_held;
use vstd::prelude::*;

verus! {

broadcast use {
    crate::typing::group_typing,
    crate::frame_typing::group_frame,
    vstd::std_specs::btree::group_btree_axioms,
    crate::exits::own_failures,
};

/// What a node needs of the scalar graph: where it stands, its operation, and
/// what is known of the operands.
pub struct Scalars<'a> {
    pub site: NodeSite,
    pub node: &'a ScalarNode,
    pub proven: &'a Vec<Option<OperandMode>>,
}

/// The operation can be prepared.
pub open spec fn ready(env: OptEnv<'_>, g: Scalars<'_>, m: Lowered) -> bool {
    operation_ready(env, g.site, *g.node, m.depth, m.provenance, m.values, g.proven@)
}

/// Why an operation on numbers is not lowered: the stack is too low, the operands
/// cannot be prepared, or the operation itself cannot deoptimize.
pub open spec fn number_failure(env: OptEnv<'_>, g: Scalars<'_>, enough: bool, fitting: bool, m: Lowered) -> CompileFailure {
    if !enough {
        CompileFailure::InvalidArtifact
    } else if !ready(env, g, m) {
        placed_failure(
            operation_placed(env, g.site, *g.node, m.depth, m.values, g.proven@),
            env,
            m.provenance,
            m.depth,
        )
    } else {
        placed_failure(fitting, env, m.provenance, m.depth)
    }
}

/// An update that may have to deoptimize can do so.
pub open spec fn update_placed(env: OptEnv<'_>, g: Scalars<'_>) -> bool {
    g.node.operation matches Some(ScalarOperation::Update { mode, .. }) && (env.int32_loop ==> mode == OperandMode::Int32)
        && g.site.guard is Some
}

/// The frame as the scalar graph has it.
pub open spec fn restored(env: OptEnv<'_>, g: Scalars<'_>, m: Lowered, s: State) -> Map<int, int> {
    frame_vars(env, g.node.frame->Some_0, m.values, s.vars, s.vals)
}

pub open spec fn checked(g: Scalars<'_>, m: Lowered, s: State) -> bool {
    checks_pass(g.node.checks@, g.proven@, m.values, s.vals, g.node.checks@.len() as int)
}

/// Where the operands are as expected and there is a result, the slot takes it;
/// otherwise the instruction deoptimizes before any effect.
pub open spec fn operation_post(
    env: OptEnv<'_>,
    g: Scalars<'_>,
    m: Lowered,
    expected: Option<(int, int)>,
    slot: OptVars,
    s: State,
    st2: Status,
    n: int,
    w: World,
) -> bool {
    let vars = restored(env, g, m, s);
    if checked(g, m, s) && expected is Some {
        runs_on(st2, s, n, vars_after(vars, slot, expected->Some_0.0, expected->Some_0.1), s.trace)
    } else {
        exits_with(
            st2,
            deopt_trace(env, s, vars, s.trace, m.provenance, m.depth as nat, g.site.pc, g.site.guard->Some_0, w),
        )
    }
}

pub open spec fn float_op(op: ScalarBinaryOp) -> FloatOp {
    match op {
        ScalarBinaryOp::Add => FloatOp::Add,
        ScalarBinaryOp::Sub => FloatOp::Sub,
        ScalarBinaryOp::Mul => FloatOp::Mul,
        ScalarBinaryOp::Div => FloatOp::Div,
    }
}

fn find_float_op(op: ScalarBinaryOp) -> (r: FloatOp)
    ensures
        r == float_op(op),
{
    match op {
        ScalarBinaryOp::Add => FloatOp::Add,
        ScalarBinaryOp::Sub => FloatOp::Sub,
        ScalarBinaryOp::Mul => FloatOp::Mul,
        ScalarBinaryOp::Div => FloatOp::Div,
    }
}

/// The Int32 that an operation on two Int32 yields, where it yields one: it does
/// not overflow, is not negative zero, and a quotient is exact.
pub open spec fn integer_result(op: ScalarBinaryOp, l: int, r: int) -> Option<int> {
    match op {
        ScalarBinaryOp::Add => if in_range(Ty::I32, l + r) {
            Some(l + r)
        } else {
            None
        },
        ScalarBinaryOp::Sub => if in_range(Ty::I32, l - r) {
            Some(l - r)
        } else {
            None
        },
        ScalarBinaryOp::Mul => if in_range(Ty::I32, l * r) && !(l == 0 && r < 0) && !(r == 0 && l < 0) {
            Some(l * r)
        } else {
            None
        },
        ScalarBinaryOp::Div => if r == 0 || l == i32::MIN && r == -1 || l == 0 && r < 0 || l != r * quotient(l, r) {
            None
        } else {
            Some(wrap(Ty::I32, quotient(l, r)))
        },
    }
}

/// The result of an operation in the given mode: of doubles, of Int32, or of
/// numbers of either kind, where a sum of two Int32 stays one if it can.
pub open spec fn binary_result(
    op: ScalarBinaryOp,
    mode: OperandMode,
    int32_loop: bool,
    lp: int,
    lt: int,
    rp: int,
    rt: int,
    w: World,
) -> Option<(int, int)> {
    match mode {
        OperandMode::Float64 => Some(((w.float_binary)(float_op(op), lp, rp), JS_TAG_FLOAT64 as int)),
        OperandMode::Int32 => match integer_result(op, int_payload(int32_loop, lp), int_payload(int32_loop, rp)) {
            Some(x) => Some((x, JS_TAG_INT as int)),
            None => None,
        },
        OperandMode::Number => {
            let exact = wrap(Ty::I32, lp) + wrap(Ty::I32, rp);
            if op == ScalarBinaryOp::Add && lt == JS_TAG_INT && rt == JS_TAG_INT && in_range(Ty::I32, exact) {
                Some((exact, JS_TAG_INT as int))
            } else {
                Some(
                    (
                        (w.float_binary)(float_op(op), number_of(lp, lt, w), number_of(rp, rt, w)),
                        JS_TAG_FLOAT64 as int,
                    ),
                )
            }
        },
    }
}

/// Divides two Int32; control leaves for `failed` where the result is none.
fn divide(code: &mut Code, l: usize, r: usize, failed: usize) -> (x: usize)
    requires
        failed < old(code).len(),
        l < old(code).len(),
        r < old(code).len(),
    ensures
        kept(*old(code), *final(code)),
        old(code).holds(l, Ty::I32) && old(code).holds(r, Ty::I32) && old(code).blocked(failed)
            ==> steady(*old(code), *final(code)),
        final(code).kind(x as int) == Known::Value(Ty::I32),
        x < final(code).len(),
        final(code).len() >= old(code).len(),
        forall|w: World|
            #![trigger final(code).at(w)]
            match old(code).at(w) {
                Status::Run(s) => {
                    let expected = integer_result(ScalarBinaryOp::Div, s.vals[l as int], s.vals[r as int]);
                    &&& steers(final(code).at(w), s, old(code).len(), failed, expected is Some, s.vars, s.trace)
                    &&& expected is Some ==> value(final(code).at(w), x) == expected->Some_0
                },
                st => final(code).at(w) == st,
            },
{
    let ghost c0 = *code;
    let zero = code.compare_imm(IntCc::Equal, Ty::I32, r, 0);
    let min = code.compare_imm(IntCc::Equal, Ty::I32, l, i32::MIN as i64);
    let negative_one = code.compare_imm(IntCc::Equal, Ty::I32, r, -1);
    let min_overflow = code.binary(BinaryOp::And, Ty::I8, min, negative_one);
    let zero_lhs = code.compare_imm(IntCc::Equal, Ty::I32, l, 0);
    let negative_rhs = code.compare_imm(IntCc::SignedLessThan, Ty::I32, r, 0);
    let negative_zero = code.binary(BinaryOp::And, Ty::I8, zero_lhs, negative_rhs);
    let either = code.binary(BinaryOp::Or, Ty::I8, zero, min_overflow);
    let exceptional = code.binary(BinaryOp::Or, Ty::I8, either, negative_zero);
    let ghost c1 = *code;
    proof {
        broadcast use group_truths;

        assert forall|w: World|
            #![trigger c1.at(w)]
            match c0.at(w) {
                Status::Run(s) => {
                    let a = s.vals[l as int];
                    let b = s.vals[r as int];
                    &&& runs_on(c1.at(w), s, c0.len(), s.vars, s.trace)
                    &&& value(c1.at(w), exceptional) == truth(b == 0 || a == i32::MIN && b == -1 || a == 0 && b < 0)
                },
                st => c1.at(w) == st,
            } by {}
    }
    forbid(code, exceptional, failed);
    let ghost c2 = *code;
    let remainder = code.binary(BinaryOp::Srem, Ty::I32, l, r);
    let exact = code.compare_imm(IntCc::Equal, Ty::I32, remainder, 0);
    let ghost c3 = *code;
    require(code, exact, failed);
    let ghost c4 = *code;
    let result = code.binary(BinaryOp::Sdiv, Ty::I32, l, r);
    proof {
        assert forall|w: World|
            #![trigger code.at(w)]
            match c0.at(w) {
                Status::Run(s) => {
                    let expected = integer_result(ScalarBinaryOp::Div, s.vals[l as int], s.vals[r as int]);
                    &&& steers(code.at(w), s, c0.len(), failed, expected is Some, s.vars, s.trace)
                    &&& expected is Some ==> value(code.at(w), result) == expected->Some_0
                },
                st => code.at(w) == st,
            } by {
            let a = c1.at(w);
            let b = c2.at(w);
            let c = c3.at(w);
            let d = c4.at(w);
        }
    }
    result
}

/// An operation on two Int32; control leaves for `failed` where the result is
/// none.
fn integer_operation(code: &mut Code, op: ScalarBinaryOp, l: usize, r: usize, failed: usize) -> (x: usize)
    requires
        failed < old(code).len(),
        l < old(code).len(),
        r < old(code).len(),
    ensures
        kept(*old(code), *final(code)),
        old(code).holds(l, Ty::I32) && old(code).holds(r, Ty::I32) && old(code).blocked(failed)
            ==> steady(*old(code), *final(code)),
        final(code).kind(x as int) == Known::Value(Ty::I32),
        x < final(code).len(),
        final(code).len() >= old(code).len(),
        forall|w: World|
            #![trigger final(code).at(w)]
            match old(code).at(w) {
                Status::Run(s) => {
                    let expected = integer_result(op, s.vals[l as int], s.vals[r as int]);
                    &&& steers(final(code).at(w), s, old(code).len(), failed, expected is Some, s.vars, s.trace)
                    &&& expected is Some ==> value(final(code).at(w), x) == expected->Some_0
                },
                st => final(code).at(w) == st,
            },
{
    let ghost c0 = *code;
    let machine = match op {
        ScalarBinaryOp::Add => BinaryOp::Add,
        ScalarBinaryOp::Sub => BinaryOp::Sub,
        ScalarBinaryOp::Mul => BinaryOp::Mul,
        ScalarBinaryOp::Div => {
            return divide(code, l, r, failed);
        },
    };
    let (result, lost) = code.overflowing(machine, Ty::I32, l, r);
    let ghost c1 = *code;
    let failure: usize = if op == ScalarBinaryOp::Mul {
        let lhs_zero = code.compare_imm(IntCc::Equal, Ty::I32, l, 0);
        let rhs_zero = code.compare_imm(IntCc::Equal, Ty::I32, r, 0);
        let lhs_negative = code.compare_imm(IntCc::SignedLessThan, Ty::I32, l, 0);
        let rhs_negative = code.compare_imm(IntCc::SignedLessThan, Ty::I32, r, 0);
        let zero_by_negative = code.binary(BinaryOp::And, Ty::I8, lhs_zero, rhs_negative);
        let negative_by_zero = code.binary(BinaryOp::And, Ty::I8, rhs_zero, lhs_negative);
        let negative_zero = code.binary(BinaryOp::Or, Ty::I8, zero_by_negative, negative_by_zero);
        code.binary(BinaryOp::Or, Ty::I8, lost, negative_zero)
    } else {
        lost
    };
    let ghost c2 = *code;
    proof {
        broadcast use group_truths;

        assert forall|w: World|
            #![trigger c2.at(w)]
            match c0.at(w) {
                Status::Run(s) => {
                    let expected = integer_result(op, s.vals[l as int], s.vals[r as int]);
                    &&& runs_on(c2.at(w), s, c0.len(), s.vars, s.trace)
                    &&& value(c2.at(w), failure) == truth(expected is None)
                    &&& expected is Some ==> value(c2.at(w), result) == expected->Some_0
                },
                st => c2.at(w) == st,
            } by {
            let a = c1.at(w);
        }
    }
    forbid(code, failure, failed);
    proof {
        assert forall|w: World|
            #![trigger code.at(w)]
            match c0.at(w) {
                Status::Run(s) => {
                    let expected = integer_result(op, s.vals[l as int], s.vals[r as int]);
                    &&& steers(code.at(w), s, c0.len(), failed, expected is Some, s.vars, s.trace)
                    &&& expected is Some ==> value(code.at(w), result) == expected->Some_0
                },
                st => code.at(w) == st,
            } by {
            let a = c2.at(w);
        }
    }
    result
}

/// Preparing an operation, computing its result and assigning it, one after the
/// other.
proof fn composed(
    env: OptEnv<'_>,
    g: Scalars<'_>,
    m: Lowered,
    expected: Option<(int, int)>,
    slot: OptVars,
    pair: OptPair,
    s: State,
    st1: Status,
    st2: Status,
    st3: Status,
    n: int,
    n1: int,
    w: World,
)
    requires
        env.wf(n),
        n <= n1,
        m.depth >= 0,
        passes(
            env,
            st1,
            s,
            n,
            checked(g, m, s),
            restored(env, g, m, s),
            s.trace,
            m.provenance,
            m.depth,
            g.site.pc,
            g.site.guard->Some_0,
            w,
        ),
        match st1 {
            Status::Run(t) => pair_post(
                env,
                st2,
                t,
                n1,
                expected,
                pair,
                m.provenance,
                m.depth,
                g.site.pc,
                g.site.guard->Some_0,
                w,
            ),
            st => st2 == st,
        },
        st3 == match st2 {
            Status::Run(t) => Status::Run(
                State { vars: vars_after(t.vars, slot, t.vals[pair.payload as int], t.vals[pair.tag as int]), ..t },
            ),
            st => st,
        },
    ensures
        operation_post(env, g, m, expected, slot, s, st3, n, w),
        st3 is Run ==> expected is Some && holds_value(st3, pair, expected->Some_0.0, expected->Some_0.1),
{
    if let Status::Run(t) = st1 {
        deopt_depends_on_frame(
            env,
            s,
            t,
            t.vars,
            t.trace,
            m.provenance,
            m.depth as nat,
            g.site.pc,
            g.site.guard->Some_0,
            w,
        );
    }
}

/// An operation on two doubles.
#[verifier::rlimit(40)]
fn double_operation(code: &mut Code, op: ScalarBinaryOp, lhs: OptPair, rhs: OptPair) -> (r: OptPair)
    requires
        lhs.payload < old(code).len(),
        lhs.tag < old(code).len(),
        rhs.payload < old(code).len(),
        rhs.tag < old(code).len(),
    ensures
        kept(*old(code), *final(code)),
        pair_held(*old(code), lhs) && pair_held(*old(code), rhs) ==> steady(*old(code), *final(code)),
        pair_held(*final(code), r),
        final(code).len() >= old(code).len(),
        r.payload < final(code).len(),
        r.tag < final(code).len(),
        forall|w: World|
            #![trigger final(code).at(w)]
            match old(code).at(w) {
                Status::Run(s) => {
                    let expected = binary_result(
                        op,
                        OperandMode::Float64,
                        false,
                        s.vals[lhs.payload as int],
                        s.vals[lhs.tag as int],
                        s.vals[rhs.payload as int],
                        s.vals[rhs.tag as int],
                        w,
                    );
                    &&& runs_on(final(code).at(w), s, old(code).len(), s.vars, s.trace)
                    &&& value(final(code).at(w), r.payload) == expected->Some_0.0
                    &&& value(final(code).at(w), r.tag) == expected->Some_0.1
                },
                st => final(code).at(w) == st,
            },
{
    let l = code.convert(ConvertOp::Bitcast, Ty::I64, Ty::F64, lhs.payload);
    let r = code.convert(ConvertOp::Bitcast, Ty::I64, Ty::F64, rhs.payload);
    let result = code.float_binary(find_float_op(op), l, r);
    let payload = code.convert(ConvertOp::Bitcast, Ty::F64, Ty::I64, result);
    let tag = code.iconst(Ty::I64, JS_TAG_FLOAT64 as i64);
    OptPair { payload, tag }
}

/// An operation on two numbers of either kind.
#[verifier::rlimit(40)]
fn number_operation(code: &mut Code, op: ScalarBinaryOp, lhs: OptPair, rhs: OptPair) -> (r: OptPair)
    requires
        lhs.payload < old(code).len(),
        lhs.tag < old(code).len(),
        rhs.payload < old(code).len(),
        rhs.tag < old(code).len(),
    ensures
        kept(*old(code), *final(code)),
        pair_held(*old(code), lhs) && pair_held(*old(code), rhs) ==> steady(*old(code), *final(code)),
        pair_held(*final(code), r),
        final(code).len() >= old(code).len(),
        r.payload < final(code).len(),
        r.tag < final(code).len(),
        forall|w: World|
            #![trigger final(code).at(w)]
            match old(code).at(w) {
                Status::Run(s) => {
                    let expected = binary_result(
                        op,
                        OperandMode::Number,
                        false,
                        s.vals[lhs.payload as int],
                        s.vals[lhs.tag as int],
                        s.vals[rhs.payload as int],
                        s.vals[rhs.tag as int],
                        w,
                    );
                    &&& runs_on(final(code).at(w), s, old(code).len(), s.vars, s.trace)
                    &&& value(final(code).at(w), r.payload) == expected->Some_0.0
                    &&& value(final(code).at(w), r.tag) == expected->Some_0.1
                },
                st => final(code).at(w) == st,
            },
{
    let l = opt_f64(code, lhs);
    let ghost c1 = *code;
    let r = opt_f64(code, rhs);
    let ghost c2 = *code;
    let result = code.float_binary(find_float_op(op), l, r);
    let float_payload = code.convert(ConvertOp::Bitcast, Ty::F64, Ty::I64, result);
    let float_tag = code.iconst(Ty::I64, JS_TAG_FLOAT64 as i64);
    let ghost c3 = *code;
    if op != ScalarBinaryOp::Add {
        proof {
            assert forall|w: World| #[trigger] code.at(w) == code.at(w) by {
                let a = c1.at(w);
                let b = c2.at(w);
            }
        }
        return OptPair { payload: float_payload, tag: float_tag };
    }
    let lhs_int = opt_tag_is(code, lhs.tag, JS_TAG_INT);
    let rhs_int = opt_tag_is(code, rhs.tag, JS_TAG_INT);
    let both_int = code.binary(BinaryOp::And, Ty::I8, lhs_int, rhs_int);
    let ghost c4 = *code;
    let li = code.convert(ConvertOp::Reduce, Ty::I64, Ty::I32, lhs.payload);
    let ri = code.convert(ConvertOp::Reduce, Ty::I64, Ty::I32, rhs.payload);
    let (sum, overflow) = code.overflowing(BinaryOp::Add, Ty::I32, li, ri);
    let no_overflow = code.binary_imm(BinaryOp::Xor, Ty::I8, overflow, 1);
    let keep_int = code.binary(BinaryOp::And, Ty::I8, both_int, no_overflow);
    let ghost c5 = *code;
    let int_payload = code.convert(ConvertOp::SignExtend, Ty::I32, Ty::I64, sum);
    let int_tag = code.iconst(Ty::I64, JS_TAG_INT as i64);
    let payload = code.select(Ty::I64, keep_int, int_payload, float_payload);
    let tag = code.select(Ty::I64, keep_int, int_tag, float_tag);
    proof {
        broadcast use group_truths;

        assert forall|w: World| #[trigger] code.at(w) == code.at(w) by {
            let a = c1.at(w);
            let b = c2.at(w);
            let c = c3.at(w);
            let d = c4.at(w);
            let e = c5.at(w);
        }
    }
    OptPair { payload, tag }
}

/// Computes the result of an operation whose operands have been checked.
#[verifier::rlimit(40)]
fn compute_binary(
    code: &mut Code,
    env: &OptEnv<'_>,
    provenance: &Vec<OptProvenance>,
    depth: usize,
    op: ScalarBinaryOp,
    mode: OperandMode,
    lhs: OptPair,
    rhs: OptPair,
    pc: u32,
    guard: Option<u32>,
) -> (r: Result<OptPair, CompileFailure>)
    requires
        env.wf(old(code).len()),
        depth <= env.stack@.len(),
        lhs.payload < old(code).len(),
        lhs.tag < old(code).len(),
        rhs.payload < old(code).len(),
        rhs.tag < old(code).len(),
    ensures
        kept(*old(code), *final(code)),
        r is Ok && env.typed(*old(code)) && pair_held(*old(code), lhs) && pair_held(*old(code), rhs)
            ==> steady(*old(code), *final(code)),
        r is Ok && env.typed(*old(code)) && pair_held(*old(code), lhs) && pair_held(*old(code), rhs)
            ==> pair_held(*final(code), r->Ok_0),
        r is Ok <==> (mode == OperandMode::Int32 ==> guard is Some && may_deopt(*env, provenance@, depth as int)),
        r matches Err(e) ==> e == placed_failure(guard is Some, *env, provenance@, depth as int),
        final(code).len() >= old(code).len(),
        r matches Ok(pair) ==> pair.payload < final(code).len() && pair.tag < final(code).len() && forall|w: World|
            #![trigger final(code).at(w)]
            match old(code).at(w) {
                Status::Run(s) => pair_post(
                    *env,
                    final(code).at(w),
                    s,
                    old(code).len(),
                    binary_result(
                        op,
                        mode,
                        env.int32_loop,
                        s.vals[lhs.payload as int],
                        s.vals[lhs.tag as int],
                        s.vals[rhs.payload as int],
                        s.vals[rhs.tag as int],
                        w,
                    ),
                    pair,
                    provenance@,
                    depth as int,
                    pc,
                    guard->Some_0,
                    w,
                ),
                st => final(code).at(w) == st,
            },
{
    let ghost c0 = *code;
    match mode {
        OperandMode::Float64 => Ok(double_operation(code, op, lhs, rhs)),
        OperandMode::Int32 => {
            let guard = match guard {
                Some(guard) => guard,
                None => {
                    return Err(CompileFailure::InvalidArtifact);
                },
            };
            let failed = code.new_cold_block();
            let ghost c1 = *code;
            let l = opt_i32(code, env.int32_loop, lhs);
            let ghost c2 = *code;
            let r = opt_i32(code, env.int32_loop, rhs);
            let ghost c3 = *code;
            let result = integer_operation(code, op, l, r, failed);
            let ghost c4 = *code;
            if let Err(e) = rejoin(code, env, failed, provenance, depth, pc, guard) {
                return Err(e);
            }
            let ghost c5 = *code;
            let pair = opt_int_pair(code, env.int32_loop, result);
            proof {
                assert forall|w: World|
                    #![trigger code.at(w)]
                    match c0.at(w) {
                        Status::Run(s) => pair_post(
                            *env,
                            code.at(w),
                            s,
                            c0.len(),
                            binary_result(
                                op,
                                mode,
                                env.int32_loop,
                                s.vals[lhs.payload as int],
                                s.vals[lhs.tag as int],
                                s.vals[rhs.payload as int],
                                s.vals[rhs.tag as int],
                                w,
                            ),
                            pair,
                            provenance@,
                            depth as int,
                            pc,
                            guard,
                            w,
                        ),
                        st => code.at(w) == st,
                    } by {
                    waits_for_known_blocks(c0.insts@, w);
                    let a = c1.at(w);
                    let b = c2.at(w);
                    let c = c3.at(w);
                    let d = c4.at(w);
                    let e = c5.at(w);
                    if let Status::Run(s) = c0.at(w) {
                        let expected = integer_result(
                            op,
                            int_payload(env.int32_loop, s.vals[lhs.payload as int]),
                            int_payload(env.int32_loop, s.vals[rhs.payload as int]),
                        );
                        assert(steers(d, s, c0.len(), failed, expected is Some, s.vars, s.trace));
                        checked_chain(
                            *env,
                            s,
                            d,
                            e,
                            c0.len(),
                            failed,
                            expected is Some,
                            s.vars,
                            s.trace,
                            provenance@,
                            depth as int,
                            pc,
                            guard,
                            w,
                        );
                    }
                }
            }
            Ok(pair)
        },
        OperandMode::Number => Ok(number_operation(code, op, lhs, rhs)),
    }
}

pub open spec fn binary_ready(env: OptEnv<'_>, g: Scalars<'_>, m: Lowered) -> bool {
    &&& m.depth >= 2
    &&& ready(env, g, m)
    &&& g.node.operation matches Some(ScalarOperation::Binary { mode, .. }) && (mode == OperandMode::Int32 ==> g.site.guard is Some
        && may_deopt(env, m.provenance, m.depth))
}

/// The two operands are replaced by the result, which stays at hand.
pub open spec fn binary_lowered(env: OptEnv<'_>, g: Scalars<'_>, a: Code, m: Lowered, b: Code, m2: Lowered) -> bool {
    &&& a.len() <= b.len()
    &&& m2.reusable.contains_key(g.site.id)
    &&& m2 == m.pop(2).push(OptProvenance::ImmediatePrimitive).remember(g.site.id, m2.reusable[g.site.id])
    &&& g.node.operation matches Some(ScalarOperation::Binary { op, mode, lhs, rhs }) && forall|w: World|
        #![trigger b.at(w)]
        match a.at(w) {
            Status::Run(s) => {
                let l = m.values[lhs];
                let r = m.values[rhs];
                let expected = binary_result(
                    op,
                    mode,
                    env.int32_loop,
                    s.vals[l.payload as int],
                    s.vals[l.tag as int],
                    s.vals[r.payload as int],
                    s.vals[r.tag as int],
                    w,
                );
                &&& operation_post(env, g, m, expected, env.stack@[m.depth - 2], s, b.at(w), a.len(), w)
                &&& holds_value(b.at(w), m2.reusable[g.site.id], expected->Some_0.0, expected->Some_0.1)
            },
            st => b.at(w) == st,
        }
}

/// `add`, `sub`, `mul` and `div`.
#[verifier::rlimit(40)]
pub fn lower_binary(code: &mut Code, env: &OptEnv<'_>, ls: &mut LowerState, g: &Scalars<'_>) -> (r: Result<(), CompileFailure>)
    requires
        env.wf(old(code).len()),
        old(ls)@.wf(*env, old(code).len()),
    ensures
        kept(*old(code), *final(code)),
        r is Ok && env.typed(*old(code)) && state_held(*old(code), *old(ls)) ==> steady(*old(code), *final(code)),
        r is Ok && env.typed(*old(code)) && state_held(*old(code), *old(ls)) ==> state_held(*final(code), *final(ls)),
        r is Ok <==> binary_ready(*env, *g, old(ls)@),
        r matches Err(e) ==> e == number_failure(*env, *g, old(ls)@.depth >= 2, g.node.operation matches Some(ScalarOperation::Binary { .. }) && g.site.guard is Some, old(ls)@),
        r is Ok ==> final(ls)@.wf(*env, final(code).len()) && binary_lowered(
            *env,
            *g,
            *old(code),
            old(ls)@,
            *final(code),
            final(ls)@,
        ),
{
    if ls.depth < 2 {
        return Err(CompileFailure::InvalidArtifact);
    }
    let ghost c0 = *code;
    let (lhs, rhs) = match opt_prepare_scalar_operation(
        code,
        env,
        g.site,
        g.node,
        ls.depth,
        &ls.provenance,
        &ls.values,
        g.proven,
    ) {
        Ok(found) => found,
        Err(e) => {
            return Err(e);
        },
    };
    let ghost c1 = *code;
    let (op, mode) = match g.node.operation {
        Some(ScalarOperation::Binary { op, mode, .. }) => (op, mode),
        _ => {
            return Err(CompileFailure::InvalidArtifact);
        },
    };
    let rhs = match rhs {
        Some(rhs) => rhs,
        None => {
            return Err(CompileFailure::InvalidArtifact);
        },
    };
    let pair = match compute_binary(
        code,
        env,
        &ls.provenance,
        ls.depth,
        op,
        mode,
        lhs,
        rhs,
        g.site.pc,
        g.site.guard,
    ) {
        Ok(pair) => pair,
        Err(e) => {
            return Err(e);
        },
    };
    let ghost c2 = *code;
    let at: usize = ls.depth - 2;
    opt_define(code, env.stack[at], pair);
    ls.provenance[at] = OptProvenance::ImmediatePrimitive;
    ls.reusable.insert(g.site.id, pair);
    ls.depth = at + 1;
    proof {
        let m = old(ls)@;
        assert forall|w: World|
            #![trigger code.at(w)]
            match c0.at(w) {
                Status::Run(s) => {
                    let expected = binary_result(
                        op,
                        mode,
                        env.int32_loop,
                        s.vals[lhs.payload as int],
                        s.vals[lhs.tag as int],
                        s.vals[rhs.payload as int],
                        s.vals[rhs.tag as int],
                        w,
                    );
                    &&& operation_post(*env, *g, m, expected, env.stack@[m.depth - 2], s, code.at(w), c0.len(), w)
                    &&& holds_value(code.at(w), pair, expected->Some_0.0, expected->Some_0.1)
                },
                st => code.at(w) == st,
            } by {
            let a = c1.at(w);
            let b = c2.at(w);
            if let Status::Run(s) = c0.at(w) {
                let expected = binary_result(
                    op,
                    mode,
                    env.int32_loop,
                    s.vals[lhs.payload as int],
                    s.vals[lhs.tag as int],
                    s.vals[rhs.payload as int],
                    s.vals[rhs.tag as int],
                    w,
                );
                composed(
                    *env,
                    *g,
                    m,
                    expected,
                    env.stack@[m.depth - 2],
                    pair,
                    s,
                    a,
                    b,
                    code.at(w),
                    c0.len(),
                    c1.len(),
                    w,
                );
            }
        }
    }
    Ok(())
}

pub open spec fn bitwise_ready(env: OptEnv<'_>, g: Scalars<'_>, m: Lowered) -> bool {
    &&& m.depth >= 2
    &&& ready(env, g, m)
    &&& g.node.operation matches Some(ScalarOperation::Bitwise { .. })
    &&& g.site.guard is Some
}

/// The two operands are replaced by the result.
pub open spec fn bitwise_lowered(env: OptEnv<'_>, g: Scalars<'_>, a: Code, m: Lowered, b: Code, m2: Lowered) -> bool {
    &&& a.len() <= b.len()
    &&& m2 == Lowered { depth: m.depth - 1, provenance: folded(m.provenance, m.depth - 2), ..m }
    &&& g.node.operation matches Some(ScalarOperation::Bitwise { op, lhs, rhs }) && forall|w: World|
        #![trigger b.at(w)]
        match a.at(w) {
            Status::Run(s) => operation_post(
                env,
                g,
                m,
                bitwise_result(
                    op,
                    env.int32_loop,
                    s.vals[m.values[lhs].payload as int],
                    s.vals[m.values[rhs].payload as int],
                    w,
                ),
                env.stack@[m.depth - 2],
                s,
                b.at(w),
                a.len(),
                w,
            ),
            st => b.at(w) == st,
        }
}

/// Bitwise operations and shifts.
pub fn lower_bitwise(code: &mut Code, env: &OptEnv<'_>, ls: &mut LowerState, g: &Scalars<'_>) -> (r: Result<(), CompileFailure>)
    requires
        env.wf(old(code).len()),
        old(ls)@.wf(*env, old(code).len()),
    ensures
        kept(*old(code), *final(code)),
        r is Ok && env.typed(*old(code)) && state_held(*old(code), *old(ls)) ==> steady(*old(code), *final(code)),
        r is Ok && env.typed(*old(code)) && state_held(*old(code), *old(ls)) ==> state_held(*final(code), *final(ls)),
        r is Ok <==> bitwise_ready(*env, *g, old(ls)@),
        r matches Err(e) ==> e == number_failure(*env, *g, old(ls)@.depth >= 2, false, old(ls)@),
        r is Ok ==> final(ls)@.wf(*env, final(code).len()) && bitwise_lowered(
            *env,
            *g,
            *old(code),
            old(ls)@,
            *final(code),
            final(ls)@,
        ),
{
    if ls.depth < 2 {
        return Err(CompileFailure::InvalidArtifact);
    }
    let ghost c0 = *code;
    let (lhs, rhs) = match opt_prepare_scalar_operation(
        code,
        env,
        g.site,
        g.node,
        ls.depth,
        &ls.provenance,
        &ls.values,
        g.proven,
    ) {
        Ok(found) => found,
        Err(e) => {
            return Err(e);
        },
    };
    let ghost c1 = *code;
    let op = match g.node.operation {
        Some(ScalarOperation::Bitwise { op, .. }) => op,
        _ => {
            return Err(CompileFailure::InvalidArtifact);
        },
    };
    let rhs = match rhs {
        Some(rhs) => rhs,
        None => {
            return Err(CompileFailure::InvalidArtifact);
        },
    };
    let guard = match g.site.guard {
        Some(guard) => guard,
        None => {
            return Err(CompileFailure::InvalidArtifact);
        },
    };
    match emit_opt_guarded_int_binary(code, env, &mut ls.provenance, ls.depth, op, lhs, rhs, g.site.pc, guard) {
        Ok(depth) => {
            ls.depth = depth;
        },
        Err(e) => {
            return Err(e);
        },
    }
    proof {
        let m = old(ls)@;
        assert forall|w: World|
            #![trigger code.at(w)]
            match c0.at(w) {
                Status::Run(s) => operation_post(
                    *env,
                    *g,
                    m,
                    bitwise_result(op, env.int32_loop, s.vals[lhs.payload as int], s.vals[rhs.payload as int], w),
                    env.stack@[m.depth - 2],
                    s,
                    code.at(w),
                    c0.len(),
                    w,
                ),
                st => code.at(w) == st,
            } by {
            let a = c1.at(w);
            if let Status::Run(s) = c0.at(w) {
                if let Status::Run(t) = a {
                    deopt_depends_on_frame(
                        *env,
                        s,
                        t,
                        t.vars,
                        t.trace,
                        m.provenance,
                        m.depth as nat,
                        g.site.pc,
                        guard,
                        w,
                    );
                }
            }
        }
    }
    Ok(())
}

pub open spec fn integer_cc(op: ScalarCompareOp) -> IntCc {
    match op {
        ScalarCompareOp::LessThan => IntCc::SignedLessThan,
        ScalarCompareOp::LessEqual => IntCc::SignedLessThanOrEqual,
        ScalarCompareOp::GreaterThan => IntCc::SignedGreaterThan,
        ScalarCompareOp::GreaterEqual => IntCc::SignedGreaterThanOrEqual,
    }
}

pub open spec fn double_cc(op: ScalarCompareOp) -> FloatCc {
    match op {
        ScalarCompareOp::LessThan => FloatCc::LessThan,
        ScalarCompareOp::LessEqual => FloatCc::LessThanOrEqual,
        ScalarCompareOp::GreaterThan => FloatCc::GreaterThan,
        ScalarCompareOp::GreaterEqual => FloatCc::GreaterThanOrEqual,
    }
}

fn find_conditions(op: ScalarCompareOp) -> (r: (IntCc, FloatCc))
    ensures
        r == (integer_cc(op), double_cc(op)),
{
    match op {
        ScalarCompareOp::LessThan => (IntCc::SignedLessThan, FloatCc::LessThan),
        ScalarCompareOp::LessEqual => (IntCc::SignedLessThanOrEqual, FloatCc::LessThanOrEqual),
        ScalarCompareOp::GreaterThan => (IntCc::SignedGreaterThan, FloatCc::GreaterThan),
        ScalarCompareOp::GreaterEqual => (IntCc::SignedGreaterThanOrEqual, FloatCc::GreaterThanOrEqual),
    }
}

/// Both operands are known to be Int32.
pub open spec fn compares_integers(env: OptEnv<'_>, proven: Seq<Option<OperandMode>>, lhs: usize, rhs: usize) -> bool {
    env.int32_loop || proven_mode(proven, lhs) == Some(OperandMode::Int32) && proven_mode(proven, rhs) == Some(
        OperandMode::Int32,
    )
}

/// The comparison of two numbers, as Int32 where both are known to be.
pub open spec fn comparison_of(
    op: ScalarCompareOp,
    integers: bool,
    int32_loop: bool,
    lp: int,
    lt: int,
    rp: int,
    rt: int,
    w: World,
) -> bool {
    if integers {
        holds(integer_cc(op), Ty::I32, int_payload(int32_loop, lp), int_payload(int32_loop, rp))
    } else {
        (w.float_holds)(double_cc(op), number_of(lp, lt, w), number_of(rp, rt, w))
    }
}

pub open spec fn comparison_ready(env: OptEnv<'_>, g: Scalars<'_>, m: Lowered) -> bool {
    &&& m.depth >= 2
    &&& ready(env, g, m)
    &&& g.node.operation matches Some(ScalarOperation::Compare { .. })
}

/// The two operands are replaced by a truth value.
pub open spec fn comparison_lowered(env: OptEnv<'_>, g: Scalars<'_>, a: Code, m: Lowered, b: Code, m2: Lowered) -> bool {
    &&& a.len() <= b.len()
    &&& m2 == Lowered { depth: m.depth - 1, provenance: folded(m.provenance, m.depth - 2), ..m }
    &&& g.node.operation matches Some(ScalarOperation::Compare { op, lhs, rhs }) && forall|w: World|
        #![trigger b.at(w)]
        match a.at(w) {
            Status::Run(s) => {
                let l = m.values[lhs];
                let r = m.values[rhs];
                let holds = comparison_of(
                    op,
                    compares_integers(env, g.proven@, lhs, rhs),
                    env.int32_loop,
                    s.vals[l.payload as int],
                    s.vals[l.tag as int],
                    s.vals[r.payload as int],
                    s.vals[r.tag as int],
                    w,
                );
                operation_post(
                    env,
                    g,
                    m,
                    Some((truth(holds), JS_TAG_BOOL as int)),
                    env.stack@[m.depth - 2],
                    s,
                    b.at(w),
                    a.len(),
                    w,
                )
            },
            st => b.at(w) == st,
        }
}

fn compute_comparison(
    code: &mut Code,
    env: &OptEnv<'_>,
    op: ScalarCompareOp,
    integers: bool,
    lhs: OptPair,
    rhs: OptPair,
) -> (r: OptPair)
    requires
        env.wf(old(code).len()),
        lhs.payload < old(code).len(),
        lhs.tag < old(code).len(),
        rhs.payload < old(code).len(),
        rhs.tag < old(code).len(),
    ensures
        kept(*old(code), *final(code)),
        env.typed(*old(code)) && pair_held(*old(code), lhs) && pair_held(*old(code), rhs)
            ==> steady(*old(code), *final(code)),
        env.typed(*old(code)) ==> pair_held(*final(code), r),
        final(code).len() >= old(code).len(),
        r.payload < final(code).len(),
        r.tag < final(code).len(),
        forall|w: World|
            #![trigger final(code).at(w)]
            match old(code).at(w) {
                Status::Run(s) => {
                    let holds = comparison_of(
                        op,
                        integers,
                        env.int32_loop,
                        s.vals[lhs.payload as int],
                        s.vals[lhs.tag as int],
                        s.vals[rhs.payload as int],
                        s.vals[rhs.tag as int],
                        w,
                    );
                    &&& runs_on(final(code).at(w), s, old(code).len(), s.vars, s.trace)
                    &&& value(final(code).at(w), r.payload) == truth(holds)
                    &&& value(final(code).at(w), r.tag) == JS_TAG_BOOL
                },
                st => final(code).at(w) == st,
            },
{
    let ghost c0 = *code;
    let (integer, double) = find_conditions(op);
    if integers {
        let l = opt_i32(code, env.int32_loop, lhs);
        let ghost c1 = *code;
        let r = opt_i32(code, env.int32_loop, rhs);
        let ghost c2 = *code;
        let flag = code.compare(integer, Ty::I32, l, r);
        let ghost c3 = *code;
        let pair = opt_bool_pair(code, env.payload_type, flag);
        proof {
            assert forall|w: World| #[trigger] code.at(w) == code.at(w) by {
                let a = c1.at(w);
                let b = c2.at(w);
                let c = c3.at(w);
            }
        }
        pair
    } else {
        let l = opt_f64(code, lhs);
        let ghost c1 = *code;
        let r = opt_f64(code, rhs);
        let ghost c2 = *code;
        let flag = code.float_compare(double, l, r);
        let ghost c3 = *code;
        let pair = opt_bool_pair(code, env.payload_type, flag);
        proof {
            assert forall|w: World| #[trigger] code.at(w) == code.at(w) by {
                let a = c1.at(w);
                let b = c2.at(w);
                let c = c3.at(w);
            }
        }
        pair
    }
}

/// `lt`, `lte`, `gt` and `gte`.
#[verifier::rlimit(40)]
pub fn lower_comparison(code: &mut Code, env: &OptEnv<'_>, ls: &mut LowerState, g: &Scalars<'_>) -> (r: Result<
    (),
    CompileFailure,
>)
    requires
        env.wf(old(code).len()),
        old(ls)@.wf(*env, old(code).len()),
    ensures
        kept(*old(code), *final(code)),
        r is Ok && env.typed(*old(code)) && state_held(*old(code), *old(ls)) ==> steady(*old(code), *final(code)),
        r is Ok && env.typed(*old(code)) && state_held(*old(code), *old(ls)) ==> state_held(*final(code), *final(ls)),
        r is Ok <==> comparison_ready(*env, *g, old(ls)@),
        r matches Err(e) ==> e == number_failure(*env, *g, old(ls)@.depth >= 2, false, old(ls)@),
        r is Ok ==> final(ls)@.wf(*env, final(code).len()) && comparison_lowered(
            *env,
            *g,
            *old(code),
            old(ls)@,
            *final(code),
            final(ls)@,
        ),
{
    if ls.depth < 2 {
        return Err(CompileFailure::InvalidArtifact);
    }
    let ghost c0 = *code;
    let (lhs, rhs) = match opt_prepare_scalar_operation(
        code,
        env,
        g.site,
        g.node,
        ls.depth,
        &ls.provenance,
        &ls.values,
        g.proven,
    ) {
        Ok(found) => found,
        Err(e) => {
            return Err(e);
        },
    };
    let ghost c1 = *code;
    let (op, left, right) = match g.node.operation {
        Some(ScalarOperation::Compare { op, lhs, rhs }) => (op, lhs, rhs),
        _ => {
            return Err(CompileFailure::InvalidArtifact);
        },
    };
    let rhs = match rhs {
        Some(rhs) => rhs,
        None => {
            return Err(CompileFailure::InvalidArtifact);
        },
    };
    let integers = env.int32_loop || is_integer(g.proven, left) && is_integer(g.proven, right);
    let pair = compute_comparison(code, env, op, integers, lhs, rhs);
    let ghost c2 = *code;
    let at: usize = ls.depth - 2;
    opt_define(code, env.stack[at], pair);
    ls.provenance[at] = OptProvenance::ImmediatePrimitive;
    ls.provenance[at + 1] = OptProvenance::Unknown;
    ls.depth = at + 1;
    proof {
        let m = old(ls)@;
        assert forall|w: World|
            #![trigger code.at(w)]
            match c0.at(w) {
                Status::Run(s) => {
                    let holds = comparison_of(
                        op,
                        integers,
                        env.int32_loop,
                        s.vals[lhs.payload as int],
                        s.vals[lhs.tag as int],
                        s.vals[rhs.payload as int],
                        s.vals[rhs.tag as int],
                        w,
                    );
                    operation_post(
                        *env,
                        *g,
                        m,
                        Some((truth(holds), JS_TAG_BOOL as int)),
                        env.stack@[m.depth - 2],
                        s,
                        code.at(w),
                        c0.len(),
                        w,
                    )
                },
                st => code.at(w) == st,
            } by {
            let a = c1.at(w);
            let b = c2.at(w);
            if let Status::Run(s) = c0.at(w) {
                let holds = comparison_of(
                    op,
                    integers,
                    env.int32_loop,
                    s.vals[lhs.payload as int],
                    s.vals[lhs.tag as int],
                    s.vals[rhs.payload as int],
                    s.vals[rhs.tag as int],
                    w,
                );
                composed(
                    *env,
                    *g,
                    m,
                    Some((truth(holds), JS_TAG_BOOL as int)),
                    env.stack@[m.depth - 2],
                    pair,
                    s,
                    a,
                    b,
                    code.at(w),
                    c0.len(),
                    c1.len(),
                    w,
                );
            }
        }
    }
    Ok(())
}

fn is_integer(proven: &Vec<Option<OperandMode>>, id: usize) -> (r: bool)
    ensures
        r == (proven_mode(proven@, id) == Some(OperandMode::Int32)),
{
    match proven_of(proven, id) {
        Some(mode) => mode == OperandMode::Int32,
        None => false,
    }
}

/// A number with a constant added: without a check where it is known to fit.
pub open spec fn update_result(
    int32_loop: bool,
    mode: OperandMode,
    bounded: bool,
    delta: int,
    payload: int,
    tag: int,
    w: World,
) -> Option<(int, int)> {
    if int32_loop && bounded && delta == 1 {
        Some((wrap(Ty::I32, payload + delta), JS_TAG_INT as int))
    } else if int32_loop || mode != OperandMode::Int32 {
        sum_of(int32_loop, payload, tag, delta, JS_TAG_INT as int, w)
    } else {
        int_sum_of(payload, delta)
    }
}

pub open spec fn update_possible(
    env: OptEnv<'_>,
    mode: OperandMode,
    bounded: bool,
    delta: i32,
    provenance: Seq<OptProvenance>,
    depth: int,
    guard: Option<u32>,
) -> bool {
    &&& env.int32_loop ==> mode == OperandMode::Int32
    &&& env.int32_loop && bounded && delta == 1 || guard is Some && may_deopt(env, provenance, depth)
}

#[verifier::spinoff_prover]
#[verifier::rlimit(60)]
fn compute_update(
    code: &mut Code,
    env: &OptEnv<'_>,
    provenance: &Vec<OptProvenance>,
    depth: usize,
    mode: OperandMode,
    bounded: bool,
    delta: i32,
    input: OptPair,
    pc: u32,
    guard: Option<u32>,
) -> (r: Result<OptPair, CompileFailure>)
    requires
        env.wf(old(code).len()),
        depth <= env.stack@.len(),
        input.payload < old(code).len(),
        input.tag < old(code).len(),
    ensures
        kept(*old(code), *final(code)),
        r is Ok && env.typed(*old(code)) && pair_held(*old(code), input) ==> steady(*old(code), *final(code)),
        r is Ok && env.typed(*old(code)) && pair_held(*old(code), input) ==> pair_held(*final(code), r->Ok_0),
        r is Ok <==> update_possible(*env, mode, bounded, delta, provenance@, depth as int, guard),
        r matches Err(e) ==> e == placed_failure(
            (env.int32_loop ==> mode == OperandMode::Int32) && guard is Some,
            *env,
            provenance@,
            depth as int,
        ),
        final(code).len() >= old(code).len(),
        r matches Ok(pair) ==> pair.payload < final(code).len() && pair.tag < final(code).len() && forall|w: World|
            #![trigger final(code).at(w)]
            match old(code).at(w) {
                Status::Run(s) => pair_post(
                    *env,
                    final(code).at(w),
                    s,
                    old(code).len(),
                    update_result(
                        env.int32_loop,
                        mode,
                        bounded,
                        delta as int,
                        s.vals[input.payload as int],
                        s.vals[input.tag as int],
                        w,
                    ),
                    pair,
                    provenance@,
                    depth as int,
                    pc,
                    guard->Some_0,
                    w,
                ),
                st => final(code).at(w) == st,
            },
{
    let ghost c0 = *code;
    if env.int32_loop && mode != OperandMode::Int32 {
        return Err(CompileFailure::InvalidArtifact);
    }
    let payload = code.iconst(env.payload_type, delta as i64);
    let tag = code.iconst(Ty::I64, JS_TAG_INT as i64);
    let amount = OptPair { payload, tag };
    let ghost c1 = *code;
    proof {
        assert(wrap(env.payload_type, delta as int) == delta);
        assert forall|w: World|
            #![trigger c1.at(w)]
            match c0.at(w) {
                Status::Run(s) => {
                    &&& runs_on(c1.at(w), s, c0.len(), s.vars, s.trace)
                    &&& value(c1.at(w), amount.payload) == delta
                    &&& value(c1.at(w), amount.tag) == JS_TAG_INT
                },
                st => c1.at(w) == st,
            } by {}
    }
    if env.int32_loop && bounded && delta == 1 {
        let sum = code.binary(BinaryOp::Add, Ty::I32, input.payload, amount.payload);
        let ghost c2 = *code;
        let pair = opt_int_pair(code, env.int32_loop, sum);
        proof {
            assert forall|w: World|
                #![trigger code.at(w)]
                match c0.at(w) {
                    Status::Run(s) => {
                        &&& runs_on(code.at(w), s, c0.len(), s.vars, s.trace)
                        &&& value(code.at(w), pair.payload) == wrap(Ty::I32, s.vals[input.payload as int] + delta)
                        &&& value(code.at(w), pair.tag) == JS_TAG_INT
                    },
                    st => code.at(w) == st,
                } by {
                let a = c1.at(w);
                let b = c2.at(w);
            }
        }
        return Ok(pair);
    }
    let guard = match guard {
        Some(guard) => guard,
        None => {
            return Err(CompileFailure::InvalidArtifact);
        },
    };
    let numeric = if mode == OperandMode::Int32 {
        ScalarNumericMode::Int32
    } else {
        ScalarNumericMode::Float64
    };
    let pair = match emit_opt_checked_update(code, env, numeric, provenance, depth, input, amount, pc, guard) {
        Ok(pair) => pair,
        Err(e) => {
            return Err(e);
        },
    };
    proof {
        assert forall|w: World|
            #![trigger code.at(w)]
            match c0.at(w) {
                Status::Run(s) => pair_post(
                    *env,
                    code.at(w),
                    s,
                    c0.len(),
                    update_result(
                        env.int32_loop,
                        mode,
                        bounded,
                        delta as int,
                        s.vals[input.payload as int],
                        s.vals[input.tag as int],
                        w,
                    ),
                    pair,
                    provenance@,
                    depth as int,
                    pc,
                    guard,
                    w,
                ),
                st => code.at(w) == st,
            } by {
            let a = c1.at(w);
            if let Status::Run(s) = c0.at(w) {
                let t = a->Run_0;
                deopt_depends_on_frame(*env, s, t, t.vars, t.trace, provenance@, depth as nat, pc, guard, w);
            }
        }
    }
    Ok(pair)
}

pub open spec fn update_ready(env: OptEnv<'_>, g: Scalars<'_>, bounded: bool, slots: int, m: Lowered) -> bool {
    &&& m.depth > 0
    &&& m.depth + slots <= env.stack@.len()
    &&& ready(env, g, m)
    &&& g.node.operation matches Some(ScalarOperation::Update { mode, delta, .. }) && update_possible(
        env,
        mode,
        bounded,
        delta,
        m.provenance,
        m.depth,
        g.site.guard,
    )
}

/// The slot takes the updated number; the number itself stays where the opcode
/// keeps it.
pub open spec fn update_lowered(env: OptEnv<'_>, g: Scalars<'_>, bounded: bool, post: bool, a: Code, m: Lowered, b: Code, m2: Lowered) -> bool {
    let at = if post {
        m.depth
    } else {
        m.depth - 1
    };
    &&& a.len() <= b.len()
    &&& m2 == Lowered { depth: at + 1, provenance: m.provenance.update(at, OptProvenance::ImmediatePrimitive), ..m }
    &&& g.node.operation matches Some(ScalarOperation::Update { mode, input, delta }) && forall|w: World|
        #![trigger b.at(w)]
        match a.at(w) {
            Status::Run(s) => operation_post(
                env,
                g,
                m,
                update_result(
                    env.int32_loop,
                    mode,
                    bounded,
                    delta as int,
                    s.vals[m.values[input].payload as int],
                    s.vals[m.values[input].tag as int],
                    w,
                ),
                env.stack@[at],
                s,
                b.at(w),
                a.len(),
                w,
            ),
            st => b.at(w) == st,
        }
}

/// `inc`, `dec`, `post_inc` and `post_dec` of the stack top.
#[verifier::rlimit(40)]
pub fn lower_update(code: &mut Code, env: &OptEnv<'_>, ls: &mut LowerState, g: &Scalars<'_>, bounded: bool, post: bool) -> (r: Result<
    (),
    CompileFailure,
>)
    requires
        env.wf(old(code).len()),
        old(ls)@.wf(*env, old(code).len()),
    ensures
        kept(*old(code), *final(code)),
        r is Ok && env.typed(*old(code)) && state_held(*old(code), *old(ls)) ==> steady(*old(code), *final(code)),
        r is Ok && env.typed(*old(code)) && state_held(*old(code), *old(ls)) ==> state_held(*final(code), *final(ls)),
        r is Ok <==> update_ready(*env, *g, bounded, if post { 1int } else { 0 }, old(ls)@),
        r matches Err(e) ==> e == number_failure(*env, *g, old(ls)@.depth > 0 && (post ==> old(ls)@.depth < env.stack@.len()), update_placed(*env, *g), old(ls)@),
        r is Ok ==> final(ls)@.wf(*env, final(code).len()) && update_lowered(
            *env,
            *g,
            bounded,
            post,
            *old(code),
            old(ls)@,
            *final(code),
            final(ls)@,
        ),
{
    if ls.depth == 0 || post && ls.depth >= env.stack.len() {
        return Err(CompileFailure::InvalidArtifact);
    }
    let ghost c0 = *code;
    let (input, _) = match opt_prepare_scalar_operation(
        code,
        env,
        g.site,
        g.node,
        ls.depth,
        &ls.provenance,
        &ls.values,
        g.proven,
    ) {
        Ok(found) => found,
        Err(e) => {
            return Err(e);
        },
    };
    let ghost c1 = *code;
    let (mode, delta) = match g.node.operation {
        Some(ScalarOperation::Update { mode, delta, .. }) => (mode, delta),
        _ => {
            return Err(CompileFailure::InvalidArtifact);
        },
    };
    let pair = match compute_update(
        code,
        env,
        &ls.provenance,
        ls.depth,
        mode,
        bounded,
        delta,
        input,
        g.site.pc,
        g.site.guard,
    ) {
        Ok(pair) => pair,
        Err(e) => {
            return Err(e);
        },
    };
    let ghost c2 = *code;
    let at: usize = if post {
        ls.depth
    } else {
        ls.depth - 1
    };
    opt_define(code, env.stack[at], pair);
    ls.provenance[at] = OptProvenance::ImmediatePrimitive;
    ls.depth = at + 1;
    proof {
        let m = old(ls)@;
        assert forall|w: World|
            #![trigger code.at(w)]
            match c0.at(w) {
                Status::Run(s) => operation_post(
                    *env,
                    *g,
                    m,
                    update_result(
                        env.int32_loop,
                        mode,
                        bounded,
                        delta as int,
                        s.vals[input.payload as int],
                        s.vals[input.tag as int],
                        w,
                    ),
                    env.stack@[at as int],
                    s,
                    code.at(w),
                    c0.len(),
                    w,
                ),
                st => code.at(w) == st,
            } by {
            let a = c1.at(w);
            let b = c2.at(w);
            if let Status::Run(s) = c0.at(w) {
                let expected = update_result(
                    env.int32_loop,
                    mode,
                    bounded,
                    delta as int,
                    s.vals[input.payload as int],
                    s.vals[input.tag as int],
                    w,
                );
                composed(
                    *env,
                    *g,
                    m,
                    expected,
                    env.stack@[at as int],
                    pair,
                    s,
                    a,
                    b,
                    code.at(w),
                    c0.len(),
                    c1.len(),
                    w,
                );
            }
        }
    }
    Ok(())
}

/// A frame slot takes the result, and its buffer is written where that is due;
/// otherwise the instruction deoptimizes.
pub open spec fn slot_update_post(
    env: OptEnv<'_>,
    to: Destination,
    ok: bool,
    vars: Map<int, int>,
    expected: Option<(int, int)>,
    pc: u32,
    guard: u32,
    m: Lowered,
    s: State,
    st2: Status,
    n: int,
    w: World,
) -> bool {
    if ok && expected is Some {
        let (payload, tag) = expected->Some_0;
        runs_on(
            st2,
            s,
            n,
            vars_after(vars, to.slot, payload, tag),
            if to.publish {
                pair_stores(s.trace, s.vals[to.buffer as int] + to.index * 16, payload, tag)
            } else {
                s.trace
            },
        )
    } else {
        exits_with(st2, deopt_trace(env, s, vars, s.trace, m.provenance, m.depth as nat, pc, guard, w))
    }
}

pub open spec fn local_update_ready(env: OptEnv<'_>, g: Scalars<'_>, m: Lowered) -> bool {
    &&& ready(env, g, m)
    &&& g.node.operation matches Some(ScalarOperation::Update { mode, delta, .. }) && update_possible(
        env,
        mode,
        false,
        delta,
        m.provenance,
        m.depth,
        g.site.guard,
    )
}

pub open spec fn local_update_lowered(env: OptEnv<'_>, g: Scalars<'_>, to: Destination, a: Code, m: Lowered, b: Code, m2: Lowered) -> bool {
    &&& a.len() <= b.len()
    &&& m2 == Lowered { provenance: invalidated(m.provenance, m.depth, to.provenance), source: None, ..m }
    &&& g.node.operation matches Some(ScalarOperation::Update { mode, input, delta }) && forall|w: World|
        #![trigger b.at(w)]
        match a.at(w) {
            Status::Run(s) => slot_update_post(
                env,
                to,
                checked(g, m, s),
                restored(env, g, m, s),
                update_result(
                    env.int32_loop,
                    mode,
                    false,
                    delta as int,
                    s.vals[m.values[input].payload as int],
                    s.vals[m.values[input].tag as int],
                    w,
                ),
                g.site.pc,
                g.site.guard->Some_0,
                m,
                s,
                b.at(w),
                a.len(),
                w,
            ),
            st => b.at(w) == st,
        }
}

/// `inc_loc` and `dec_loc`.
#[verifier::rlimit(40)]
pub fn lower_local_update(code: &mut Code, env: &OptEnv<'_>, ls: &mut LowerState, g: &Scalars<'_>, to: Destination) -> (r: Result<
    (),
    CompileFailure,
>)
    requires
        env.wf(old(code).len()),
        old(ls)@.wf(*env, old(code).len()),
        to.wf(*env, old(code).len()),
    ensures
        kept(*old(code), *final(code)),
        r is Ok && env.typed(*old(code)) && state_held(*old(code), *old(ls))
            && slot_named(*old(code), to.slot, Ty::I64) && old(code).holds(to.buffer, Ty::I64)
            ==> steady(*old(code), *final(code)),
        r is Ok && env.typed(*old(code)) && state_held(*old(code), *old(ls))
            && slot_named(*old(code), to.slot, Ty::I64) && old(code).holds(to.buffer, Ty::I64)
            ==> state_held(*final(code), *final(ls)),
        r is Ok <==> local_update_ready(*env, *g, old(ls)@),
        r matches Err(e) ==> e == number_failure(*env, *g, true, update_placed(*env, *g), old(ls)@),
        r is Ok ==> final(ls)@.wf(*env, final(code).len()) && local_update_lowered(
            *env,
            *g,
            to,
            *old(code),
            old(ls)@,
            *final(code),
            final(ls)@,
        ),
{
    let ghost c0 = *code;
    let (input, _) = match opt_prepare_scalar_operation(
        code,
        env,
        g.site,
        g.node,
        ls.depth,
        &ls.provenance,
        &ls.values,
        g.proven,
    ) {
        Ok(found) => found,
        Err(e) => {
            return Err(e);
        },
    };
    let ghost c1 = *code;
    let (mode, delta) = match g.node.operation {
        Some(ScalarOperation::Update { mode, delta, .. }) => (mode, delta),
        _ => {
            return Err(CompileFailure::InvalidArtifact);
        },
    };
    let pair = match compute_update(
        code,
        env,
        &ls.provenance,
        ls.depth,
        mode,
        false,
        delta,
        input,
        g.site.pc,
        g.site.guard,
    ) {
        Ok(pair) => pair,
        Err(e) => {
            return Err(e);
        },
    };
    let ghost c2 = *code;
    opt_define(code, to.slot, pair);
    let ghost c3 = *code;
    if to.publish {
        opt_store(code, to.buffer, to.index, pair, env.payload_type);
    }
    ls.source = None;
    opt_invalidate_provenance(&mut ls.provenance, ls.depth, to.provenance);
    proof {
        let m = old(ls)@;
        assert forall|w: World|
            #![trigger code.at(w)]
            match c0.at(w) {
                Status::Run(s) => slot_update_post(
                    *env,
                    to,
                    checked(*g, m, s),
                    restored(*env, *g, m, s),
                    update_result(
                        env.int32_loop,
                        mode,
                        false,
                        delta as int,
                        s.vals[input.payload as int],
                        s.vals[input.tag as int],
                        w,
                    ),
                    g.site.pc,
                    g.site.guard->Some_0,
                    m,
                    s,
                    code.at(w),
                    c0.len(),
                    w,
                ),
                st => code.at(w) == st,
            } by {
            let a = c1.at(w);
            let b = c2.at(w);
            let c = c3.at(w);
            if let Status::Run(s) = c0.at(w) {
                let expected = update_result(
                    env.int32_loop,
                    mode,
                    false,
                    delta as int,
                    s.vals[input.payload as int],
                    s.vals[input.tag as int],
                    w,
                );
                composed(*env, *g, m, expected, to.slot, pair, s, a, b, c, c0.len(), c1.len(), w);
            }
        }
    }
    Ok(())
}

pub open spec fn local_add_ready(env: OptEnv<'_>, guard: Option<u32>, m: Lowered) -> bool {
    m.depth > 0 && guard is Some && may_deopt(env, m.provenance, m.depth)
}

/// The stack top is added to the local.
pub open spec fn local_add_lowered(env: OptEnv<'_>, to: Destination, pc: u32, guard: Option<u32>, a: Code, m: Lowered, b: Code, m2: Lowered) -> bool {
    let top = m.depth - 1;
    &&& a.len() <= b.len()
    &&& m2 == Lowered { depth: top, provenance: invalidated(m.provenance, top, to.provenance), source: None, ..m }
    &&& forall|w: World|
        #![trigger b.at(w)]
        match a.at(w) {
            Status::Run(s) => slot_update_post(
                env,
                to,
                true,
                s.vars,
                sum_of(
                    env.int32_loop,
                    s.vars[to.slot.payload as int],
                    s.vars[to.slot.tag as int],
                    s.vars[env.stack@[top].payload as int],
                    s.vars[env.stack@[top].tag as int],
                    w,
                ),
                pc,
                guard->Some_0,
                m,
                s,
                b.at(w),
                a.len(),
                w,
            ),
            st => b.at(w) == st,
        }
}

/// `add_loc`.
#[verifier::rlimit(40)]
pub fn lower_local_add(code: &mut Code, env: &OptEnv<'_>, ls: &mut LowerState, to: Destination, pc: u32, guard: Option<u32>) -> (r: Result<
    (),
    CompileFailure,
>)
    requires
        env.wf(old(code).len()),
        old(ls)@.wf(*env, old(code).len()),
        to.wf(*env, old(code).len()),
    ensures
        kept(*old(code), *final(code)),
        r is Ok && env.typed(*old(code)) && state_held(*old(code), *old(ls))
            && slot_named(*old(code), to.slot, Ty::I64) && old(code).holds(to.buffer, Ty::I64)
            ==> steady(*old(code), *final(code)),
        r is Ok && env.typed(*old(code)) && state_held(*old(code), *old(ls))
            && slot_named(*old(code), to.slot, Ty::I64) && old(code).holds(to.buffer, Ty::I64)
            ==> state_held(*final(code), *final(ls)),
        r is Ok <==> local_add_ready(*env, guard, old(ls)@),
        r matches Err(e) ==> e == placed_failure(guard is Some, *env, old(ls)@.provenance, old(ls)@.depth),
        r is Ok ==> final(ls)@.wf(*env, final(code).len()) && local_add_lowered(
            *env,
            to,
            pc,
            guard,
            *old(code),
            old(ls)@,
            *final(code),
            final(ls)@,
        ),
{
    if ls.depth == 0 {
        return Err(CompileFailure::InvalidArtifact);
    }
    let top: usize = ls.depth - 1;
    let guard = match guard {
        Some(guard) => guard,
        None => {
            return Err(CompileFailure::InvalidArtifact);
        },
    };
    let ghost c0 = *code;
    let lhs = opt_use(code, to.slot, env.payload_type);
    let rhs = opt_use(code, env.stack[top], env.payload_type);
    let ghost c1 = *code;
    let pair = match emit_opt_checked_add(code, env, &ls.provenance, ls.depth, lhs, rhs, pc, guard) {
        Ok(pair) => pair,
        Err(e) => {
            return Err(e);
        },
    };
    let ghost c2 = *code;
    opt_define(code, to.slot, pair);
    let ghost c3 = *code;
    if to.publish {
        opt_store(code, to.buffer, to.index, pair, env.payload_type);
    }
    ls.source = None;
    ls.depth = top;
    opt_invalidate_provenance(&mut ls.provenance, top, to.provenance);
    proof {
        let m = old(ls)@;
        assert forall|w: World|
            #![trigger code.at(w)]
            match c0.at(w) {
                Status::Run(s) => slot_update_post(
                    *env,
                    to,
                    true,
                    s.vars,
                    sum_of(
                        env.int32_loop,
                        s.vars[to.slot.payload as int],
                        s.vars[to.slot.tag as int],
                        s.vars[env.stack@[top as int].payload as int],
                        s.vars[env.stack@[top as int].tag as int],
                        w,
                    ),
                    pc,
                    guard,
                    m,
                    s,
                    code.at(w),
                    c0.len(),
                    w,
                ),
                st => code.at(w) == st,
            } by {
            let a = c1.at(w);
            let b = c2.at(w);
            let c = c3.at(w);
            if let Status::Run(s) = c0.at(w) {
                let t = a->Run_0;
                deopt_depends_on_frame(*env, s, t, t.vars, t.trace, m.provenance, m.depth as nat, pc, guard, w);
            }
        }
    }
    Ok(())
}

} // verus!
