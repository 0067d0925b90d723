//! Calls whose callee is a scalar region: its steps are computed in place.
use crate::arithmetic::int_payload;
use crate::arithmetic::may_deopt;
use crate::checks::forbid;
use crate::checks::rejoin;
use crate::checks::require;
use crate::checks::steers;
use crate::code::in_range;
use crate::code::truth;
use crate::code::value;
use crate::code::waits_for_known_blocks;
use crate::code::BinaryOp;
use crate::code::kept;
use crate::code::Code;
use crate::code::Status;
use crate::code::Ty;
use crate::code::World;
use crate::control::CompileFailure;
use crate::elements::checked_chain;
use crate::elements::passes;
use crate::exits::placed_failure;
use crate::frame::OptEnv;
use crate::guard_code::callee_fits;
use crate::guard_code::callee_reads;
use crate::guard_code::emit_guarded_direct_callee_identity;
use crate::guard_code::DirectCalleeIdentity;
use crate::ir::ScalarValue;
use crate::lower_values::opt_bool_pair;
use crate::lower_values::opt_i32;
use crate::lower_values::opt_int_pair;
use crate::lower_values::opt_tag_is;
use crate::lower_values::OptPair;
use crate::provenance::OptProvenance;
use crate::qjs::JS_TAG_BOOL;
use crate::qjs::JS_TAG_INT;
use crate::runtime::FeedbackRepresentation;
use crate::scalar::pairs_known;
use crate::scalar::proven_mode;
use crate::scalar::proven_of;
use crate::scalar::OperandMode;
use crate::scalar::ScalarBinaryOp;
use crate::scalar_ops::NodeSite;
use std::collections::BTreeMap;
use crate::typing::steady;
use crate::typing::closing;
use crate::typing::calm;
use crate::assemble::Known;
use crate::frame_typing::pair_held;
use crate::frame_typing::slot_named;
use crate::frame_typing::slots_named;
use crate::frame_typing::cached_named;
use crate::frame_typing::cache_named;
use crate::frame_typing::values_held;
use vstd::prelude::*;

verus! {

broadcast use {
    crate::typing::group_typing,
    crate::frame_typing::group_frame,
    vstd::std_specs::btree::group_btree_axioms,
};

/// What a step of an inlined region computes.
#[derive(Clone, Copy, Debug, PartialEq, Eq, Structural)]
pub enum StepOp {
    Int32(i32),
    Bool(bool),
    Binary { op: ScalarBinaryOp, lhs: usize, rhs: usize },
    Unsupported,
}

/// The callee's frame before a step.
#[derive(Debug)]
pub struct StepFrame {
    pub parent: Option<u32>,
    pub arguments: Vec<usize>,
    pub stack: Vec<usize>,
}

#[derive(Debug)]
pub struct RegionStep {
    pub value: usize,
    pub op: StepOp,
    pub frame: Option<StepFrame>,
}

/// A callee without effects, as a list of steps.
#[derive(Debug)]
pub struct ScalarRegion {
    pub object_identity: u64,
    pub bytecode_identity: u64,
    pub arguments: Vec<FeedbackRepresentation>,
    pub steps: Vec<RegionStep>,
    pub result: usize,
}

/// A call, with its operands as scalar values.
#[derive(Debug)]
pub struct CallSite {
    pub target: usize,
    pub receiver: Option<usize>,
    pub arguments: Vec<usize>,
}

fn lists_equal(a: &Vec<usize>, b: &Vec<usize>) -> (r: bool)
    ensures
        r == (a@ == b@),
{
    if a.len() != b.len() {
        return false;
    }
    let mut i: usize = 0;
    while i < a.len()
        invariant
            i <= a@.len(),
            a@.len() == b@.len(),
            forall|k: int| 0 <= k < i ==> a@[k] == b@[k],
        decreases a@.len() - i,
    {
        if a[i] != b[i] {
            return false;
        }
        i = i + 1;
    }
    assert(a@ =~= b@);
    true
}

/// The arguments need a check: what is known of the value does not answer it.
pub open spec fn argument_known(
    scalars: Seq<ScalarValue>,
    proven: Seq<Option<OperandMode>>,
    value: usize,
    representation: FeedbackRepresentation,
) -> bool {
    if representation == FeedbackRepresentation::Int32 {
        proven_mode(proven, value) == Some(OperandMode::Int32)
    } else {
        value < scalars.len() && scalars[value as int] is Bool
    }
}

pub open spec fn expected_tag(representation: FeedbackRepresentation) -> int {
    if representation == FeedbackRepresentation::Bool {
        JS_TAG_BOOL as int
    } else {
        JS_TAG_INT as int
    }
}

/// The argument is an Int32 or a truth value, and one that has to be checked is
/// held somewhere.
pub open spec fn argument_fits(
    call: CallSite,
    region: ScalarRegion,
    scalars: Seq<ScalarValue>,
    proven: Seq<Option<OperandMode>>,
    values: Map<usize, OptPair>,
    k: int,
) -> bool {
    let r = region.arguments@[k];
    &&& r == FeedbackRepresentation::Int32 || r == FeedbackRepresentation::Bool
    &&& argument_known(scalars, proven, call.arguments@[k], r) || values.contains_key(call.arguments@[k])
}

pub open spec fn arguments_fit(
    call: CallSite,
    region: ScalarRegion,
    scalars: Seq<ScalarValue>,
    proven: Seq<Option<OperandMode>>,
    values: Map<usize, OptPair>,
) -> bool {
    forall|k: int|
        0 <= k < call.arguments@.len() ==> #[trigger] argument_fits(call, region, scalars, proven, values, k)
}

/// The first `n` arguments that need a check have their tag.
pub open spec fn arguments_pass(
    call: CallSite,
    region: ScalarRegion,
    scalars: Seq<ScalarValue>,
    proven: Seq<Option<OperandMode>>,
    values: Map<usize, OptPair>,
    vals: Map<int, int>,
    n: int,
) -> bool {
    forall|k: int|
        0 <= k < n && !argument_known(scalars, proven, #[trigger] call.arguments@[k], region.arguments@[k])
            ==> vals[values[call.arguments@[k]].tag as int] == expected_tag(region.arguments@[k])
}

/// The value is known after the first `k` steps.
pub open spec fn step_defined(steps: Seq<RegionStep>, id: usize, k: nat) -> bool
    decreases k,
{
    k > 0 && (steps[k - 1].value == id || step_defined(steps, id, (k - 1) as nat))
}

pub open spec fn available(steps: Seq<RegionStep>, values: Map<usize, OptPair>, id: usize, k: nat) -> bool {
    step_defined(steps, id, k) || values.contains_key(id)
}

/// A step can be computed: an operation has its own frame, with its operands on
/// top of the stack.
pub open spec fn step_fits(steps: Seq<RegionStep>, values: Map<usize, OptPair>, call: CallSite, id: u32, k: nat) -> bool {
    match steps[k as int].op {
        StepOp::Int32(_) | StepOp::Bool(_) => true,
        StepOp::Unsupported => false,
        StepOp::Binary { op, lhs, rhs } => {
            &&& op == ScalarBinaryOp::Add || op == ScalarBinaryOp::Sub
            &&& available(steps, values, lhs, k)
            &&& available(steps, values, rhs, k)
            &&& steps[k as int].frame matches Some(frame) && frame.parent == Some(id) && frame.arguments@ == call.arguments@
                && frame.stack@.len() >= 2 && frame.stack@[frame.stack@.len() - 2] == lhs && frame.stack@[frame.stack@.len()
                - 1] == rhs
        },
    }
}

pub open spec fn steps_fit(steps: Seq<RegionStep>, values: Map<usize, OptPair>, call: CallSite, id: u32, n: nat) -> bool {
    forall|k: nat| k < n ==> #[trigger] step_fits(steps, values, call, id, k)
}

/// A payload and a tag.
pub struct Tagged {
    pub payload: int,
    pub tag: int,
}

/// A value: what the steps computed, or what is held of it.
pub open spec fn looked_up(computed: Map<usize, Tagged>, values: Map<usize, OptPair>, vals: Map<int, int>, id: usize) -> Tagged {
    if computed.contains_key(id) {
        computed[id]
    } else {
        Tagged { payload: vals[values[id].payload as int], tag: vals[values[id].tag as int] }
    }
}

pub open spec fn exact_step(
    op: ScalarBinaryOp,
    int32_loop: bool,
    lhs: Tagged,
    rhs: Tagged,
) -> int {
    let l = int_payload(int32_loop, lhs.payload);
    let r = int_payload(int32_loop, rhs.payload);
    if op == ScalarBinaryOp::Add {
        l + r
    } else {
        l - r
    }
}

pub open spec fn step_result(
    op: StepOp,
    computed: Map<usize, Tagged>,
    values: Map<usize, OptPair>,
    vals: Map<int, int>,
    int32_loop: bool,
) -> Tagged {
    match op {
        StepOp::Int32(x) => Tagged { payload: x as int, tag: JS_TAG_INT as int },
        StepOp::Bool(x) => Tagged { payload: truth(x), tag: JS_TAG_BOOL as int },
        StepOp::Binary { op, lhs, rhs } => Tagged {
            payload: exact_step(
                op,
                int32_loop,
                looked_up(computed, values, vals, lhs),
                looked_up(computed, values, vals, rhs),
            ),
            tag: JS_TAG_INT as int,
        },
        StepOp::Unsupported => Tagged { payload: 0, tag: 0 },
    }
}

/// What the first `k` steps compute.
pub open spec fn computed_by(
    steps: Seq<RegionStep>,
    values: Map<usize, OptPair>,
    vals: Map<int, int>,
    int32_loop: bool,
    k: nat,
) -> Map<usize, Tagged>
    decreases k,
{
    if k == 0 {
        Map::empty()
    } else {
        let before = computed_by(steps, values, vals, int32_loop, (k - 1) as nat);
        before.insert(steps[k - 1].value, step_result(steps[k - 1].op, before, values, vals, int32_loop))
    }
}

proof fn computed_domain(
    steps: Seq<RegionStep>,
    values: Map<usize, OptPair>,
    vals: Map<int, int>,
    int32_loop: bool,
    id: usize,
    k: nat,
)
    ensures
        computed_by(steps, values, vals, int32_loop, k).contains_key(id) == step_defined(steps, id, k),
    decreases k,
{
    if k > 0 {
        computed_domain(steps, values, vals, int32_loop, id, (k - 1) as nat);
    }
}

/// None of the first `n` steps leaves the range of an Int32.
pub open spec fn steps_pass(
    steps: Seq<RegionStep>,
    values: Map<usize, OptPair>,
    vals: Map<int, int>,
    int32_loop: bool,
    n: nat,
) -> bool
    decreases n,
{
    n == 0 || steps_pass(steps, values, vals, int32_loop, (n - 1) as nat) && (steps[n - 1].op is Binary ==> in_range(
        Ty::I32,
        step_result(
            steps[n - 1].op,
            computed_by(steps, values, vals, int32_loop, (n - 1) as nat),
            values,
            vals,
            int32_loop,
        ).payload,
    ))
}

/// The region belongs in the place of the call.
pub open spec fn inline_placed(
    site: NodeSite,
    call: CallSite,
    region: ScalarRegion,
    scalars: Seq<ScalarValue>,
    depth: int,
    provenance: Seq<OptProvenance>,
    values: Map<usize, OptPair>,
    proven: Seq<Option<OperandMode>>,
) -> bool {
    let base = depth - call.arguments@.len() - 1;
    &&& base >= 0
    &&& call.receiver is None
    &&& provenance[base] is Argument || provenance[base] is Local
    &&& region.arguments@.len() == call.arguments@.len()
    &&& values.contains_key(call.target)
    &&& arguments_fit(call, region, scalars, proven, values)
    &&& steps_fit(region.steps@, values, call, site.id, region.steps@.len())
    &&& available(region.steps@, values, region.result, region.steps@.len())
    &&& site.guard is Some
}

/// The call can be replaced by the region.
pub open spec fn inline_ready(
    env: OptEnv<'_>,
    site: NodeSite,
    call: CallSite,
    region: ScalarRegion,
    scalars: Seq<ScalarValue>,
    depth: int,
    provenance: Seq<OptProvenance>,
    values: Map<usize, OptPair>,
    proven: Seq<Option<OperandMode>>,
) -> bool {
    inline_placed(site, call, region, scalars, depth, provenance, values, proven) && may_deopt(env, provenance, depth)
}

pub open spec fn region_identity(region: ScalarRegion) -> DirectCalleeIdentity {
    DirectCalleeIdentity { object: region.object_identity, bytecode: region.bytecode_identity }
}

/// The region's result is computed, or the call deoptimizes before any effect:
/// where the callee is another one, an argument has another tag, or a step
/// leaves the range of an Int32.
pub open spec fn inlined_post(
    env: OptEnv<'_>,
    site: NodeSite,
    call: CallSite,
    region: ScalarRegion,
    scalars: Seq<ScalarValue>,
    depth: int,
    provenance: Seq<OptProvenance>,
    values: Map<usize, OptPair>,
    proven: Seq<Option<OperandMode>>,
    target_guarded: bool,
    r: OptPair,
    st: Status,
    st2: Status,
    n: int,
    w: World,
) -> bool {
    match st {
        Status::Run(s) => {
            let target = values[call.target];
            let payload = s.vals[target.payload as int];
            let tag = s.vals[target.tag as int];
            let known = target_guarded || callee_fits(region_identity(region), payload, tag, s.trace, w);
            let trace = if target_guarded {
                s.trace
            } else {
                callee_reads(*env.abi, region_identity(region), payload, tag, s.trace, w)
            };
            let ok = known && arguments_pass(
                call,
                region,
                scalars,
                proven,
                values,
                s.vals,
                call.arguments@.len() as int,
            ) && steps_pass(region.steps@, values, s.vals, env.int32_loop, region.steps@.len());
            let result = looked_up(
                computed_by(region.steps@, values, s.vals, env.int32_loop, region.steps@.len()),
                values,
                s.vals,
                region.result,
            );
            &&& passes(env, st2, s, n, ok, s.vars, trace, provenance, depth, site.pc, site.guard->Some_0, w)
            &&& ok ==> value(st2, r.payload) == result.payload && value(st2, r.tag) == result.tag
        },
        st => st2 == st,
    }
}

fn known_argument(
    scalars: &Vec<ScalarValue>,
    proven: &Vec<Option<OperandMode>>,
    id: usize,
    representation: FeedbackRepresentation,
) -> (r: bool)
    ensures
        r == argument_known(scalars@, proven@, id, representation),
{
    if representation == FeedbackRepresentation::Int32 {
        match proven_of(proven, id) {
            Some(mode) => mode == OperandMode::Int32,
            None => false,
        }
    } else {
        id < scalars.len() && matches!(&scalars[id], ScalarValue::Bool(_))
    }
}

fn check_arguments(
    code: &mut Code,
    call: &CallSite,
    region: &ScalarRegion,
    scalars: &Vec<ScalarValue>,
    proven: &Vec<Option<OperandMode>>,
    values: &BTreeMap<usize, OptPair>,
    failed: usize,
) -> (r: Result<(), CompileFailure>)
    requires
        failed < old(code).len(),
        pairs_known(values@, old(code).len()),
        region.arguments@.len() == call.arguments@.len(),
    ensures
        kept(*old(code), *final(code)),
        r is Ok && values_held(*old(code), values@) && old(code).blocked(failed) ==> steady(*old(code), *final(code)),
        final(code).len() >= old(code).len(),
        r is Ok <==> arguments_fit(*call, *region, scalars@, proven@, values@),
        r is Err ==> r == Err::<(), CompileFailure>(CompileFailure::InvalidArtifact),
        r is Ok ==> forall|w: World|
            #![trigger final(code).at(w)]
            match old(code).at(w) {
                Status::Run(s) => steers(
                    final(code).at(w),
                    s,
                    old(code).len(),
                    failed,
                    arguments_pass(*call, *region, scalars@, proven@, values@, s.vals, call.arguments@.len() as int),
                    s.vars,
                    s.trace,
                ),
                st => final(code).at(w) == st,
            },
{
    let mut k: usize = 0;
    while k < call.arguments.len()
        invariant
            kept(*old(code), *code),
            values_held(*old(code), values@) && old(code).blocked(failed) ==> steady(*old(code), *code),
            values_held(*old(code), values@) && old(code).blocked(failed)
                ==> values_held(*code, values@) && code.blocked(failed),
            k <= call.arguments@.len(),
            region.arguments@.len() == call.arguments@.len(),
            failed < old(code).len() <= code.len(),
            pairs_known(values@, old(code).len()),
            forall|j: int| 0 <= j < k ==> #[trigger] argument_fits(*call, *region, scalars@, proven@, values@, j),
            forall|w: World|
                #![trigger code.at(w)]
                match old(code).at(w) {
                    Status::Run(s) => steers(
                        code.at(w),
                        s,
                        old(code).len(),
                        failed,
                        arguments_pass(*call, *region, scalars@, proven@, values@, s.vals, k as int),
                        s.vars,
                        s.trace,
                    ),
                    st => code.at(w) == st,
                },
        decreases call.arguments@.len() - k,
    {
        let id = call.arguments[k];
        let representation = region.arguments[k];
        assert(call.arguments@[k as int] == id && region.arguments@[k as int] == representation);
        if representation != FeedbackRepresentation::Int32 && representation != FeedbackRepresentation::Bool {
            assert(!argument_fits(*call, *region, scalars@, proven@, values@, k as int));
            return Err(CompileFailure::InvalidArtifact);
        }
        let ghost before = *code;
        let ghost known = argument_known(scalars@, proven@, call.arguments@[k as int], region.arguments@[k as int]);
        if !known_argument(scalars, proven, id, representation) {
            let pair = match values.get(&id) {
                Some(pair) => *pair,
                None => {
                    assert(!argument_fits(*call, *region, scalars@, proven@, values@, k as int));
                    return Err(CompileFailure::InvalidArtifact);
                },
            };
            let expected = if representation == FeedbackRepresentation::Bool {
                JS_TAG_BOOL
            } else {
                JS_TAG_INT
            };
            let condition = opt_tag_is(code, pair.tag, expected);
            let ghost ready = *code;
            require(code, condition, failed);
            proof {
                assert forall|w: World| #[trigger] code.at(w) == code.at(w) by {
                    let b = ready.at(w);
                }
            }
        }
        proof {
            assert forall|w: World|
                #![trigger code.at(w)]
                match old(code).at(w) {
                    Status::Run(s) => steers(
                        code.at(w),
                        s,
                        old(code).len(),
                        failed,
                        arguments_pass(*call, *region, scalars@, proven@, values@, s.vals, k + 1),
                        s.vars,
                        s.trace,
                    ),
                    st => code.at(w) == st,
                } by {
                let a = before.at(w);
                if let Status::Run(s) = old(code).at(w) {
                    let now = arguments_pass(*call, *region, scalars@, proven@, values@, s.vals, k + 1);
                    let then = arguments_pass(*call, *region, scalars@, proven@, values@, s.vals, k as int);
                    let last = known || values@.contains_key(id) && s.vals[values@[id].tag as int] == expected_tag(representation);
                    assert(now == (then && last)) by {
                        if now {
                            assert(call.arguments@[k as int] == id);
                        }
                    }
                }
            }
        }
        k = k + 1;
    }
    Ok(())
}

/// The pairs hold what the steps computed.
spec fn holds_computed(st: Status, pairs: Map<usize, OptPair>, computed: Map<usize, Tagged>) -> bool {
    forall|id: usize| #[trigger]
        computed.contains_key(id) ==> value(st, pairs[id].payload) == computed[id].payload && value(st, pairs[id].tag)
            == computed[id].tag
}

/// A value that is available.
fn find_value(produced: &BTreeMap<usize, OptPair>, values: &BTreeMap<usize, OptPair>, id: usize) -> (r: Option<OptPair>)
    ensures
        match r {
            Some(pair) => produced@.contains_key(id) && pair == produced@[id] || !produced@.contains_key(id)
                && values@.contains_key(id) && pair == values@[id],
            None => !produced@.contains_key(id) && !values@.contains_key(id),
        },
{
    match produced.get(&id) {
        Some(pair) => Some(*pair),
        None => match values.get(&id) {
            Some(pair) => Some(*pair),
            None => None,
        },
    }
}

/// Computes one step; control leaves for `failed` where it leaves the range of
/// an Int32.
fn emit_step(
    code: &mut Code,
    int32_loop: bool,
    payload_type: Ty,
    call: &CallSite,
    id: u32,
    steps: &Vec<RegionStep>,
    k: usize,
    values: &BTreeMap<usize, OptPair>,
    produced: &BTreeMap<usize, OptPair>,
    failed: usize,
) -> (r: Result<OptPair, CompileFailure>)
    requires
        failed < old(code).len(),
        k < steps@.len(),
        payload_type == Ty::I32 || payload_type == Ty::I64,
        pairs_known(values@, old(code).len()),
        pairs_known(produced@, old(code).len()),
        forall|x: usize| #[trigger] produced@.contains_key(x) == step_defined(steps@, x, k as nat),
    ensures
        kept(*old(code), *final(code)),
        r is Ok && !int32_loop && payload_type == Ty::I64 && values_held(*old(code), values@)
            && values_held(*old(code), produced@) && old(code).blocked(failed)
            ==> steady(*old(code), *final(code)),
        r is Ok && !int32_loop && payload_type == Ty::I64 && values_held(*old(code), values@)
            && values_held(*old(code), produced@) && old(code).blocked(failed)
            ==> pair_held(*final(code), r->Ok_0),
        final(code).len() >= old(code).len(),
        r is Ok <==> step_fits(steps@, values@, *call, id, k as nat),
        r is Err ==> r == Err::<OptPair, CompileFailure>(CompileFailure::InvalidArtifact),
        r matches Ok(pair) ==> {
            &&& pair.payload < final(code).len()
            &&& pair.tag < final(code).len()
            &&& forall|w: World, vals: Map<int, int>, computed: Map<usize, Tagged>|
                #![trigger final(code).at(w), step_result(steps@[k as int].op, computed, values@, vals, int32_loop)]
                match old(code).at(w) {
                    Status::Run(s) => {
                        let result = step_result(steps@[k as int].op, computed, values@, vals, int32_loop);
                        let ok = steps@[k as int].op is Binary ==> in_range(Ty::I32, result.payload);
                        let known = holds_computed(old(code).at(w), produced@, computed) && computed.dom() =~= produced@.dom()
                            && (forall|x: usize| #[trigger]
                            values@.contains_key(x) ==> s.vals[values@[x].payload as int] == vals[values@[x].payload as int]
                                && s.vals[values@[x].tag as int] == vals[values@[x].tag as int]);
                        known ==> {
                            &&& steers(final(code).at(w), s, old(code).len(), failed, ok, s.vars, s.trace)
                            &&& ok ==> value(final(code).at(w), pair.payload) == result.payload && value(
                                final(code).at(w),
                                pair.tag,
                            ) == result.tag
                        }
                    },
                    st => final(code).at(w) == st,
                }
        },
{
    let ghost c0 = *code;
    match steps[k].op {
        StepOp::Int32(x) => {
            let constant = code.iconst(Ty::I32, x as i64);
            let ghost c1 = *code;
            let pair = opt_int_pair(code, int32_loop, constant);
            proof {
                assert forall|w: World| #[trigger] code.at(w) == code.at(w) by {
                    let a = c1.at(w);
                }
            }
            Ok(pair)
        },
        StepOp::Bool(x) => {
            let constant = code.iconst(
                Ty::I8,
                if x {
                    1
                } else {
                    0
                },
            );
            let ghost c1 = *code;
            let pair = opt_bool_pair(code, payload_type, constant);
            proof {
                assert forall|w: World| #[trigger] code.at(w) == code.at(w) by {
                    let a = c1.at(w);
                }
            }
            Ok(pair)
        },
        StepOp::Unsupported => Err(CompileFailure::InvalidArtifact),
        StepOp::Binary { op, lhs, rhs } => {
            let framed = match &steps[k].frame {
                Some(frame) => {
                    let depth = frame.stack.len();
                    frame.parent == Some(id) && lists_equal(&frame.arguments, &call.arguments) && depth >= 2 && frame.stack[depth
                        - 2] == lhs && frame.stack[depth - 1] == rhs
                },
                None => false,
            };
            if !framed {
                return Err(CompileFailure::InvalidArtifact);
            }
            let left = match find_value(produced, values, lhs) {
                Some(pair) => pair,
                None => {
                    return Err(CompileFailure::InvalidArtifact);
                },
            };
            let right = match find_value(produced, values, rhs) {
                Some(pair) => pair,
                None => {
                    return Err(CompileFailure::InvalidArtifact);
                },
            };
            let machine = match op {
                ScalarBinaryOp::Add => BinaryOp::Add,
                ScalarBinaryOp::Sub => BinaryOp::Sub,
                _ => {
                    return Err(CompileFailure::InvalidArtifact);
                },
            };
            let l = opt_i32(code, int32_loop, left);
            let ghost c1 = *code;
            let r = opt_i32(code, int32_loop, right);
            let ghost c2 = *code;
            let (sum, lost) = code.overflowing(machine, Ty::I32, l, r);
            let ghost c3 = *code;
            forbid(code, lost, failed);
            let ghost c4 = *code;
            let pair = opt_int_pair(code, int32_loop, sum);
            proof {
                assert forall|w: World, vals: Map<int, int>, computed: Map<usize, Tagged>|
                    #![trigger code.at(w), step_result(steps@[k as int].op, computed, values@, vals, int32_loop)]
                    match c0.at(w) {
                        Status::Run(s) => {
                            let result = step_result(steps@[k as int].op, computed, values@, vals, int32_loop);
                            let ok = in_range(Ty::I32, result.payload);
                            let known = holds_computed(c0.at(w), produced@, computed) && computed.dom() =~= produced@.dom() && (
                            forall|x: usize| #[trigger]
                                values@.contains_key(x) ==> s.vals[values@[x].payload as int] == vals[values@[x].payload as int]
                                    && s.vals[values@[x].tag as int] == vals[values@[x].tag as int]);
                            known ==> {
                                &&& steers(code.at(w), s, c0.len(), failed, ok, s.vars, s.trace)
                                &&& ok ==> value(code.at(w), pair.payload) == result.payload && value(code.at(w), pair.tag)
                                    == result.tag
                            }
                        },
                        st => code.at(w) == st,
                    } by {
                    let a = c1.at(w);
                    let b = c2.at(w);
                    let c = c3.at(w);
                    let d = c4.at(w);
                    assert(computed.dom().contains(lhs) == computed.contains_key(lhs));
                    assert(computed.dom().contains(rhs) == computed.contains_key(rhs));
                    assert(produced@.dom().contains(lhs) == produced@.contains_key(lhs));
                    assert(produced@.dom().contains(rhs) == produced@.contains_key(rhs));
                }
            }
            Ok(pair)
        },
    }
}

/// Computes the steps in order; control leaves for `failed` where one of them
/// leaves the range of an Int32.
#[verifier::spinoff_prover]
#[verifier::rlimit(60)]
fn emit_steps(
    code: &mut Code,
    int32_loop: bool,
    payload_type: Ty,
    call: &CallSite,
    id: u32,
    steps: &Vec<RegionStep>,
    values: &BTreeMap<usize, OptPair>,
    failed: usize,
) -> (r: Result<BTreeMap<usize, OptPair>, CompileFailure>)
    requires
        failed < old(code).len(),
        payload_type == Ty::I32 || payload_type == Ty::I64,
        pairs_known(values@, old(code).len()),
    ensures
        kept(*old(code), *final(code)),
        r is Ok && !int32_loop && payload_type == Ty::I64 && values_held(*old(code), values@)
            && old(code).blocked(failed)
            ==> steady(*old(code), *final(code)),
        r is Ok && !int32_loop && payload_type == Ty::I64 && values_held(*old(code), values@)
            && old(code).blocked(failed)
            ==> values_held(*final(code), r->Ok_0@),
        final(code).len() >= old(code).len(),
        r is Ok <==> steps_fit(steps@, values@, *call, id, steps@.len()),
        r is Err ==> r == Err::<BTreeMap<usize, OptPair>, CompileFailure>(CompileFailure::InvalidArtifact),
        r matches Ok(produced) ==> {
            &&& pairs_known(produced@, final(code).len())
            &&& forall|x: usize| #[trigger] produced@.contains_key(x) == step_defined(steps@, x, steps@.len())
            &&& forall|w: World|
                #![trigger final(code).at(w)]
                match old(code).at(w) {
                    Status::Run(s) => {
                        let ok = steps_pass(steps@, values@, s.vals, int32_loop, steps@.len());
                        &&& steers(final(code).at(w), s, old(code).len(), failed, ok, s.vars, s.trace)
                        &&& ok ==> holds_computed(
                            final(code).at(w),
                            produced@,
                            computed_by(steps@, values@, s.vals, int32_loop, steps@.len()),
                        )
                    },
                    st => final(code).at(w) == st,
                }
        },
{
    let mut produced: BTreeMap<usize, OptPair> = BTreeMap::new();
    proof {
        reveal(values_held);
    }
    let mut k: usize = 0;
    while k < steps.len()
        invariant
            kept(*old(code), *code),
            !int32_loop && payload_type == Ty::I64 && values_held(*old(code), values@)
                && old(code).blocked(failed)
                ==> steady(*old(code), *code),
            !int32_loop && payload_type == Ty::I64 && values_held(*old(code), values@)
                && old(code).blocked(failed)
                ==> values_held(*code, values@) && values_held(*code, produced@) && code.blocked(failed),
            k <= steps@.len(),
            failed < old(code).len() <= code.len(),
            payload_type == Ty::I32 || payload_type == Ty::I64,
            pairs_known(values@, old(code).len()),
            pairs_known(produced@, code.len()),
            steps_fit(steps@, values@, *call, id, k as nat),
            forall|x: usize| #[trigger] produced@.contains_key(x) == step_defined(steps@, x, k as nat),
            forall|w: World|
                #![trigger code.at(w)]
                match old(code).at(w) {
                    Status::Run(s) => {
                        let ok = steps_pass(steps@, values@, s.vals, int32_loop, k as nat);
                        &&& steers(code.at(w), s, old(code).len(), failed, ok, s.vars, s.trace)
                        &&& ok ==> holds_computed(
                            code.at(w),
                            produced@,
                            computed_by(steps@, values@, s.vals, int32_loop, k as nat),
                        )
                    },
                    st => code.at(w) == st,
                },
        decreases steps@.len() - k,
    {
        let ghost before = *code;
        let ghost held = produced@;
        let pair = match emit_step(code, int32_loop, payload_type, call, id, steps, k, values, &produced, failed) {
            Ok(pair) => pair,
            Err(e) => {
                assert(!step_fits(steps@, values@, *call, id, k as nat));
                return Err(e);
            },
        };
        produced.insert(steps[k].value, pair);
        proof {
            let next = (k + 1) as nat;
            assert forall|x: usize| #[trigger] produced@.contains_key(x) == step_defined(steps@, x, next) by {
                assert(held.contains_key(x) == step_defined(steps@, x, k as nat));
            }
            assert forall|w: World|
                #![trigger code.at(w)]
                match old(code).at(w) {
                    Status::Run(s) => {
                        let ok = steps_pass(steps@, values@, s.vals, int32_loop, next);
                        &&& steers(code.at(w), s, old(code).len(), failed, ok, s.vars, s.trace)
                        &&& ok ==> holds_computed(
                            code.at(w),
                            produced@,
                            computed_by(steps@, values@, s.vals, int32_loop, next),
                        )
                    },
                    st => code.at(w) == st,
                } by {
                let a = before.at(w);
                let none = step_result(steps@[k as int].op, Map::empty(), values@, Map::empty(), int32_loop);
                if let Status::Run(s) = old(code).at(w) {
                    let computed = computed_by(steps@, values@, s.vals, int32_loop, k as nat);
                    let result = step_result(steps@[k as int].op, computed, values@, s.vals, int32_loop);
                    assert(computed_by(steps@, values@, s.vals, int32_loop, next) == computed.insert(
                        steps@[k as int].value,
                        result,
                    ));
                    assert(computed.dom() =~= held.dom()) by {
                        assert forall|x: usize| #[trigger] computed.dom().contains(x) == held.dom().contains(x) by {
                            computed_domain(steps@, values@, s.vals, int32_loop, x, k as nat);
                            assert(held.contains_key(x) == step_defined(steps@, x, k as nat));
                        }
                    }
                    if steps_pass(steps@, values@, s.vals, int32_loop, k as nat) {
                        let s1 = a->Run_0;
                        let after = code.at(w);
                        assert(holds_computed(a, held, computed));
                        assert forall|x: usize| #[trigger] values@.contains_key(x) implies s1.vals[values@[x].payload as int]
                            == s.vals[values@[x].payload as int] && s1.vals[values@[x].tag as int] == s.vals[values@[x].tag as int] by {}
                        let ok = steps@[k as int].op is Binary ==> in_range(Ty::I32, result.payload);
                        assert(steers(after, s1, before.len(), failed, ok, s1.vars, s1.trace));
                        assert(steps_pass(steps@, values@, s.vals, int32_loop, next) == ok);
                        if steps_pass(steps@, values@, s.vals, int32_loop, next) {
                            let all = computed_by(steps@, values@, s.vals, int32_loop, next);
                            assert forall|x: usize| #[trigger] all.contains_key(x) implies value(
                                code.at(w),
                                produced@[x].payload,
                            ) == all[x].payload && value(code.at(w), produced@[x].tag) == all[x].tag by {
                                if x != steps@[k as int].value {
                                    assert(computed.contains_key(x));
                                    assert(held.dom().contains(x));
                                    assert(held.contains_key(x));
                                }
                            }
                        }
                    }
                }
            }
        }
        k = k + 1;
    }
    Ok(produced)
}

/// Computes a call in place: an effect-free region takes the place of its
/// callee. Every failure deoptimizes to the call itself.
#[verifier::spinoff_prover]
#[verifier::rlimit(80)]
pub fn emit_opt_inlined_call(
    code: &mut Code,
    env: &OptEnv<'_>,
    site: NodeSite,
    call: &CallSite,
    region: &ScalarRegion,
    scalars: &Vec<ScalarValue>,
    depth: usize,
    provenance: &Vec<OptProvenance>,
    values: &BTreeMap<usize, OptPair>,
    proven: &Vec<Option<OperandMode>>,
    target_guarded: bool,
) -> (r: Result<OptPair, CompileFailure>)
    requires
        env.wf(old(code).len()),
        depth <= env.stack@.len(),
        depth <= provenance@.len(),
        pairs_known(values@, old(code).len()),
    ensures
        kept(*old(code), *final(code)),
        r is Ok && env.typed(*old(code)) && values_held(*old(code), values@) ==> steady(*old(code), *final(code)),
        r is Ok && env.typed(*old(code)) && values_held(*old(code), values@) ==> pair_held(*final(code), r->Ok_0),
        final(code).len() >= old(code).len(),
        r is Ok <==> inline_ready(
            *env,
            site,
            *call,
            *region,
            scalars@,
            depth as int,
            provenance@,
            values@,
            proven@,
        ),
        r matches Err(e) ==> e == placed_failure(
            inline_placed(site, *call, *region, scalars@, depth as int, provenance@, values@, proven@),
            *env,
            provenance@,
            depth as int,
        ),
        r matches Ok(pair) ==> {
            &&& pair.payload < final(code).len()
            &&& pair.tag < final(code).len()
            &&& forall|w: World|
                #![trigger final(code).at(w)]
                inlined_post(
                    *env,
                    site,
                    *call,
                    *region,
                    scalars@,
                    depth as int,
                    provenance@,
                    values@,
                    proven@,
                    target_guarded,
                    pair,
                    old(code).at(w),
                    final(code).at(w),
                    old(code).len(),
                    w,
                )
        },
{
    let ghost c0 = *code;
    if depth <= call.arguments.len() || call.receiver.is_some() || region.arguments.len() != call.arguments.len() {
        return Err(CompileFailure::InvalidArtifact);
    }
    let base: usize = depth - call.arguments.len() - 1;
    if !matches!(provenance[base], OptProvenance::Argument(_) | OptProvenance::Local(_)) {
        return Err(CompileFailure::InvalidArtifact);
    }
    let target = match values.get(&call.target) {
        Some(pair) => *pair,
        None => {
            return Err(CompileFailure::InvalidArtifact);
        },
    };
    let guard = match site.guard {
        Some(guard) => guard,
        None => {
            return Err(CompileFailure::InvalidArtifact);
        },
    };
    let failed = code.new_cold_block();
    let ghost c1 = *code;
    if !target_guarded {
        emit_guarded_direct_callee_identity(
            code,
            env.abi,
            target,
            DirectCalleeIdentity { object: region.object_identity, bytecode: region.bytecode_identity },
            failed,
        );
    }
    let ghost c2 = *code;
    if let Err(e) = check_arguments(code, call, region, scalars, proven, values, failed) {
        return Err(e);
    }
    let ghost c3 = *code;
    let payload_type = if env.int32_loop {
        Ty::I32
    } else {
        Ty::I64
    };
    let produced = match emit_steps(code, env.int32_loop, payload_type, call, site.id, &region.steps, values, failed) {
        Ok(produced) => produced,
        Err(e) => {
            return Err(e);
        },
    };
    let ghost c4 = *code;
    let result = match find_value(&produced, values, region.result) {
        Some(pair) => pair,
        None => {
            return Err(CompileFailure::InvalidArtifact);
        },
    };
    if let Err(e) = rejoin(code, env, failed, provenance, depth, site.pc, guard) {
        return Err(e);
    }
    proof {
        assert forall|w: World|
            #![trigger code.at(w)]
            inlined_post(
                *env,
                site,
                *call,
                *region,
                scalars@,
                depth as int,
                provenance@,
                values@,
                proven@,
                target_guarded,
                result,
                c0.at(w),
                code.at(w),
                c0.len(),
                w,
            ) by {
            waits_for_known_blocks(c0.insts@, w);
            let a = c1.at(w);
            let b = c2.at(w);
            let c = c3.at(w);
            let d = c4.at(w);
            let e = code.at(w);
            if let Status::Run(s) = c0.at(w) {
                let payload = s.vals[target.payload as int];
                let tag = s.vals[target.tag as int];
                let known = target_guarded || callee_fits(region_identity(*region), payload, tag, s.trace, w);
                let trace = if target_guarded {
                    s.trace
                } else {
                    callee_reads(*env.abi, region_identity(*region), payload, tag, s.trace, w)
                };
                let n = region.steps@.len();
                let fit = arguments_pass(
                    *call,
                    *region,
                    scalars@,
                    proven@,
                    values@,
                    s.vals,
                    call.arguments@.len() as int,
                );
                let ok = known && fit && steps_pass(region.steps@, values@, s.vals, env.int32_loop, n);
                assert(steers(b, s, c0.len(), failed, known, s.vars, trace));
                if known {
                    let s2 = b->Run_0;
                    assert forall|k: int|
                        0 <= k < call.arguments@.len() && !argument_known(
                            scalars@,
                            proven@,
                            #[trigger] call.arguments@[k],
                            region.arguments@[k],
                        ) implies s2.vals[values@[call.arguments@[k]].tag as int] == s.vals[values@[call.arguments@[k]].tag as int] by {
                        assert(argument_fits(*call, *region, scalars@, proven@, values@, k));
                    }
                    assert(arguments_pass(
                        *call,
                        *region,
                        scalars@,
                        proven@,
                        values@,
                        s2.vals,
                        call.arguments@.len() as int,
                    ) == fit);
                    if fit {
                        let s3 = c->Run_0;
                        same_steps(region.steps@, values@, s.vals, s3.vals, env.int32_loop, c0.len(), *call, site.id, n);
                    }
                }
                assert(steers(d, s, c0.len(), failed, ok, s.vars, trace));
                checked_chain(
                    *env,
                    s,
                    d,
                    e,
                    c0.len(),
                    failed,
                    ok,
                    s.vars,
                    trace,
                    provenance@,
                    depth as int,
                    site.pc,
                    guard,
                    w,
                );
                if ok {
                    let computed = computed_by(region.steps@, values@, s.vals, env.int32_loop, n);
                    computed_domain(region.steps@, values@, s.vals, env.int32_loop, region.result, n);
                    assert(computed.contains_key(region.result) == produced@.contains_key(region.result));
                }
            }
        }
    }
    Ok(result)
}

/// The steps see the same values wherever the values that they are given agree.
proof fn same_steps(
    steps: Seq<RegionStep>,
    values: Map<usize, OptPair>,
    a: Map<int, int>,
    b: Map<int, int>,
    int32_loop: bool,
    n: int,
    call: CallSite,
    id: u32,
    k: nat,
)
    requires
        pairs_known(values, n),
        forall|i: int| 0 <= i < n ==> #[trigger] a[i] == b[i],
        steps_fit(steps, values, call, id, k),
    ensures
        computed_by(steps, values, a, int32_loop, k) == computed_by(steps, values, b, int32_loop, k),
        steps_pass(steps, values, a, int32_loop, k) == steps_pass(steps, values, b, int32_loop, k),
    decreases k,
{
    if k > 0 {
        let m = (k - 1) as nat;
        same_steps(steps, values, a, b, int32_loop, n, call, id, m);
        assert(step_fits(steps, values, call, id, m));
        if let StepOp::Binary { op, lhs, rhs } = steps[m as int].op {
            computed_domain(steps, values, a, int32_loop, lhs, m);
            computed_domain(steps, values, a, int32_loop, rhs, m);
        }
    }
}

} // verus!
