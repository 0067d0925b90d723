//! Operations on scalar values: their checks, and calls whose callee is a scalar
//! region.
use crate::arithmetic::may_deopt;
use crate::checks::rejoin;
use crate::checks::steers;
use crate::code::kept;
use crate::code::Code;
use crate::code::Status;
use crate::code::World;
use crate::control::CompileFailure;
use crate::elements::checked_chain;
use crate::elements::passes;
use crate::exits::placed_failure;
use crate::frame::OptEnv;
use crate::lower_values::OptPair;
use crate::provenance::OptProvenance;
use crate::scalar::check_needed;
use crate::scalar::checks_fit;
use crate::scalar::checks_pass;
use crate::scalar::emit_checks;
use crate::scalar::frame_fits;
use crate::scalar::frame_vars;
use crate::scalar::operand_list;
use crate::scalar::operands_of;
use crate::scalar::opt_restore_scalar_frame;
use crate::scalar::pairs_known;
use crate::scalar::proven_of;
use crate::scalar::some_check;
use crate::scalar::OperandMode;
use crate::scalar::Operands;
use crate::scalar::ScalarCheck;
use crate::scalar::ScalarFrame;
use crate::scalar::ScalarOperation;
use std::collections::BTreeMap;
use crate::typing::steady;
use crate::typing::closing;
use crate::typing::calm;
use crate::assemble::Known;
use crate::frame_typing::pair_held;
use crate::frame_typing::slot_named;
use crate::frame_typing::slots_named;
use crate::frame_typing::cached_named;
use crate::frame_typing::cache_named;
use crate::frame_typing::values_held;
use vstd::prelude::*;

verus! {

broadcast use {
    crate::typing::group_typing,
    crate::frame_typing::group_frame,
    vstd::std_specs::btree::group_btree_axioms,
};

/// A node, where it stands, and the guard that recovers it.
#[derive(Clone, Copy, Debug, PartialEq, Eq, Structural)]
pub struct NodeSite {
    pub id: u32,
    pub pc: u32,
    pub guard: Option<u32>,
}

/// What is known of an operation before it is lowered.
#[derive(Debug)]
pub struct ScalarNode {
    pub frame: Option<ScalarFrame>,
    pub operation: Option<ScalarOperation>,
    pub checks: Vec<ScalarCheck>,
}

/// The operation belongs where it stands: its frame and its checks fit, its
/// operands are held somewhere, and a check that is left has a guard.
pub open spec fn operation_placed(
    env: OptEnv<'_>,
    site: NodeSite,
    node: ScalarNode,
    depth: int,
    values: Map<usize, OptPair>,
    proven: Seq<Option<OperandMode>>,
) -> bool {
    &&& frame_fits(env, node.frame, site.pc, depth, values)
    &&& node.operation matches Some(operation) && {
        let operands = operands_of(operation);
        &&& checks_fit(node.checks@, operands, site.id)
        &&& values.contains_key(operands.lhs)
        &&& operands.rhs matches Some(rhs) ==> values.contains_key(rhs)
        &&& some_check(node.checks@, proven) ==> site.guard is Some
    }
}

/// The operation can be lowered: it belongs there, and a check that is left can
/// deoptimize.
pub open spec fn operation_ready(
    env: OptEnv<'_>,
    site: NodeSite,
    node: ScalarNode,
    depth: int,
    provenance: Seq<OptProvenance>,
    values: Map<usize, OptPair>,
    proven: Seq<Option<OperandMode>>,
) -> bool {
    operation_placed(env, site, node, depth, values, proven) && (some_check(node.checks@, proven) ==> may_deopt(
        env,
        provenance,
        depth,
    ))
}

/// The frame's variables are restored, and the operation goes on where its
/// checks pass.
pub open spec fn prepared_post(
    env: OptEnv<'_>,
    site: NodeSite,
    node: ScalarNode,
    depth: int,
    provenance: Seq<OptProvenance>,
    values: Map<usize, OptPair>,
    proven: Seq<Option<OperandMode>>,
    st: Status,
    st2: Status,
    n: int,
    w: World,
) -> bool {
    match st {
        Status::Run(s) => passes(
            env,
            st2,
            s,
            n,
            checks_pass(node.checks@, proven, values, s.vals, node.checks@.len() as int),
            frame_vars(env, node.frame->Some_0, values, s.vars, s.vals),
            s.trace,
            provenance,
            depth,
            site.pc,
            site.guard->Some_0,
            w,
        ),
        st => st2 == st,
    }
}

fn find_operands(operation: ScalarOperation) -> (r: Operands)
    ensures
        r == operands_of(operation),
{
    match operation {
        ScalarOperation::Update { mode, input, .. } => Operands { mode, lhs: input, rhs: None },
        ScalarOperation::Bitwise { lhs, rhs, .. } => Operands { mode: OperandMode::Int32, lhs, rhs: Some(rhs) },
        ScalarOperation::Binary { mode, lhs, rhs, .. } => Operands { mode, lhs, rhs: Some(rhs) },
        ScalarOperation::Compare { lhs, rhs, .. } => Operands { mode: OperandMode::Number, lhs, rhs: Some(rhs) },
    }
}

fn fitting(checks: &Vec<ScalarCheck>, operands: &Operands, id: u32) -> (r: bool)
    ensures
        r == checks_fit(checks@, *operands, id),
{
    let ghost list = operand_list(*operands);
    match operands.rhs {
        Some(rhs) => {
            let r = checks.len() == 2 && checks[0].frame_state_node == id && checks[0].mode == operands.mode
                && checks[0].value == operands.lhs && checks[1].frame_state_node == id && checks[1].mode == operands.mode
                && checks[1].value == rhs;
            proof {
                if checks_fit(checks@, *operands, id) {
                    assert(checks@[0].value == list[0] && checks@[1].value == list[1]);
                }
            }
            r
        },
        None => {
            let r = checks.len() == 1 && checks[0].frame_state_node == id && checks[0].mode == operands.mode
                && checks[0].value == operands.lhs;
            proof {
                if checks_fit(checks@, *operands, id) {
                    assert(checks@[0].value == list[0]);
                }
            }
            r
        },
    }
}

fn checks_left(checks: &Vec<ScalarCheck>, proven: &Vec<Option<OperandMode>>) -> (r: bool)
    ensures
        r == some_check(checks@, proven@),
{
    let mut k: usize = 0;
    while k < checks.len()
        invariant
            k <= checks@.len(),
            forall|j: int| 0 <= j < k ==> !check_needed(#[trigger] checks@[j], proven@),
        decreases checks@.len() - k,
    {
        let check = checks[k];
        let needed = !check.eliminated && match proven_of(proven, check.value) {
            Some(mode) => check.mode != mode && check.mode != OperandMode::Number,
            None => true,
        };
        if needed {
            assert(check_needed(checks@[k as int], proven@));
            return true;
        }
        k = k + 1;
    }
    false
}

/// Restores the frame before an operation, and makes the checks of its operands
/// that are left. Answers where the operands are held.
pub fn opt_prepare_scalar_operation(
    code: &mut Code,
    env: &OptEnv<'_>,
    site: NodeSite,
    node: &ScalarNode,
    depth: usize,
    provenance: &Vec<OptProvenance>,
    values: &BTreeMap<usize, OptPair>,
    proven: &Vec<Option<OperandMode>>,
) -> (r: Result<(OptPair, Option<OptPair>), CompileFailure>)
    requires
        env.wf(old(code).len()),
        depth <= env.stack@.len(),
        pairs_known(values@, old(code).len()),
    ensures
        kept(*old(code), *final(code)),
        r is Ok && env.typed(*old(code)) && values_held(*old(code), values@) ==> steady(*old(code), *final(code)),
        r is Ok && env.typed(*old(code)) && values_held(*old(code), values@)
            ==> pair_held(*final(code), r->Ok_0.0)
                && (r->Ok_0.1 matches Some(second) ==> pair_held(*final(code), second)),
        final(code).len() >= old(code).len(),
        r is Ok <==> operation_ready(*env, site, *node, depth as int, provenance@, values@, proven@),
        r matches Err(e) ==> e == placed_failure(
            operation_placed(*env, site, *node, depth as int, values@, proven@),
            *env,
            provenance@,
            depth as int,
        ),
        r matches Ok((lhs, rhs)) ==> {
            let operands = operands_of(node.operation->Some_0);
            &&& lhs == values@[operands.lhs]
            &&& match operands.rhs {
                Some(id) => rhs == Some(values@[id]),
                None => rhs is None,
            }
            &&& forall|w: World|
                #![trigger final(code).at(w)]
                prepared_post(
                    *env,
                    site,
                    *node,
                    depth as int,
                    provenance@,
                    values@,
                    proven@,
                    old(code).at(w),
                    final(code).at(w),
                    old(code).len(),
                    w,
                )
        },
{
    let ghost c0 = *code;
    let ghost model = node.frame;
    if let Err(e) = opt_restore_scalar_frame(code, env, node.frame.as_ref(), site.pc, depth, values) {
        return Err(e);
    }
    let ghost c1 = *code;
    let operation = match node.operation {
        Some(operation) => operation,
        None => {
            return Err(CompileFailure::InvalidArtifact);
        },
    };
    let operands = find_operands(operation);
    if !fitting(&node.checks, &operands, site.id) {
        return Err(CompileFailure::InvalidArtifact);
    }
    let lhs = match values.get(&operands.lhs) {
        Some(pair) => *pair,
        None => {
            return Err(CompileFailure::InvalidArtifact);
        },
    };
    let rhs = match operands.rhs {
        Some(id) => match values.get(&id) {
            Some(pair) => Some(*pair),
            None => {
                return Err(CompileFailure::InvalidArtifact);
            },
        },
        None => None,
    };
    proof {
        let list = operand_list(operands);
        assert forall|k: int| 0 <= k < node.checks@.len() implies values@.contains_key((#[trigger] node.checks@[k]).value) by {
            assert(node.checks@[k].value == list[k]);
        }
    }
    if !checks_left(&node.checks, proven) {
        proof {
            assert forall|w: World|
                #![trigger code.at(w)]
                prepared_post(
                    *env,
                    site,
                    *node,
                    depth as int,
                    provenance@,
                    values@,
                    proven@,
                    c0.at(w),
                    code.at(w),
                    c0.len(),
                    w,
                ) by {
                let a = c1.at(w);
            }
        }
        return Ok((lhs, rhs));
    }
    let guard = match site.guard {
        Some(guard) => guard,
        None => {
            return Err(CompileFailure::InvalidArtifact);
        },
    };
    let failed = code.new_cold_block();
    let ghost c2 = *code;
    emit_checks(code, &node.checks, proven, values, failed);
    let ghost c3 = *code;
    if let Err(e) = rejoin(code, env, failed, provenance, depth, site.pc, guard) {
        return Err(e);
    }
    proof {
        assert forall|w: World|
            #![trigger code.at(w)]
            prepared_post(
                *env,
                site,
                *node,
                depth as int,
                provenance@,
                values@,
                proven@,
                c0.at(w),
                code.at(w),
                c0.len(),
                w,
            ) by {
            crate::code::waits_for_known_blocks(c0.insts@, w);
            let a = c1.at(w);
            let b = c2.at(w);
            let c = c3.at(w);
            let d = code.at(w);
            if let Status::Run(s) = c0.at(w) {
                let vars = frame_vars(*env, node.frame->Some_0, values@, s.vars, s.vals);
                let ok = checks_pass(node.checks@, proven@, values@, s.vals, node.checks@.len() as int);
                assert(steers(c, s, c0.len(), failed, ok, vars, s.trace));
                checked_chain(
                    *env,
                    s,
                    c,
                    d,
                    c0.len(),
                    failed,
                    ok,
                    vars,
                    s.trace,
                    provenance@,
                    depth as int,
                    site.pc,
                    guard,
                    w,
                );
            }
        }
    }
    Ok((lhs, rhs))
}

} // verus!
