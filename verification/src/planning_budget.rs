//! The storage that planning a function takes, and its limit.
use crate::array_plan::ArrayPlan;
use crate::call_guards::scratch_bound;
use crate::call_guards::HoistedCallGuards;
use crate::control::CompileControl;
use crate::control::CompileFailure;
use crate::ir::OptimizedIr;
use crate::tier2::clamped;
use crate::tier2::saturating_product;
use vstd::prelude::*;

verus! {

/// What the analyses take, in bytes.
#[derive(Clone, Copy, Debug, PartialEq, Eq, Structural)]
pub struct AnalysisSizes {
    /// The modes that are proved of the values.
    pub modes: usize,
    /// The plan of the promoted fields.
    pub fields: usize,
    pub facts_per_value: usize,
    pub ranges: usize,
    pub loops: usize,
    /// The loops as the planning of call targets takes them.
    pub call_loops: usize,
    /// What planning call targets takes for each value.
    pub call_bytes_per_value: usize,
}

/// What is planned, and so what is live at once.
#[derive(Clone, Copy, Debug, PartialEq, Eq, Structural)]
pub enum PlanningStep {
    CallTargets,
    Fields,
    Arrays,
    /// The aliases of the operand stack, beside every other analysis.
    Aliases,
}

/// What a node's record takes while everything is live.
pub const NODE_BYTES: usize = 128;

pub open spec fn planning_bytes(ir: OptimizedIr, locals: u16, sizes: AnalysisSizes, step: PlanningStep) -> int {
    let scratch = scratch_bound(ir, sizes.call_loops as int, sizes.call_bytes_per_value as int);
    let facts = ir.values@.len() * sizes.facts_per_value;
    let arrays = clamped((ir.nodes@.len() * 160 + 1024) as int);
    clamped(
        ir.allocated_bytes + match step {
            PlanningStep::CallTargets => sizes.modes + scratch,
            PlanningStep::Fields => scratch + sizes.fields + facts,
            PlanningStep::Arrays => arrays + sizes.ranges + sizes.loops + facts,
            PlanningStep::Aliases => sizes.modes + locals + ir.nodes@.len() * NODE_BYTES + scratch + sizes.fields + arrays
                + sizes.ranges + sizes.loops + facts * 2,
        },
    )
}

/// The bytes that are live in a planning step.
pub fn live_bytes(ir: &OptimizedIr, locals: u16, sizes: &AnalysisSizes, step: PlanningStep) -> (r: usize)
    ensures
        r == planning_bytes(*ir, locals, *sizes, step),
{
    let scratch = HoistedCallGuards::scratch_bytes(ir, sizes.call_loops, sizes.call_bytes_per_value);
    let facts = saturating_product(ir.values.len(), sizes.facts_per_value);
    let arrays = ArrayPlan::bytes_upper_bound(ir);
    let graph: usize = ir.allocated_bytes;
    assert(ir.values@.len() * sizes.facts_per_value >= 0) by (nonlinear_arith)
        requires
            ir.values@.len() >= 0,
            sizes.facts_per_value >= 0,
    ;
    match step {
        PlanningStep::CallTargets => graph.saturating_add(sizes.modes).saturating_add(scratch),
        PlanningStep::Fields => graph.saturating_add(scratch).saturating_add(sizes.fields).saturating_add(facts),
        PlanningStep::Arrays => graph.saturating_add(arrays).saturating_add(sizes.ranges).saturating_add(
            sizes.loops,
        ).saturating_add(facts),
        PlanningStep::Aliases => {
            let nodes = saturating_product(ir.nodes.len(), NODE_BYTES);
            let twice = saturating_product(facts, 2);
            graph.saturating_add(sizes.modes).saturating_add(locals as usize).saturating_add(nodes).saturating_add(
                scratch,
            ).saturating_add(sizes.fields).saturating_add(arrays).saturating_add(sizes.ranges).saturating_add(
                sizes.loops,
            ).saturating_add(twice)
        },
    }
}

/// Refuses a planning step whose storage exceeds the limit.
pub fn check_planning(
    control: &CompileControl,
    ir: &OptimizedIr,
    locals: u16,
    sizes: &AnalysisSizes,
    step: PlanningStep,
) -> (r: Result<(), CompileFailure>)
    ensures
        r is Ok <==> planning_bytes(*ir, locals, *sizes, step) <= control.ir_limit(),
        r is Err ==> r == Err::<(), CompileFailure>(CompileFailure::ResourceLimit),
{
    control.check_ir_bytes(live_bytes(ir, locals, sizes, step))
}

/// The step with every analysis live needs the most: a control that admits it
/// admits planning call targets and fields.
pub proof fn aliases_need_the_most(ir: OptimizedIr, locals: u16, sizes: AnalysisSizes, limit: usize)
    requires
        planning_bytes(ir, locals, sizes, PlanningStep::Aliases) <= limit,
    ensures
        planning_bytes(ir, locals, sizes, PlanningStep::CallTargets) <= limit,
        planning_bytes(ir, locals, sizes, PlanningStep::Fields) <= limit,
        planning_bytes(ir, locals, sizes, PlanningStep::Arrays) <= limit,
{
    assert(ir.values@.len() * sizes.facts_per_value >= 0) by (nonlinear_arith)
        requires
            ir.values@.len() >= 0,
            sizes.facts_per_value >= 0,
    ;
    assert(ir.values@.len() * sizes.call_bytes_per_value >= 0) by (nonlinear_arith)
        requires
            ir.values@.len() >= 0,
            sizes.call_bytes_per_value >= 0,
    ;
}

} // verus!
