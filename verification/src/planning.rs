//! Planning a function: the tables that its lowering takes.
//!
//! The engine's analyses are handed in; what is drawn from them is settled here.
//! First the frame: what the operand stack aliases, and which locals own what
//! they hold. Then promoted fields and arrays, round by round. Then the rest.
use crate::array_plan::plan_is;
use crate::array_plan::ArrayContext;
use crate::array_plan::ArrayPlan;
use crate::array_plan::BoundsProofs;
use crate::call_guards::analysis_limit;
use crate::call_guards::analysis_paid;
use crate::call_guards::guard_sites;
use crate::call_guards::slot_count;
use crate::call_guards::units_fit;
use crate::call_guards::CallTargetFact;
use crate::call_guards::HoistedCallGuards;
use crate::control::is_interruption;
use crate::control::CompileControl;
use crate::control::CompileFailure;
use crate::counted_loops::bounded_before;
use crate::counted_loops::provably_bounded_increments;
use crate::entry_state::cfg_affordable;
use crate::entry_state::cfg_entries;
use crate::entry_state::cfg_fits;
use crate::entry_state::cfg_valid;
use crate::entry_state::opt_cfg_entry_provenance;
use crate::frame::MAX_SLOTS;
use crate::ir::FrameShape;
use crate::ir::KnownFacts;
use crate::ir::LoopAnalysis;
use crate::ir::OptimizedIr;
use crate::lower_machine::MachineInput;
use crate::machine_plan::array_non_reentrant;
use crate::machine_plan::assumed_array_sites;
use crate::machine_plan::assumed_property_sites;
use crate::machine_plan::assumes_array;
use crate::machine_plan::assumes_property;
use crate::machine_plan::defers_locals;
use crate::machine_plan::is_int32_loop;
use crate::machine_plan::keeps_arrays;
use crate::machine_plan::lowering_shape;
use crate::machine_plan::operand_slots;
use crate::machine_plan::FieldPlan;
use crate::machine_plan::LoweringShape;
use crate::machine_plan::PlanRefinement;
use crate::machine_plan::Verdict;
use crate::machine_plan::MAX_REFINEMENTS;
use crate::ownership::doubt_marks_more_locals;
use crate::ownership::owned_local_targets;
use crate::ownership::owned_locals;
use crate::property_cache::PropertyAccessPlan;
use crate::property_cache::PropertyBoundary;
use crate::property_cache::PropertyCandidate;
use crate::provenance::OptProvenance;
use crate::runtime::ArrayAccess;
use crate::scalar_ops::ScalarNode;
use crate::specialization::NumericSpecialization;
use std::collections::BTreeMap;
use std::collections::BTreeSet;
use vstd::prelude::*;

verus! {

/// What is known of the frame: what the operand stack aliases where each block
/// begins, and the locals that may own what they hold.
#[derive(Debug)]
pub struct FrameTables {
    pub entries: BTreeMap<u32, Vec<OptProvenance>>,
    pub owned_locals: Vec<bool>,
}

/// Settles the frame of a function.
pub fn plan_frame(
    ir: &OptimizedIr,
    specialization: &NumericSpecialization,
    live_bytes: usize,
    control: Option<&CompileControl>,
) -> (r: Result<FrameTables, CompileFailure>)
    requires
        ir.wf(),
    ensures
        r matches Ok(t) ==> {
            &&& cfg_entries(*ir, *specialization, t.entries@)
            &&& cfg_fits(*ir, (ir.max_stack + ir.helper_scratch_slots) as usize, live_bytes, control)
            &&& owned_locals(*ir, *specialization, t.entries@) == Ok::<Seq<bool>, CompileFailure>(t.owned_locals@)
            &&& ir.entry_shape matches Some(shape) && t.owned_locals@.len() == shape.locals
        },
        r matches Err(e) ==> {
            ||| is_interruption(e) && control is Some
            ||| e == CompileFailure::ResourceLimit && !cfg_affordable(
                *ir,
                (ir.max_stack + ir.helper_scratch_slots) as usize,
                live_bytes,
                control,
            )
            ||| e == CompileFailure::InvalidArtifact && !cfg_valid(*ir)
            ||| exists|entries: Map<u32, Vec<OptProvenance>>| #[trigger]
                cfg_entries(*ir, *specialization, entries) && owned_locals(*ir, *specialization, entries) == Err::<
                    Seq<bool>,
                    CompileFailure,
                >(e)
        },
{
    let entries = match opt_cfg_entry_provenance(ir, specialization, operand_slots(ir), live_bytes, control) {
        Ok(entries) => entries,
        Err(e) => return Err(e),
    };
    match owned_local_targets(ir, specialization, &entries) {
        Ok(owned_locals) => {
            proof {
                doubt_marks_more_locals(*ir, *specialization, entries@, entries@);
            }
            Ok(FrameTables { entries, owned_locals })
        },
        Err(e) => Err(e),
    }
}

/// Nothing is planned for the heap: values are raw, or a side path is taken.
pub open spec fn plans_heap(ir: OptimizedIr, specialization: NumericSpecialization, side_path: bool) -> bool {
    !is_int32_loop(specialization, ir) && !side_path
}

/// The promoted fields: their candidates, the accesses that use them, and what
/// becomes of them before each node.
#[derive(Debug)]
pub struct FieldTables {
    pub candidates: Vec<PropertyCandidate>,
    pub accesses: Vec<Option<PropertyAccessPlan>>,
    pub boundaries: Vec<PropertyBoundary>,
}

impl FieldTables {
    /// Nothing is promoted.
    pub fn none(ir: &OptimizedIr) -> (r: Self)
        ensures
            r.candidates@.len() == 0,
            r.accesses@ == Seq::new(ir.nodes@.len(), |i: int| None::<PropertyAccessPlan>),
            r.boundaries@ == Seq::new(ir.nodes@.len(), |i: int| PropertyBoundary::Keep),
    {
        let mut accesses: Vec<Option<PropertyAccessPlan>> = Vec::new();
        let mut boundaries: Vec<PropertyBoundary> = Vec::new();
        while accesses.len() < ir.nodes.len()
            invariant
                accesses@.len() == boundaries@.len() <= ir.nodes@.len(),
                forall|k: int| 0 <= k < accesses@.len() ==> #[trigger] accesses@[k] is None,
                forall|k: int| 0 <= k < boundaries@.len() ==> #[trigger] boundaries@[k] == PropertyBoundary::Keep,
            decreases ir.nodes@.len() - accesses@.len(),
        {
            accesses.push(None);
            boundaries.push(PropertyBoundary::Keep);
        }
        assert(accesses@ =~= Seq::new(ir.nodes@.len(), |i: int| None::<PropertyAccessPlan>));
        assert(boundaries@ =~= Seq::new(ir.nodes@.len(), |i: int| PropertyBoundary::Keep));
        FieldTables { candidates: Vec::new(), accesses, boundaries }
    }
}

/// How the promotion of fields comes about.
#[derive(Debug)]
pub struct FieldPlanning {
    pub refinement: PlanRefinement,
    /// Nothing is promoted where there is none.
    pub plan: Option<FieldTables>,
}

/// The accesses that use a promoted field.
pub open spec fn promoted_sites(plan: FieldTables) -> Seq<bool> {
    plan.accesses@.map_values(|access: Option<PropertyAccessPlan>| access is Some)
}

impl FieldPlanning {
    pub open spec fn wf(self) -> bool {
        self.refinement.wf() && (!self.refinement.finished ==> self.refinement.rounds < MAX_REFINEMENTS)
    }

    /// The first facts rely on the accesses that feedback proposes; `promotable`
    /// says where the observation allows it.
    pub fn start(ir: &OptimizedIr, specialization: &NumericSpecialization, side_path: bool, promotable: &Vec<bool>) -> (r: Self)
        ensures
            r.wf(),
            r.plan is None,
            r.refinement.guarded@ == Seq::new(
                ir.nodes@.len(),
                |i: int| assumes_property(ir.nodes@[i], *specialization, promotable@),
            ),
            r.refinement.rounds == 0,
            !r.refinement.started,
            !r.refinement.ends_when_empty,
            r.refinement.finished == !plans_heap(*ir, *specialization, side_path),
    {
        let mut refinement = PlanRefinement::new(assumed_property_sites(ir, specialization, promotable), false);
        refinement.finished = crate::machine_plan::uses_int32_loop(specialization, ir) || side_path;
        FieldPlanning { refinement, plan: None }
    }

    /// Takes the plan that was made from facts on the guarded sites.
    pub fn advance(&mut self, made: FieldTables)
        requires
            old(self).wf(),
            !old(self).refinement.finished,
        ensures
            final(self).wf(),
            final(self).refinement.guarded@ == old(self).refinement.kept_sites(promoted_sites(made)),
            final(self).refinement.finished == old(self).refinement.ends(promoted_sites(made)),
            final(self).refinement.started,
            final(self).refinement.rounds == if old(self).refinement.started {
                old(self).refinement.rounds + 1
            } else {
                old(self).refinement.rounds as int
            },
            final(self).refinement.ends_when_empty == old(self).refinement.ends_when_empty,
            final(self).plan == (if old(self).refinement.first_verdict(promoted_sites(made)) == Verdict::Keep {
                Some(made)
            } else {
                None
            }),
    {
        let mut sites: Vec<bool> = Vec::new();
        while sites.len() < made.accesses.len()
            invariant
                sites@.len() <= made.accesses@.len(),
                forall|k: int| 0 <= k < sites@.len() ==> sites@[k] == (made.accesses@[k] is Some),
            decreases made.accesses@.len() - sites@.len(),
        {
            sites.push(made.accesses[sites.len()].is_some());
        }
        assert(sites@ =~= promoted_sites(made));
        self.plan = match self.refinement.advance(sites) {
            Verdict::Keep => Some(made),
            Verdict::Drop => None,
        };
    }
}

/// What a round of array planning is given.
pub struct ArrayRound<'a> {
    pub ir: &'a OptimizedIr,
    pub specialization: &'a NumericSpecialization,
    pub scalar_nodes: &'a Vec<ScalarNode>,
    pub owned_locals: &'a Vec<bool>,
    pub loops: &'a LoopAnalysis,
    /// The facts that hold where the guarded sites cannot reenter.
    pub facts: &'a KnownFacts,
    pub ranges: &'a BoundsProofs,
    pub length_atom: u32,
    pub work: usize,
}

/// Every node that is lowered to a guarded leaf.
pub open spec fn leaf_sites(ir: OptimizedIr, plan: ArrayPlan) -> Seq<bool> {
    Seq::new(
        ir.nodes@.len(),
        |i: int|
            match plan.access_at(ir.nodes@[i].id) {
                Some(a) => a.access != ArrayAccess::Length || plan.hoists_length(ir.nodes@[i].id),
                None => false,
            },
    )
}

impl<'a> ArrayRound<'a> {
    /// The nodes that keep what is known of arrays, where the guarded sites are
    /// emitted as such.
    pub open spec fn keeps(self, guarded: Seq<bool>) -> Seq<bool> {
        Seq::new(
            self.ir.nodes@.len(),
            |i: int| keeps_arrays(self.ir.nodes@[i], self.scalar_nodes@[i], self.owned_locals@, guarded[i]),
        )
    }

    /// The plan is the one that the facts allow.
    pub open spec fn makes(self, kept: &Vec<bool>, plan: ArrayPlan) -> bool {
        let context = ArrayContext {
            ir: self.ir,
            facts: self.facts,
            loops: self.loops,
            feedback: &self.specialization.arrays,
            typed_length_guard: true,
            non_reentrant: kept,
            length_atom: self.length_atom,
        };
        if context.plannable(self.work as int) {
            plan_is(context, *self.ranges, plan)
        } else {
            plan.is_default()
        }
    }
}

/// How the plan for arrays comes about.
#[derive(Debug)]
pub struct ArrayPlanning {
    pub refinement: PlanRefinement,
    pub plan: ArrayPlan,
}

impl ArrayPlanning {
    pub open spec fn wf(self, ir: OptimizedIr) -> bool {
        &&& self.refinement.wf()
        &&& !self.refinement.finished ==> self.refinement.rounds < MAX_REFINEMENTS
        &&& self.refinement.guarded@.len() == ir.nodes@.len()
    }

    /// The first facts rely on the accesses that feedback proposes.
    pub fn start(ir: &OptimizedIr, specialization: &NumericSpecialization, side_path: bool) -> (r: Self)
        ensures
            r.wf(*ir),
            r.plan.is_default(),
            r.refinement.guarded@ == Seq::new(ir.nodes@.len(), |i: int| assumes_array(ir.nodes@[i], specialization.arrays@)),
            r.refinement.rounds == 0,
            !r.refinement.started,
            r.refinement.ends_when_empty,
            r.refinement.finished == (!plans_heap(*ir, *specialization, side_path) || specialization.arrays@.len() == 0),
    {
        let mut refinement = PlanRefinement::new(assumed_array_sites(ir, &specialization.arrays), true);
        refinement.finished = crate::machine_plan::uses_int32_loop(specialization, ir) || side_path
            || specialization.arrays.len() == 0;
        ArrayPlanning { refinement, plan: ArrayPlan::empty() }
    }

    /// Plans again from facts on the guarded sites.
    pub fn advance(&mut self, round: &ArrayRound<'_>)
        requires
            old(self).wf(*round.ir),
            !old(self).refinement.finished,
            round.ir.nodes@.len() <= u32::MAX,
            round.scalar_nodes@.len() == round.ir.nodes@.len(),
        ensures
            final(self).wf(*round.ir),
            final(self).refinement.started,
            final(self).refinement.rounds == if old(self).refinement.started {
                old(self).refinement.rounds + 1
            } else {
                old(self).refinement.rounds as int
            },
            final(self).refinement.ends_when_empty == old(self).refinement.ends_when_empty,
            exists|kept: Vec<bool>, made: ArrayPlan|
                {
                    let sites = leaf_sites(*round.ir, made);
                    &&& kept@ == round.keeps(old(self).refinement.guarded@)
                    &&& #[trigger] round.makes(&kept, made)
                    &&& final(self).refinement.guarded@ == old(self).refinement.kept_sites(sites)
                    &&& final(self).refinement.finished == old(self).refinement.ends(sites)
                    &&& if old(self).refinement.first_verdict(sites) == Verdict::Keep {
                        final(self).plan == made
                    } else {
                        final(self).plan.is_default()
                    }
                },
    {
        let kept = array_non_reentrant(round.ir, round.scalar_nodes, round.owned_locals, &self.refinement.guarded);
        assert(kept@ =~= round.keeps(self.refinement.guarded@));
        let context = ArrayContext {
            ir: round.ir,
            facts: round.facts,
            loops: round.loops,
            feedback: &round.specialization.arrays,
            typed_length_guard: true,
            non_reentrant: &kept,
            length_atom: round.length_atom,
        };
        let made = context.analyze(round.work, round.ranges);
        assert(round.makes(&kept, made));
        let mut sites: Vec<bool> = Vec::new();
        while sites.len() < round.ir.nodes.len()
            invariant
                sites@.len() <= round.ir.nodes@.len(),
                forall|k: int| 0 <= k < sites@.len() ==> sites@[k] == leaf_sites(*round.ir, made)[k],
            decreases round.ir.nodes@.len() - sites@.len(),
        {
            let id: u32 = round.ir.nodes[sites.len()].id;
            sites.push(made.guarded_leaf(id));
        }
        assert(sites@ =~= leaf_sites(*round.ir, made));
        let ghost planned = made;
        self.plan = match self.refinement.advance(sites) {
            Verdict::Keep => made,
            Verdict::Drop => ArrayPlan::empty(),
        };
        assert(round.makes(&kept, planned));
    }
}

/// What the last tables are drawn from.
pub struct LastAnalyses<'a> {
    pub ir: &'a OptimizedIr,
    pub specialization: &'a NumericSpecialization,
    pub loops: &'a LoopAnalysis,
    pub facts: &'a KnownFacts,
    pub accesses: &'a Vec<Option<PropertyAccessPlan>>,
    pub boundaries: &'a Vec<PropertyBoundary>,
    pub owned_locals: &'a Vec<bool>,
    pub side_path: bool,
    /// The graph permits amortized polls where nothing but scalars is touched.
    pub scalar_region: bool,
    /// The graph permits amortized polls over the guarded sites of the heap.
    pub permitted: bool,
}

/// The last tables: the shape of the function, the accesses whose field is always
/// in its variable, the increments that cannot overflow, and the call targets
/// that are checked on entry.
#[derive(Debug)]
pub struct LastTables {
    pub shape: LoweringShape,
    pub forwarded: BTreeSet<u32>,
    pub bounded: BTreeSet<u32>,
    pub hoisted: HoistedCallGuards,
}

impl<'a> LastAnalyses<'a> {
    pub open spec fn field_plan(self, amortized_poll: bool) -> FieldPlan<'a> {
        FieldPlan {
            ir: self.ir,
            loops: self.loops,
            accesses: self.accesses,
            boundaries: self.boundaries,
            amortized_poll,
        }
    }

    /// Values are raw, or only scalars are touched and no side path is taken.
    pub open spec fn scalar_only(self) -> bool {
        is_int32_loop(*self.specialization, *self.ir) || !self.side_path && self.scalar_region
    }

    pub open spec fn amortizes(self) -> bool {
        is_int32_loop(*self.specialization, *self.ir) || !self.side_path && self.permitted
    }

    /// The targets and calls are those of the first `n` nodes.
    pub open spec fn hoists(self, targets: Seq<CallTargetFact>, calls: Map<u32, u16>, n: nat) -> bool {
        crate::call_guards::plan_is(*self.ir, *self.loops, *self.facts, targets, calls, n)
    }

    pub open spec fn units_fit(self, shape: FrameShape, targets: Seq<CallTargetFact>) -> bool {
        units_fit(
            targets.len() as int,
            guard_sites(*self.ir, self.ir.nodes@.len()) as int,
            slot_count(shape),
        )
    }

    pub open spec fn hoisting_paid(self, shape: FrameShape) -> bool {
        analysis_paid(*self.ir, *self.loops, *self.facts, shape, analysis_limit(*self.ir))
    }

    pub fn tables(&self) -> (r: LastTables)
        requires
            self.field_plan(self.amortizes()).wf(),
            self.ir.nodes@.len() <= u32::MAX,
        ensures
            r.shape == (LoweringShape {
                int32_loop: is_int32_loop(*self.specialization, *self.ir),
                amortized_poll: self.amortizes(),
                defer_locals: defers_locals(
                    self.amortizes(),
                    is_int32_loop(*self.specialization, *self.ir),
                    self.owned_locals@,
                ),
                stack_slots: (self.ir.max_stack + self.ir.helper_scratch_slots) as usize,
            }),
            forall|id: u32| #[trigger]
                r.forwarded@.contains(id) <==> id < self.ir.nodes@.len() && self.field_plan(self.amortizes()).forwards(id as int),
            forall|pc: u32| #[trigger] r.bounded@.contains(pc) == bounded_before(*self.ir, self.ir.blocks@.len() as int, pc),
            r.hoisted.is_default() || self.scalar_only() && self.ir.inlined_calls > 0 && self.loops.complete
                && self.hoists(r.hoisted.targets@, r.hoisted.calls@, self.ir.nodes@.len()) && (
            self.ir.entry_shape matches Some(shape) && self.units_fit(shape, r.hoisted.targets@) && self.hoisting_paid(shape)),
            (self.ir.entry_shape matches Some(shape) && self.scalar_only() && self.ir.inlined_calls > 0 && self.loops.complete
                && self.hoisting_paid(shape) && (forall|targets: Seq<CallTargetFact>, calls: Map<u32, u16>, n: nat|
                #[trigger] self.hoists(targets, calls, n) && n <= self.ir.nodes@.len() ==> self.units_fit(shape, targets)))
                ==> self.hoists(r.hoisted.targets@, r.hoisted.calls@, self.ir.nodes@.len()),
    {
        let shape = lowering_shape(self.ir, self.specialization, self.side_path, self.permitted, self.owned_locals);
        let fields = FieldPlan {
            ir: self.ir,
            loops: self.loops,
            accesses: self.accesses,
            boundaries: self.boundaries,
            amortized_poll: shape.amortized_poll,
        };
        assert(fields == self.field_plan(self.amortizes()));
        let forwarded = fields.forwarded_sites();
        let scalar_only = shape.int32_loop || !self.side_path && self.scalar_region;
        let hoisted = HoistedCallGuards::analyze(self.ir, self.loops, self.facts, scalar_only);
        proof {
            if let Some(frame) = self.ir.entry_shape {
                if forall|targets: Seq<CallTargetFact>, calls: Map<u32, u16>, n: nat| #[trigger]
                    self.hoists(targets, calls, n) && n <= self.ir.nodes@.len() ==> self.units_fit(frame, targets) {
                    assert forall|targets: Seq<CallTargetFact>, calls: Map<u32, u16>, n: nat| #[trigger]
                        crate::call_guards::plan_is(*self.ir, *self.loops, *self.facts, targets, calls, n) && n
                            <= self.ir.nodes@.len() implies self.units_fit(frame, targets) by {
                        assert(self.hoists(targets, calls, n));
                    }
                }
            }
        }
        LastTables { shape, forwarded, bounded: provably_bounded_increments(self.ir), hoisted }
    }
}

/// The planned tables take their places in what is lowered; everything else is
/// as the engine has it.
pub fn with_plan<'a>(
    input: MachineInput<'a>,
    frame: &'a FrameTables,
    fields: &'a FieldTables,
    arrays: &'a ArrayPlan,
    last: &'a LastTables,
) -> (r: MachineInput<'a>)
    ensures
        r == (MachineInput {
            stack_slots: last.shape.stack_slots,
            int32_loop: last.shape.int32_loop,
            amortized_poll: last.shape.amortized_poll,
            defer_locals: last.shape.defer_locals,
            owned_locals: &frame.owned_locals,
            entries: &frame.entries,
            bounded: &last.bounded,
            candidates: &fields.candidates,
            accesses: &fields.accesses,
            boundaries: &fields.boundaries,
            forwarded: &last.forwarded,
            arrays,
            hoisted: &last.hoisted,
            ..input
        }),
        input.wf() && last.shape.stack_slots < MAX_SLOTS && frame.owned_locals@.len() == input.shape.locals
            && fields.accesses@.len() == input.ir.nodes@.len() && fields.boundaries@.len() == input.ir.nodes@.len() && (
        last.shape.int32_loop ==> arrays.is_default()) ==> r.wf(),
{
    MachineInput {
        stack_slots: last.shape.stack_slots,
        int32_loop: last.shape.int32_loop,
        amortized_poll: last.shape.amortized_poll,
        defer_locals: last.shape.defer_locals,
        owned_locals: &frame.owned_locals,
        entries: &frame.entries,
        bounded: &last.bounded,
        candidates: &fields.candidates,
        accesses: &fields.accesses,
        boundaries: &fields.boundaries,
        forwarded: &last.forwarded,
        arrays,
        hoisted: &last.hoisted,
        ..input
    }
}

} // verus!
