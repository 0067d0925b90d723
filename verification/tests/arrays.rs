use tier2::array_plan::{ArrayCandidate, ArrayContext, ArrayPlan, BoundsProofs};
use tier2::ir::{
    FrameShape, FrameSlot, KnownFacts, LoopAnalysis, NaturalLoop, OptimizedBlock, OptimizedIr, OptimizedNode, OptimizedNodeKind,
    ScalarHeapEffect, ScalarHeapOperation, ScalarValue,
};
use tier2::machine_plan::{
    amortizes_polls, analysis_work, array_non_reentrant, assumed_array_sites, defer_scalar_locals, guarded_heap_sites, refine,
    lowering_shape, uses_int32_loop, FieldPlan, PlanRefinement, Refinement, Verdict, ARRAY_WORK, PROPERTY_WORK,
};
use tier2::planning::{ArrayPlanning, ArrayRound, FieldPlanning, FieldTables, LastAnalyses};
use tier2::property_cache::{PropertyAccessPlan, PropertyBoundary};
use tier2::runtime::{ArrayAccess, ArrayFeedback, ArrayMode, FunctionKey};
use tier2::scalar::{OperandMode, ScalarBinaryOp, ScalarOperation};
use tier2::scalar_ops::ScalarNode;
use tier2::specialization::{EntryRepresentation, NumericSpecialization};

const LENGTH: u32 = 50;
const WORK: usize = 100_000;

fn key() -> FunctionKey {
    FunctionKey { id: 900, generation: 1 }
}

/// A function that is written down node by node. The blocks are named by their
/// first node.
struct Program {
    nodes: Vec<OptimizedNode>,
    node_blocks: Vec<Option<u32>>,
    values: Vec<ScalarValue>,
    arguments: Vec<Option<u16>>,
    feedback: Vec<ArrayFeedback>,
    certified: Vec<bool>,
    proved: Vec<(usize, usize, u32)>,
    loops: Vec<NaturalLoop>,
    dominance: Vec<(u32, u32)>,
    block: u32,
    mode: ArrayMode,
}

impl Program {
    fn new(arguments: u16, mode: ArrayMode) -> Program {
        let mut program = Program {
            nodes: vec![],
            node_blocks: vec![],
            values: vec![],
            arguments: vec![],
            feedback: vec![],
            certified: vec![],
            proved: vec![],
            loops: vec![],
            dominance: vec![],
            block: 0,
            mode,
        };
        for index in 0..arguments {
            program.value(Some(index));
        }
        program.poll(false);
        program
    }

    fn value(&mut self, argument: Option<u16>) -> usize {
        self.values.push(ScalarValue::Opaque);
        self.arguments.push(argument);
        self.values.len() - 1
    }

    fn start_block(&mut self) -> u32 {
        self.block = self.nodes.len() as u32;
        self.block
    }

    fn push(&mut self, kind: OptimizedNodeKind, effect: ScalarHeapEffect, operation: Option<ScalarHeapOperation>) -> u32 {
        let id = self.nodes.len() as u32;
        self.nodes.push(OptimizedNode {
            id,
            pc: id,
            kind,
            bytes: vec![0],
            pops: 0,
            pushes: 0,
            eliminated: false,
            deopt_guard: None,
            branch_target: None,
            shuffle: None,
            frame_stack: None,
            outputs: vec![],
            frame_definitions: vec![],
            call: None,
            heap_operation: operation,
            effect,
        });
        self.node_blocks.push(Some(self.block));
        self.certified.push(false);
        id
    }

    fn bytecode(&mut self, opcode: &str, effect: ScalarHeapEffect, operation: Option<ScalarHeapOperation>) -> u32 {
        self.push(OptimizedNodeKind::Bytecode { opcode: opcode.to_owned() }, effect, operation)
    }

    fn poll(&mut self, mid_loop: bool) -> u32 {
        let guard = self.nodes.len() as u32;
        self.push(OptimizedNodeKind::GuardNumeric { guard, mid_loop }, ScalarHeapEffect::HeapWrite, None)
    }

    fn observe(&mut self, node: u32, access: ArrayAccess) {
        let mode = self.mode;
        self.feedback.push(ArrayFeedback { function: key(), pc: node, access, only_mode: Some(mode), can_specialize: true });
    }

    fn store(&mut self, base: usize, index: usize) -> u32 {
        self.propkey();
        let operation = ScalarHeapOperation::PutElement { base, index };
        let node = self.bytecode("put_array_el", ScalarHeapEffect::Reentrant, Some(operation));
        self.observe(node, ArrayAccess::Store);
        node
    }

    fn load(&mut self, base: usize, index: usize) -> u32 {
        let result = self.value(None);
        let operation = ScalarHeapOperation::GetElement { base, index, result };
        let node = self.bytecode("get_array_el", ScalarHeapEffect::Reentrant, Some(operation));
        self.observe(node, ArrayAccess::Load);
        node
    }

    /// The node, and the value of the length.
    fn length(&mut self, base: usize) -> (u32, usize) {
        let result = self.value(None);
        let operation = ScalarHeapOperation::GetProperty { base, atom: LENGTH, result };
        let node = self.bytecode("get_length", ScalarHeapEffect::Reentrant, Some(operation));
        self.observe(node, ArrayAccess::Length);
        (node, result)
    }

    fn put_length(&mut self, base: usize) -> u32 {
        let operation = ScalarHeapOperation::PutProperty { base, atom: LENGTH };
        self.bytecode("put_field", ScalarHeapEffect::Reentrant, Some(operation))
    }

    fn propkey(&mut self) {
        let node = self.bytecode("to_propkey", ScalarHeapEffect::Reentrant, None);
        self.certified[node as usize] = true;
    }

    fn call(&mut self) -> u32 {
        self.bytecode("call", ScalarHeapEffect::Reentrant, None)
    }

    fn looping(&mut self, header: u32, preheader: u32, members: &[u32]) {
        self.loops.push(NaturalLoop { header, preheader: Some(preheader), members: members.to_vec() });
    }

    fn analysis(&mut self) -> LoopAnalysis {
        LoopAnalysis {
            complete: true,
            loops: self.loops.drain(..).collect(),
            node_blocks: self.node_blocks.clone(),
            dominance: self.dominance.clone(),
        }
    }

    fn ir(&mut self) -> OptimizedIr {
        let mut blocks: Vec<OptimizedBlock> = vec![];
        for (node, block) in self.node_blocks.iter().enumerate() {
            let start_pc = block.unwrap();
            let position = match blocks.iter().position(|known| known.start_pc == start_pc) {
                Some(position) => position,
                None => {
                    blocks.push(OptimizedBlock {
                        start_pc,
                        stack_depth: 0,
                        successors: vec![],
                        nodes: vec![],
                        is_loop_header: self.loops.iter().any(|natural| natural.header == start_pc),
                        inputs: vec![],
                    });
                    blocks.len() - 1
                }
            };
            blocks[position].nodes.push(node as u32);
        }
        OptimizedIr {
            blocks,
            nodes: self.nodes.drain(..).collect(),
            values: self.values.drain(..).collect(),
            max_stack: 4,
            helper_scratch_slots: 6,
            entry_shape: Some(FrameShape { arguments: 3, locals: 0, stack: 0 }),
            inlined_calls: 0,
            frame_inlined_calls: 0,
            feedback_epoch: 900,
            guard_maps: vec![],
            boxes_elided: 0,
            cse_eliminated: 0,
            dead_nodes_eliminated: 0,
            allocated_bytes: 0,
        }
    }
}

struct Finished {
    ir: OptimizedIr,
    facts: KnownFacts,
    loops: LoopAnalysis,
    feedback: Vec<ArrayFeedback>,
    certified: Vec<bool>,
    ranges: BoundsProofs,
}

impl Finished {
    fn of(mut program: Program) -> Finished {
        let ir = program.ir();
        Finished {
            ir,
            loops: program.analysis(),
            facts: KnownFacts { arguments: program.arguments },
            feedback: program.feedback,
            certified: program.certified,
            ranges: BoundsProofs { proved: program.proved },
        }
    }

    fn plan(&self, typed_length_guard: bool, work: usize) -> ArrayPlan {
        ArrayContext {
            ir: &self.ir,
            facts: &self.facts,
            loops: &self.loops,
            feedback: &self.feedback,
            typed_length_guard,
            non_reentrant: &self.certified,
            length_atom: LENGTH,
        }
        .analyze(work, &self.ranges)
    }
}

#[test]
fn typed_stores_publish_leaf_capabilities_but_packed_stores_do_not() {
    for mode in [ArrayMode::Int32, ArrayMode::Float64, ArrayMode::Packed] {
        // a[i]=v;return a[i]
        let mut program = Program::new(3, mode);
        let store = program.store(0, 1);
        let load = program.load(0, 1);
        let finished = Finished::of(program);
        let plan = finished.plan(true, WORK);
        assert_eq!(plan.guarded_leaf(store), mode != ArrayMode::Packed);
        if mode != ArrayMode::Packed {
            assert!(!plan.invalidates_before(store));
            assert!(plan.access(store).unwrap().requires_index_guard);
            assert!(plan.guarded_leaf(load));
        }
    }
}

#[test]
fn nested_counted_loop_uses_one_argument_identity_and_separate_length_access() {
    // let b=a,s=0;for(let j=0;j<n;j++){for(let i=0;i<b.length;i++){s+=b[i]}}return s
    let mut program = Program::new(2, ArrayMode::Packed);
    let index = program.value(None);
    let outer = program.start_block();
    program.poll(true);
    let inner = program.start_block();
    program.poll(true);
    let (_, bound) = program.length(0);
    let body = program.start_block();
    let load = program.load(0, index);
    program.proved.push((index, bound, load));
    program.looping(outer, 0, &[outer, inner, body]);
    program.looping(inner, outer, &[inner, body]);
    let finished = Finished::of(program);
    let plan = finished.plan(false, WORK);
    assert_eq!(
        *plan.candidates(),
        [ArrayCandidate { argument: 0, mode: ArrayMode::Packed, needs_length: true }]
    );
    let accesses: Vec<_> = finished.ir.nodes.iter().filter_map(|node| plan.access(node.id)).collect();
    assert_eq!(accesses.len(), 2);
    assert!(accesses.iter().any(|a| a.access == ArrayAccess::Length && a.index.is_none()));
    assert!(accesses.iter().any(|a| a.access == ArrayAccess::Load && a.index.is_some()));
    assert!(accesses
        .iter()
        .filter(|access| access.access == ArrayAccess::Load)
        .all(|access| access.requires_index_guard ^ access.bounds_covered_by_hoist));
    for node in &finished.ir.nodes {
        if matches!(node.kind, OptimizedNodeKind::GuardNumeric { mid_loop: true, .. }) {
            assert!(plan.invalidates_before(node.id));
        }
    }
}

#[test]
fn unknown_reentry_and_changed_entry_argument_do_not_retain_receiver_identity() {
    // for(let i=0;i<n;i++){f.length;a[i]}return 0, with feedback for the element only
    let mut program = Program::new(3, ArrayMode::Int32);
    let index = program.value(None);
    let header = program.start_block();
    program.poll(true);
    let body = program.start_block();
    program.length(2);
    program.feedback.clear();
    program.load(0, index);
    program.looping(header, 0, &[header, body]);
    assert!(Finished::of(program).plan(false, WORK).candidates().is_empty());

    // for(let i=0;i<n;i++){a=i;a[i]}return 0
    let mut program = Program::new(2, ArrayMode::Int32);
    let index = program.value(None);
    let header = program.start_block();
    program.poll(true);
    let body = program.start_block();
    program.load(index, index);
    program.looping(header, 0, &[header, body]);
    assert!(Finished::of(program).plan(false, WORK).candidates().is_empty());
}

/// let s=0;for(let i=0;i<a.length;i++)s+=a[i];return s
fn counted(mode: ArrayMode) -> Program {
    let mut program = Program::new(1, mode);
    let index = program.value(None);
    let header = program.start_block();
    program.poll(true);
    let (_, bound) = program.length(0);
    let body = program.start_block();
    let load = program.load(0, index);
    program.proved.push((index, bound, load));
    program.looping(header, 0, &[header, body]);
    program
}

#[test]
fn typed_length_requires_lookup_capability_and_budget_exhaustion_is_empty() {
    let finished = Finished::of(counted(ArrayMode::Float64));
    let without = finished.plan(false, WORK);
    assert!(finished
        .ir
        .nodes
        .iter()
        .all(|node| without.access(node.id).is_none_or(|a| a.access != ArrayAccess::Length)));
    let with = finished.plan(true, WORK);
    assert_eq!(with.candidates().len(), 1);
    assert!(with.candidates()[0].needs_length);
    let [hoist] = with.hoists()[..] else {
        panic!("an intrinsic typed-length guard must authorize one loop hoist: {with:#?}");
    };
    assert_ne!(hoist.preheader, hoist.header);
    assert!(finished
        .ir
        .nodes
        .iter()
        .filter_map(|node| with.access(node.id))
        .filter(|access| access.access == ArrayAccess::Load)
        .all(|access| access.bounds_covered_by_hoist && !access.requires_index_guard));
    for work in [0, 1, 16] {
        assert!(finished.plan(true, work).candidates().is_empty());
    }
}

/// let n=a.length,s=0; a part of its own; for(let i=0;i<n;i++) a part of its
/// own and s=(s+a[i])|0; return s. The comparison of the index is proved
/// where `proved` says so.
fn snapshot(before: fn(&mut Program), inside: fn(&mut Program), kept: bool, proved: bool) -> Program {
    let mut program = Program::new(2, ArrayMode::Packed);
    let index = program.value(None);
    let (_, bound) = program.length(0);
    before(&mut program);
    let array = if kept { 0 } else { program.value(None) };
    let header = program.start_block();
    program.poll(true);
    let body = program.start_block();
    inside(&mut program);
    let load = program.load(array, index);
    if proved {
        program.proved.push((index, bound, load));
    }
    program.dominance.push((0, 0));
    program.looping(header, 0, &[header, body]);
    program
}

fn nothing(_program: &mut Program) {}

fn calls(program: &mut Program) {
    program.call();
}

fn truncates(program: &mut Program) {
    program.put_length(0);
}

#[test]
fn packed_counted_loop_records_preheader_and_covers_only_proven_load_bounds() {
    let finished = Finished::of(snapshot(nothing, nothing, true, true));
    let plan = finished.plan(false, WORK);
    let [hoist] = plan.hoists()[..] else {
        panic!("canonical packed traversal must have one legal metadata hoist: {plan:#?}");
    };
    assert_ne!(hoist.preheader, hoist.header);
    let length = plan.access(hoist.length_node).unwrap();
    assert_eq!(length.access, ArrayAccess::Length);
    assert_eq!(length.result, Some(hoist.bound));
    let covered = finished
        .ir
        .nodes
        .iter()
        .filter_map(|node| plan.access(node.id))
        .filter(|access| access.access == ArrayAccess::Load)
        .collect::<Vec<_>>();
    assert_eq!(covered.len(), 1);
    assert!(covered[0].bounds_covered_by_hoist);
    assert!(!covered[0].requires_index_guard);
}

#[test]
fn wrong_range_shape_never_publishes_a_hoist() {
    for (source, program) in [
        ("for(let i=-1;i<n;i++)s+=a[i]", snapshot(nothing, nothing, true, false)),
        ("for(let i=0;i>=n;i++)s+=a[i]", snapshot(nothing, nothing, true, false)),
        ("for(let i=0;i<n;i=(i+1)|0)s+=a[i]", snapshot(nothing, nothing, true, false)),
        ("f();let s=0;for(let i=0;i<n;i++)s+=a[i]", snapshot(calls, nothing, false, false)),
    ] {
        let finished = Finished::of(program);
        let plan = finished.plan(false, WORK);
        assert!(plan.hoists().is_empty(), "{source}");
        assert!(
            finished.ir.nodes.iter().all(|node| {
                plan.access(node.id)
                    .is_none_or(|access| access.access != ArrayAccess::Length || !plan.guarded_leaf(node.id))
            }),
            "an unhoisted observable length became a leaf capability: {source}"
        );
    }
}

#[test]
fn alias_writes_and_unknown_reentry_never_publish_stale_bounds() {
    for (source, program) in [
        ("for(let i=0;i<n;i++){if(i===0)b.length=1;s=(s+(a[i]|0))|0}", snapshot(nothing, truncates, true, true)),
        ("for(let i=0;i<n;i++){if(i===0)f(a);s=(s+(a[i]|0))|0}", snapshot(nothing, calls, true, true)),
        ("a.length=1;let s=0;for(let i=0;i<n;i++)s=(s+(a[i]|0))|0", snapshot(truncates, nothing, true, false)),
        ("f(a);let s=0;for(let i=0;i<n;i++)s=(s+(a[i]|0))|0", snapshot(calls, nothing, false, false)),
    ] {
        let finished = Finished::of(program);
        let plan = finished.plan(false, WORK);
        assert!(
            plan.hoists().is_empty(),
            "effectful loop published stale packed metadata: {source}; {plan:#?}"
        );
        assert!(
            finished
                .ir
                .nodes
                .iter()
                .filter_map(|node| plan.access(node.id))
                .filter(|access| access.access == ArrayAccess::Load)
                .all(|access| access.requires_index_guard && !access.bounds_covered_by_hoist),
            "effectful loop removed a per-access bounds guard: {source}; {plan:#?}"
        );
    }
}

#[test]
fn arrays_of_two_modes_are_not_planned() {
    let mut program = Program::new(2, ArrayMode::Int32);
    program.load(0, 1);
    program.load(0, 1);
    program.feedback[1].only_mode = Some(ArrayMode::Float64);
    assert!(Finished::of(program).plan(true, WORK).is_empty());
}

#[test]
fn too_many_arrays_are_not_planned() {
    for (arrays, planned) in [(16u16, 16usize), (17, 0)] {
        let mut program = Program::new(arrays, ArrayMode::Int32);
        for array in 0..arrays {
            program.load(usize::from(array), 0);
        }
        assert_eq!(Finished::of(program).plan(true, WORK).candidates().len(), planned);
    }
}

fn specialization() -> NumericSpecialization {
    let mut specialization = NumericSpecialization::default();
    specialization.entry = EntryRepresentation::Int32;
    specialization
}

#[test]
fn raw_loops_have_int32_entries_and_no_calls() {
    let looping = Finished::of(counted(ArrayMode::Int32)).ir;
    let mut straight = Program::new(1, ArrayMode::Int32);
    let straight = straight.ir();
    assert!(uses_int32_loop(&specialization(), &looping));
    assert!(!uses_int32_loop(&specialization(), &straight));
    assert!(!uses_int32_loop(&NumericSpecialization::default(), &looping));
    let mut inlined = Finished::of(counted(ArrayMode::Int32)).ir;
    inlined.frame_inlined_calls = 1;
    assert!(!uses_int32_loop(&specialization(), &inlined));
}

#[test]
fn locals_are_deferred_only_where_none_owns_anything() {
    assert!(defer_scalar_locals(true, false, &vec![false, false]));
    assert!(!defer_scalar_locals(true, false, &vec![false, true]));
    assert!(!defer_scalar_locals(true, true, &vec![]));
    assert!(!defer_scalar_locals(false, false, &vec![]));
}

#[test]
fn polls_are_amortized_without_a_side_path() {
    assert!(amortizes_polls(true, true, false));
    assert!(amortizes_polls(false, false, true));
    assert!(!amortizes_polls(false, true, true));
    assert!(!amortizes_polls(false, false, false));
}

#[test]
fn work_grows_with_nodes_and_values_and_saturates() {
    let mut program = Program::new(3, ArrayMode::Int32);
    let ir = program.ir();
    assert_eq!(analysis_work(&ir, PROPERTY_WORK), 4 * 128);
    assert_eq!(analysis_work(&ir, ARRAY_WORK), 4 * 192);
    assert_eq!(analysis_work(&ir, usize::MAX), usize::MAX);
}

#[test]
fn feedback_proposes_the_accesses_that_have_a_guarded_form() {
    for (mode, expected) in [
        (ArrayMode::Int32, [true, true, true]),
        (ArrayMode::Float64, [true, true, true]),
        (ArrayMode::Packed, [false, true, true]),
        (ArrayMode::Generic, [false, true, false]),
    ] {
        let mut program = Program::new(2, mode);
        let store = program.store(0, 1) as usize;
        let load = program.load(0, 1) as usize;
        let (length, _) = program.length(0);
        let finished = Finished::of(program);
        let sites = assumed_array_sites(&finished.ir, &finished.feedback);
        assert_eq!([sites[store], sites[load], sites[length as usize]], expected);
        assert_eq!(sites.iter().filter(|site| **site).count(), expected.iter().filter(|site| **site).count());
    }
}

fn scalar_nodes(ir: &OptimizedIr) -> Vec<ScalarNode> {
    ir.nodes.iter().map(|_| ScalarNode { frame: None, operation: None, checks: vec![] }).collect()
}

#[test]
fn only_guarded_or_plain_nodes_keep_arrays() {
    let mut program = Program::new(2, ArrayMode::Int32);
    let load = program.load(0, 1) as usize;
    let call = program.call() as usize;
    program.propkey();
    let plain = program.bytecode("put_loc", ScalarHeapEffect::FrameWrite, None) as usize;
    let owned = program.bytecode("put_loc", ScalarHeapEffect::FrameWrite, None) as usize;
    program.nodes[plain].frame_definitions.push(FrameSlot::Local(0));
    program.nodes[owned].frame_definitions.push(FrameSlot::Local(1));
    let sum = program.bytecode("add", ScalarHeapEffect::Reentrant, None) as usize;
    let ir = program.ir();
    let mut scalars = scalar_nodes(&ir);
    let owned_locals = vec![false, true];
    let mut guarded = vec![false; ir.nodes.len()];
    let kept = array_non_reentrant(&ir, &scalars, &owned_locals, &guarded);
    assert!(!kept[load] && !kept[call] && kept[call + 1] && kept[plain] && !kept[owned] && !kept[sum]);
    guarded[load] = true;
    scalars[sum].operation = Some(ScalarOperation::Binary { op: ScalarBinaryOp::Add, mode: OperandMode::Int32, lhs: 0, rhs: 1 });
    let kept = array_non_reentrant(&ir, &scalars, &owned_locals, &guarded);
    assert!(kept[load] && !kept[call] && kept[sum]);
}

#[test]
fn guarded_accesses_let_polls_be_amortized() {
    let finished = Finished::of(counted(ArrayMode::Packed));
    let plan = finished.plan(true, WORK);
    let scalars = scalar_nodes(&finished.ir);
    let accesses: Vec<Option<PropertyAccessPlan>> = finished.ir.nodes.iter().map(|_| None).collect();
    let sites = guarded_heap_sites(&finished.ir, &scalars, &plan, &accesses, &NumericSpecialization::default());
    for node in &finished.ir.nodes {
        assert_eq!(sites[node.id as usize], node.heap_operation.is_some());
    }
    let none = guarded_heap_sites(
        &finished.ir,
        &scalars,
        &ArrayPlan::empty(),
        &accesses,
        &NumericSpecialization::default(),
    );
    assert!(none.iter().all(|site| !site));
}

#[test]
fn a_plan_that_loses_a_premise_is_discarded() {
    assert_eq!(refine(&vec![true, false], &vec![false, true]), Refinement::Discard);
    assert_eq!(refine(&vec![true, false], &vec![true, true]), Refinement::Again);
    assert_eq!(refine(&vec![true, false], &vec![true, false]), Refinement::Settled);
    assert_eq!(refine(&vec![true], &vec![]), Refinement::Discard);
}

#[test]
fn refinement_settles_or_gives_up() {
    let mut refinement = PlanRefinement::new(vec![true, false, false], false);
    assert_eq!(refinement.advance(vec![true, true, false]), Verdict::Keep);
    assert!(!refinement.finished);
    assert_eq!(refinement.advance(vec![true, true, true]), Verdict::Keep);
    assert!(!refinement.finished);
    assert_eq!(refinement.advance(vec![true, true, true]), Verdict::Keep);
    assert!(refinement.finished);
    assert_eq!(refinement.rounds, 2);

    let mut lost = PlanRefinement::new(vec![true, false], true);
    assert_eq!(lost.advance(vec![false, true]), Verdict::Drop);
    assert!(lost.finished);
    assert_eq!(lost.guarded, vec![false, false]);

    let mut resumed = PlanRefinement::new(vec![true, false], false);
    assert_eq!(resumed.advance(vec![false, true]), Verdict::Drop);
    assert!(!resumed.finished);
    assert_eq!(resumed.advance(vec![false, true]), Verdict::Keep);
    assert_eq!(resumed.advance(vec![false, false]), Verdict::Drop);
    assert!(resumed.finished);
}

#[test]
fn refinement_is_bounded() {
    let mut refinement = PlanRefinement::new(vec![false; 64], false);
    refinement.advance(vec![false; 64]);
    let mut rounds = 0;
    while !refinement.finished {
        let mut sites = refinement.guarded.clone();
        sites[rounds] = true;
        refinement.advance(sites);
        rounds += 1;
    }
    assert_eq!(rounds, 32);
}

/// A loop with two accesses of one field.
fn field_loop(boundary: PropertyBoundary, aliases: Vec<usize>) -> (OptimizedIr, LoopAnalysis, Vec<Option<PropertyAccessPlan>>, Vec<PropertyBoundary>) {
    let mut program = Program::new(1, ArrayMode::Packed);
    let header = program.start_block();
    program.poll(true);
    program.bytecode("get_field", ScalarHeapEffect::Reentrant, None);
    program.bytecode("get_field", ScalarHeapEffect::Reentrant, None);
    program.bytecode("get_field", ScalarHeapEffect::Reentrant, None);
    program.looping(header, 0, &[header]);
    let ir = program.ir();
    let loops = program.analysis();
    let access = |candidate, aliases| Some(PropertyAccessPlan { candidate, store: false, aliases });
    let accesses = vec![None, None, access(0, vec![]), access(1, aliases), access(0, vec![])];
    let mut boundaries = vec![PropertyBoundary::Keep; 5];
    boundaries[1] = boundary;
    (ir, loops, accesses, boundaries)
}

#[test]
fn a_field_is_forwarded_only_through_nodes_that_keep_it() {
    for (boundary, amortized_poll, aliases, expected) in [
        (PropertyBoundary::Keep, false, vec![], vec![4u32]),
        (PropertyBoundary::FlushInvalidate, true, vec![], vec![4]),
        (PropertyBoundary::FlushInvalidate, false, vec![], vec![]),
        (PropertyBoundary::Flush, false, vec![], vec![4]),
        (PropertyBoundary::Keep, false, vec![0], vec![]),
    ] {
        let (ir, loops, accesses, boundaries) = field_loop(boundary, aliases);
        let plan = FieldPlan { ir: &ir, loops: &loops, accesses: &accesses, boundaries: &boundaries, amortized_poll };
        assert_eq!(plan.forwarded_sites().into_iter().collect::<Vec<_>>(), expected);
    }
}

#[test]
fn arrays_are_planned_until_nothing_is_gained() {
    let finished = Finished::of(counted(ArrayMode::Packed));
    let scalars = scalar_nodes(&finished.ir);
    let mut specialization = NumericSpecialization::default();
    assert!(ArrayPlanning::start(&finished.ir, &specialization, false).refinement.finished);
    specialization.arrays = finished.feedback.clone();
    assert!(ArrayPlanning::start(&finished.ir, &specialization, true).refinement.finished);
    let mut planning = ArrayPlanning::start(&finished.ir, &specialization, false);
    assert_eq!(planning.refinement.guarded, assumed_array_sites(&finished.ir, &specialization.arrays));
    assert!(planning.plan.is_empty());
    let mut rounds = 0;
    while !planning.refinement.finished {
        planning.advance(&ArrayRound {
            ir: &finished.ir,
            specialization: &specialization,
            scalar_nodes: &scalars,
            owned_locals: &vec![],
            loops: &finished.loops,
            facts: &finished.facts,
            ranges: &finished.ranges,
            length_atom: LENGTH,
            work: WORK,
        });
        rounds += 1;
        for node in &finished.ir.nodes {
            assert_eq!(planning.refinement.guarded[node.id as usize], planning.plan.guarded_leaf(node.id));
        }
    }
    assert!(rounds <= 33);
}

#[test]
fn fields_are_planned_until_nothing_is_gained() {
    let (ir, _, accesses, boundaries) = field_loop(PropertyBoundary::Keep, vec![]);
    let specialization = NumericSpecialization::default();
    assert!(FieldPlanning::start(&ir, &specialization, true, &vec![]).refinement.finished);
    let mut planning = FieldPlanning::start(&ir, &specialization, false, &vec![]);
    assert!(planning.plan.is_none() && !planning.refinement.finished);
    let made = FieldTables { candidates: vec![], accesses, boundaries };
    planning.advance(made);
    assert_eq!(planning.refinement.guarded, vec![false, false, true, true, true]);
    assert!(planning.plan.is_some() && !planning.refinement.finished);
    planning.advance(FieldTables::none(&ir));
    assert!(planning.plan.is_none() && planning.refinement.finished);
    assert_eq!(planning.refinement.guarded, vec![false; 5]);
}

#[test]
fn the_last_tables_follow_from_the_analyses() {
    let (ir, loops, accesses, boundaries) = field_loop(PropertyBoundary::FlushInvalidate, vec![]);
    let specialization = NumericSpecialization::default();
    let facts = KnownFacts { arguments: vec![] };
    let owned_locals = vec![false];
    for (side_path, permitted, forwarded) in [(false, true, vec![4u32]), (false, false, vec![]), (true, true, vec![])] {
        let tables = LastAnalyses {
            ir: &ir,
            specialization: &specialization,
            loops: &loops,
            facts: &facts,
            accesses: &accesses,
            boundaries: &boundaries,
            owned_locals: &owned_locals,
            side_path,
            scalar_region: true,
            permitted,
        }
        .tables();
        assert_eq!(tables.shape, lowering_shape(&ir, &specialization, side_path, permitted, &owned_locals));
        assert_eq!(tables.forwarded.into_iter().collect::<Vec<_>>(), forwarded);
        assert!(tables.bounded.is_empty());
        assert!(tables.hoisted.is_empty());
    }
}
