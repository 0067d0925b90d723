use std::collections::BTreeMap;
use std::sync::atomic::AtomicBool;
use std::sync::Arc;
use tier2::control::{CompileControl, CompileFailure};
use tier2::entry_state::opt_cfg_entry_provenance;
use tier2::ir::{
    FrameShape, FrameSlot, OptimizedBlock, OptimizedIr, OptimizedNode, OptimizedNodeKind, ScalarCall, ScalarHeapEffect,
    ScalarValue,
};
use tier2::ownership::{opt_alias_store, opt_invalidate_provenance, opt_reject_owned, owned_local_targets, AliasStore};
use tier2::planning::plan_frame;
use tier2::provenance::OptProvenance::{Argument, ImmediatePrimitive, Local, OwnedSlot, Unknown};
use tier2::provenance::{charge_work, merge_opt_provenance, resolve_opt_phi_provenance, OptProvenance, ProvenanceBudget};
use tier2::specialization::NumericSpecialization;

const MINUTE: u128 = 60_000_000_000;

fn solve(
    values: &mut Vec<Option<OptProvenance>>,
    inputs: &[Option<&[usize]>],
    work: usize,
    control: Option<&CompileControl>,
) -> Result<(), CompileFailure> {
    let rows: Vec<Option<Vec<usize>>> = inputs.iter().map(|row| row.map(|row| row.to_vec())).collect();
    resolve_opt_phi_provenance(values, &rows, &mut ProvenanceBudget { work, control })
}

#[test]
fn phi_unknown_input_poisoning_reaches_the_whole_loop() {
    for known in [Argument(0), ImmediatePrimitive] {
        let mut values = vec![Some(known), Some(Unknown), None, None];
        let inputs: &[Option<&[usize]>] = &[None, None, Some(&[0, 3]), Some(&[2, 1])];
        solve(&mut values, inputs, 128, None).unwrap();
        assert_eq!(values, [Some(known), Some(Unknown), Some(Unknown), Some(Unknown)]);
    }
}

#[test]
fn seedless_phi_component_invalidates_a_seeded_consumer() {
    let mut values = vec![Some(Argument(0)), None, None, None];
    let inputs: &[Option<&[usize]>] = &[None, Some(&[2]), Some(&[1]), Some(&[0, 1])];
    solve(&mut values, inputs, 128, None).unwrap();
    assert_eq!(values, [Some(Argument(0)), Some(Unknown), Some(Unknown), Some(Unknown)]);
}

#[test]
fn seeded_phi_cycle_preserves_only_agreeing_origins() {
    for (second, expected) in [(Argument(0), Argument(0)), (Argument(1), Unknown)] {
        let mut values = vec![Some(Argument(0)), Some(second), None, None];
        let inputs: &[Option<&[usize]>] = &[None, None, Some(&[0, 3]), Some(&[2, 1])];
        solve(&mut values, inputs, 128, None).unwrap();
        assert_eq!(values[2..], [Some(expected), Some(expected)]);
    }
}

#[test]
fn phi_analysis_rejects_partial_results_on_work_exhaustion_or_cancellation() {
    let inputs: &[Option<&[usize]>] = &[None, Some(&[0, 1])];
    let initial = [Some(OptProvenance::Argument(0)), None];
    for work in 0..8 {
        let mut values = initial.to_vec();
        assert_eq!(solve(&mut values, inputs, work, None), Err(CompileFailure::ResourceLimit));
    }
    let cancelled = CompileControl::new(Arc::new(AtomicBool::new(true)), MINUTE);
    let mut values = initial.to_vec();
    assert_eq!(solve(&mut values, inputs, 128, Some(&cancelled)), Err(CompileFailure::Cancelled));
    let expired = CompileControl::new(Arc::new(AtomicBool::new(false)), 0);
    assert_eq!(solve(&mut values, inputs, 128, Some(&expired)), Err(CompileFailure::TimedOut));
}

#[test]
fn phi_analysis_is_charged_for_every_pass() {
    let inputs: &[Option<&[usize]>] = &[None, Some(&[0, 1])];
    for (work, result) in [(9, Err(CompileFailure::ResourceLimit)), (10, Ok(()))] {
        let mut values = vec![Some(Argument(0)), None];
        assert_eq!(solve(&mut values, inputs, work, None), result);
    }
    for (work, result) in [(5, Err(CompileFailure::ResourceLimit)), (6, Ok(()))] {
        let mut values = vec![Some(Argument(0)), Some(Argument(0))];
        assert_eq!(solve(&mut values, inputs, work, None), result);
    }
}

#[test]
fn phi_inputs_outside_the_values_are_rejected() {
    let mut values = vec![Some(OptProvenance::Argument(0)), None];
    assert_eq!(
        solve(&mut values, &[None, Some(&[7])], 128, None),
        Err(CompileFailure::InvalidArtifact)
    );
}

#[test]
fn cfg_merge_preserves_only_identical_borrows_or_uniform_value_classes() {
    assert_eq!(merge_opt_provenance(Argument(2), Argument(2)), Argument(2));
    assert_eq!(merge_opt_provenance(Local(1), Local(1)), Local(1));
    assert_eq!(
        merge_opt_provenance(ImmediatePrimitive, ImmediatePrimitive),
        ImmediatePrimitive
    );
    assert_eq!(merge_opt_provenance(OwnedSlot, OwnedSlot), OwnedSlot);
    assert_eq!(merge_opt_provenance(Argument(2), Argument(3)), Unknown);
    assert_eq!(merge_opt_provenance(Argument(2), Local(2)), Unknown);
    assert_eq!(merge_opt_provenance(OwnedSlot, ImmediatePrimitive), Unknown);
    assert_eq!(merge_opt_provenance(Unknown, OwnedSlot), Unknown);
}

fn node(id: u32, pc: u32, opcode: &str, bytes: Vec<u8>, pops: u16, pushes: u16) -> OptimizedNode {
    OptimizedNode {
        id,
        pc,
        kind: OptimizedNodeKind::Bytecode { opcode: opcode.to_string() },
        bytes,
        pops,
        pushes,
        eliminated: false,
        deopt_guard: None,
        branch_target: None,
        shuffle: None,
        frame_stack: None,
        outputs: vec![],
        frame_definitions: vec![],
        call: None,
        heap_operation: None,
        effect: ScalarHeapEffect::Pure,
    }
}

fn block(start_pc: u32, stack_depth: u16, successors: Vec<u32>, nodes: Vec<u32>, inputs: Vec<(FrameSlot, usize)>) -> OptimizedBlock {
    OptimizedBlock { start_pc, stack_depth, successors, nodes, is_loop_header: false, inputs }
}

fn function(
    blocks: Vec<OptimizedBlock>,
    nodes: Vec<OptimizedNode>,
    values: Vec<ScalarValue>,
    arguments: u16,
    locals: u16,
    max_stack: u16,
) -> OptimizedIr {
    OptimizedIr {
        blocks,
        nodes,
        values,
        max_stack,
        helper_scratch_slots: 4,
        entry_shape: Some(FrameShape { arguments, locals, stack: 0 }),
        inlined_calls: 0,
        frame_inlined_calls: 0,
        feedback_epoch: 1,
        guard_maps: vec![],
        boxes_elided: 0,
        cse_eliminated: 0,
        dead_nodes_eliminated: 0,
        allocated_bytes: 0,
    }
}

fn entries(ir: &OptimizedIr) -> BTreeMap<u32, Vec<OptProvenance>> {
    let slots = usize::from(ir.max_stack) + usize::from(ir.helper_scratch_slots);
    opt_cfg_entry_provenance(ir, &NumericSpecialization::default(), slots, 0, None).unwrap()
}

// (function(a){return a})
fn identity() -> OptimizedIr {
    function(
        vec![block(0, 0, vec![], vec![0, 1], vec![(FrameSlot::Argument(0), 0)])],
        vec![node(0, 0, "get_arg0", vec![0], 0, 1), node(1, 1, "return", vec![0], 1, 0)],
        vec![ScalarValue::Input { block_pc: 0, slot: FrameSlot::Argument(0) }],
        1,
        0,
        1,
    )
}

#[test]
fn cfg_provenance_charges_scratch_in_addition_to_live_analyses() {
    let ir = identity();
    let control = CompileControl::with_ir_limit(Arc::new(AtomicBool::new(false)), MINUTE, 4096);
    let specialization = NumericSpecialization::default();
    assert_eq!(
        opt_cfg_entry_provenance(&ir, &specialization, 16, 4096, Some(&control)),
        Err(CompileFailure::ResourceLimit)
    );
    assert!(opt_cfg_entry_provenance(&ir, &specialization, 16, 0, Some(&control)).is_ok());
}

fn called(node: u32, target: usize) -> ScalarCall {
    ScalarCall { frame_state_node: node, target, frame_inline: false, inline: None }
}

#[test]
fn owned_local_join_does_not_inherit_the_last_layout_blocks_primitive() {
    // (function(f,choose){let value=choose?f():null;return value})
    let mut call = node(3, 4, "call0", vec![0], 1, 1);
    call.call = Some(called(3, 0));
    call.outputs = vec![2];
    let ir = function(
        vec![
            block(0, 0, vec![3, 7], vec![0, 1], vec![(FrameSlot::Argument(0), 0), (FrameSlot::Argument(1), 1)]),
            block(3, 0, vec![8], vec![2, 3, 4], vec![]),
            block(7, 0, vec![8], vec![5], vec![]),
            block(8, 1, vec![], vec![6, 7, 8], vec![(FrameSlot::Stack(0), 4)]),
        ],
        vec![
            node(0, 0, "get_arg1", vec![0], 0, 1),
            node(1, 1, "if_false8", vec![0, 5], 1, 0),
            node(2, 3, "get_arg0", vec![0], 0, 1),
            call,
            node(4, 5, "goto8", vec![0, 2], 0, 0),
            node(5, 7, "null", vec![0], 0, 1),
            node(6, 8, "put_loc0", vec![0], 1, 0),
            node(7, 9, "get_loc0", vec![0], 0, 1),
            node(8, 10, "return", vec![0], 1, 0),
        ],
        vec![
            ScalarValue::Input { block_pc: 0, slot: FrameSlot::Argument(0) },
            ScalarValue::Input { block_pc: 0, slot: FrameSlot::Argument(1) },
            ScalarValue::Call(called(3, 0)),
            ScalarValue::Bool(false),
            ScalarValue::Phi { inputs: vec![2, 3] },
        ],
        2,
        1,
        1,
    );
    let entries = entries(&ir);
    let ownership = owned_local_targets(&ir, &NumericSpecialization::default(), &entries).unwrap();
    assert_eq!(
        ownership,
        [true],
        "an owning incoming value must not be erased by the primitive predecessor's layout order"
    );
}

#[test]
fn owned_local_uses_its_cfg_predecessor_not_the_previous_layout_block() {
    // 0: choose ? block3 : block7
    // 3: call f(), jump to block9 with an owned stack result
    // 7: return null (overwrites the same abstract slot; no edge to block9)
    // 9: move the call result into local0, then return local0.
    let mut call = node(3, 4, "call0", vec![0], 1, 1);
    call.call = Some(called(3, 0));
    call.outputs = vec![2];
    let ir = function(
        vec![
            block(0, 0, vec![3, 7], vec![0, 1], vec![(FrameSlot::Argument(0), 0), (FrameSlot::Argument(1), 1)]),
            block(3, 0, vec![9], vec![2, 3, 4], vec![]),
            block(7, 0, vec![], vec![5, 6], vec![]),
            block(9, 1, vec![], vec![7, 8, 9], vec![(FrameSlot::Stack(0), 3)]),
        ],
        vec![
            node(0, 0, "get_arg1", vec![0], 0, 1),
            node(1, 1, "if_false8", vec![0, 5], 1, 0),
            node(2, 3, "get_arg0", vec![0], 0, 1),
            call,
            node(4, 5, "goto8", vec![0, 3], 0, 0),
            node(5, 7, "null", vec![0], 0, 1),
            node(6, 8, "return", vec![0], 1, 0),
            node(7, 9, "put_loc0", vec![0], 1, 0),
            node(8, 10, "get_loc0", vec![0], 0, 1),
            node(9, 11, "return", vec![0], 1, 0),
        ],
        vec![
            ScalarValue::Input { block_pc: 0, slot: FrameSlot::Argument(0) },
            ScalarValue::Input { block_pc: 0, slot: FrameSlot::Argument(1) },
            ScalarValue::Call(called(3, 0)),
            ScalarValue::Phi { inputs: vec![2] },
        ],
        2,
        1,
        1,
    );
    let entries = entries(&ir);
    assert_eq!(entries[&9], [OptProvenance::OwnedSlot]);
    assert_eq!(
        owned_local_targets(&ir, &NumericSpecialization::default(), &entries).unwrap(),
        [true]
    );
}

#[test]
fn a_block_deeper_than_the_stack_is_refused() {
    let mut ir = identity();
    ir.blocks[0].stack_depth = 3;
    assert_eq!(
        opt_cfg_entry_provenance(&ir, &NumericSpecialization::default(), 2, 0, None),
        Err(CompileFailure::ResourceLimit)
    );
}

#[test]
fn stale_aliases_and_owned_values_are_handled_by_depth() {
    let mut stack = vec![Local(1), Argument(1), Local(1), Local(1)];
    opt_invalidate_provenance(&mut stack, 3, Local(1));
    assert_eq!(stack, [ImmediatePrimitive, Argument(1), ImmediatePrimitive, Local(1)]);
    let owned = vec![Local(0), OwnedSlot];
    assert_eq!(opt_reject_owned(&owned, 0, 1), Ok(()));
    assert_eq!(opt_reject_owned(&owned, 0, 2), Err(CompileFailure::UnsupportedOpcode));
}

#[test]
fn borrowed_values_of_unknown_kind_are_checked_before_they_are_stored() {
    let any = NumericSpecialization::default();
    assert_eq!(opt_alias_store(&any, 2, Argument(0), Local(0)), AliasStore::GuardHeap);
    assert_eq!(opt_alias_store(&any, 2, Argument(0), Argument(0)), AliasStore::Safe);
    assert_eq!(opt_alias_store(&any, 2, ImmediatePrimitive, Local(0)), AliasStore::Safe);
    assert_eq!(opt_alias_store(&any, 2, Unknown, Local(0)), AliasStore::Reject);
}

#[test]
fn doubt_at_a_block_entry_marks_no_fewer_locals() {
    let ir = function(
        vec![block(0, 1, vec![], vec![0, 1], vec![])],
        vec![node(0, 0, "put_loc0", vec![0], 1, 0), node(1, 1, "return_undef", vec![0], 0, 0)],
        vec![],
        0,
        1,
        1,
    );
    let owned = |entries: &[(u32, Vec<OptProvenance>)]| {
        owned_local_targets(&ir, &NumericSpecialization::default(), &entries.iter().cloned().collect())
    };
    assert_eq!(owned(&[(0, vec![ImmediatePrimitive])]), Ok(vec![false]));
    assert_eq!(owned(&[(0, vec![Argument(0)])]), Ok(vec![false]));
    assert_eq!(owned(&[(0, vec![OwnedSlot])]), Ok(vec![true]));
    assert_eq!(owned(&[(0, vec![Unknown])]), Ok(vec![true]));
    assert_eq!(owned(&[(0, vec![])]), Err(CompileFailure::InvalidArtifact));
    assert_eq!(owned(&[(1, vec![OwnedSlot])]), Err(CompileFailure::InvalidArtifact));
}

#[test]
fn the_frame_is_planned_within_the_limits() {
    let ir = identity();
    let specialization = NumericSpecialization::default();
    let frame = plan_frame(&ir, &specialization, 0, None).unwrap();
    assert_eq!(frame.entries, entries(&ir));
    assert!(frame.owned_locals.is_empty());
    let control = CompileControl::with_ir_limit(Arc::new(AtomicBool::new(false)), MINUTE, 4096);
    assert_eq!(plan_frame(&ir, &specialization, 4096, Some(&control)).unwrap_err(), CompileFailure::ResourceLimit);
    assert!(plan_frame(&ir, &specialization, 0, Some(&control)).is_ok());
    let mut unguarded = identity();
    unguarded.entry_shape = None;
    assert_eq!(plan_frame(&unguarded, &specialization, 0, None).unwrap_err(), CompileFailure::InvalidArtifact);
}

#[test]
fn an_interruption_comes_before_the_work() {
    for failure in [CompileFailure::Cancelled, CompileFailure::TimedOut] {
        assert_eq!(charge_work(Err(failure), 10, 4), Err(failure));
        assert_eq!(charge_work(Err(failure), 4, 10), Err(failure));
    }
    assert_eq!(charge_work(Ok(()), 10, 4), Ok(6));
    assert_eq!(charge_work(Ok(()), 10, 10), Ok(0));
    assert_eq!(charge_work(Ok(()), 10, 11), Err(CompileFailure::ResourceLimit));
}
