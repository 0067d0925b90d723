use std::sync::atomic::AtomicBool;
use std::sync::Arc;
use tier2::control::{CompileControl, CompileFailure};
use tier2::counted_loops::provably_bounded_increments;
use tier2::ir::{
    FrameShape, OptimizedBlock, OptimizedIr, OptimizedNode, OptimizedNodeKind, ScalarHeapEffect, ScalarHeapOperation,
    ScalarValue,
};
use tier2::machine_plan::{assumed_property_sites, lowering_shape};
use tier2::planning_budget::{check_planning, live_bytes, AnalysisSizes, PlanningStep};
use tier2::qjs::{JS_TAG_FLOAT64, JS_TAG_INT, JS_TAG_STRING};
use tier2::runtime::{
    ArgumentTypes, ArrayAccess, ArrayFeedback, ArrayMode, BinarySite, BoundedSignature, CallSite, CallSpecializationKey,
    Constant, FeedbackRepresentation, FeedbackSnapshot, FunctionKey, Instruction, ObservedType, PropertySite,
    ShapeObservation, TaggedValue, VerifiedFunction,
};
use tier2::specialization::{EntryRepresentation, NumericSpecialization, ScalarNumericMode};

fn key() -> FunctionKey {
    FunctionKey { id: 5, generation: 1 }
}

fn function(names: &[&str]) -> VerifiedFunction {
    VerifiedFunction {
        key: key(),
        instructions: names
            .iter()
            .enumerate()
            .map(|(pc, name)| Instruction { pc: pc as u32, name: name.to_string(), bytes: vec![0], branch_target: None })
            .collect(),
        arg_count: 2,
        local_count: 1,
        stack_size: 2,
        retained_bytes: 64,
        has_exceptions: false,
        constants: vec![
            Constant { index: 0, tag: JS_TAG_INT, payload: 7 },
            Constant { index: 1, tag: JS_TAG_STRING, payload: 8 },
            Constant { index: 2, tag: JS_TAG_FLOAT64, payload: 9 },
        ],
        has_loop: true,
    }
}

fn no_feedback() -> FeedbackSnapshot {
    FeedbackSnapshot {
        arrays: vec![],
        calls: vec![],
        properties: vec![],
        argument_types: vec![],
        binaries: vec![],
        signatures: vec![],
    }
}

fn binary(pc: u32, operands: ObservedType, result: ObservedType) -> BinarySite {
    BinarySite {
        function: key(),
        pc,
        monomorphic: true,
        lhs: vec![operands],
        rhs: vec![operands],
        result: vec![result],
    }
}

fn signature(arguments: Vec<FeedbackRepresentation>, result: FeedbackRepresentation) -> BoundedSignature {
    BoundedSignature { function: key(), arguments, result }
}

fn observation(value: ObservedType) -> ShapeObservation {
    ShapeObservation {
        shape_identity: 1,
        shape_generation: 2,
        property_offset: 3,
        prototype_identity: 0,
        prototype_generation: 0,
        accessor: false,
        writable: true,
        value,
    }
}

#[test]
fn numbers_are_selected_by_what_was_seen() {
    let body = function(&["add", "lt", "mul", "mod"]);
    let mut feedback = no_feedback();
    feedback.binaries = vec![
        binary(0, ObservedType::Int32, ObservedType::Int32),
        binary(1, ObservedType::Int32, ObservedType::Bool),
        binary(2, ObservedType::Float64, ObservedType::Float64),
        binary(3, ObservedType::Int32, ObservedType::Int32),
    ];
    let specialization = NumericSpecialization::from_feedback(&body, key(), &feedback);
    assert_eq!(specialization.key, Some(key()));
    assert_eq!(specialization.entry, EntryRepresentation::Any);
    assert_eq!(specialization.int_pcs.iter().copied().collect::<Vec<_>>(), vec![0, 1]);
    assert!(specialization.float_pcs.is_empty());
    assert_eq!(specialization.numeric_constants.get(&0), Some(&TaggedValue { payload: 7, tag: i64::from(JS_TAG_INT) }));
    assert_eq!(specialization.numeric_constants.get(&1), None);
    assert_eq!(
        specialization.numeric_constants.get(&2),
        Some(&TaggedValue { payload: 9, tag: i64::from(JS_TAG_FLOAT64) })
    );
    feedback.signatures.push(signature(
        vec![FeedbackRepresentation::Float64, FeedbackRepresentation::Float64],
        FeedbackRepresentation::Float64,
    ));
    let specialization = NumericSpecialization::from_feedback(&body, key(), &feedback);
    assert_eq!(specialization.entry, EntryRepresentation::Float64);
    assert_eq!(specialization.arguments, vec![EntryRepresentation::Float64; 2]);
    assert_eq!(specialization.float_pcs.iter().copied().collect::<Vec<_>>(), vec![2]);
}

#[test]
fn arguments_follow_the_signature_or_what_was_seen() {
    let body = function(&["return_undef"]);
    let mut feedback = no_feedback();
    feedback
        .argument_types
        .push(ArgumentTypes { function: key(), types: vec![ObservedType::Object, ObservedType::Null] });
    let seen = NumericSpecialization::from_feedback(&body, key(), &feedback);
    assert_eq!(seen.arguments, vec![EntryRepresentation::HeapRef, EntryRepresentation::Any]);
    feedback.signatures.push(signature(
        vec![FeedbackRepresentation::Int32, FeedbackRepresentation::Bool],
        FeedbackRepresentation::Int32,
    ));
    let signed = NumericSpecialization::from_feedback(&body, key(), &feedback);
    assert_eq!(signed.arguments, vec![EntryRepresentation::Int32, EntryRepresentation::Bool]);
    assert_eq!(signed.entry, EntryRepresentation::Any);
    feedback.signatures[0].result = FeedbackRepresentation::Bool;
    let other = NumericSpecialization::from_feedback(&body, key(), &feedback);
    assert!(other.arguments.is_empty());
    feedback.signatures[0].arguments.pop();
    let misfit = NumericSpecialization::from_feedback(&body, key(), &feedback);
    assert_eq!(misfit.arguments, vec![EntryRepresentation::HeapRef, EntryRepresentation::Any]);
}

#[test]
fn calls_and_properties_need_stable_sites() {
    let body = function(&["call1", "get_field", "put_field", "call2"]);
    let mut feedback = no_feedback();
    feedback.calls.push(CallSite {
        function: key(),
        pc: 0,
        call: CallSpecializationKey {
            callee: FunctionKey { id: 9, generation: 1 },
            object_identity: 2,
            bytecode_identity: 3,
            arguments: vec![],
            result: FeedbackRepresentation::Int32,
        },
    });
    for pc in [1, 2] {
        feedback.properties.push(PropertySite {
            pc,
            megamorphic: false,
            observations: vec![observation(ObservedType::Object)],
        });
    }
    let specialization = NumericSpecialization::from_feedback(&body, key(), &feedback);
    assert_eq!(specialization.calls.keys().copied().collect::<Vec<_>>(), vec![0]);
    assert_eq!(specialization.properties.keys().copied().collect::<Vec<_>>(), vec![1]);
    feedback.properties[0].megamorphic = true;
    assert!(NumericSpecialization::from_feedback(&body, key(), &feedback).properties.is_empty());
    feedback.properties[0].megamorphic = false;
    feedback.properties[0].observations[0].accessor = true;
    assert!(NumericSpecialization::from_feedback(&body, key(), &feedback).properties.is_empty());
}

#[test]
fn modes_follow_sites_lengths_and_loop_counters() {
    let body = function(&["add", "get_length", "inc", "mul"]);
    let mut specialization = NumericSpecialization::default();
    specialization.int_pcs.insert(0);
    specialization.float_pcs.insert(3);
    let modes = specialization.numeric_modes(&body);
    assert_eq!(modes.get(&0), Some(&ScalarNumericMode::Int32));
    assert_eq!(modes.get(&1), None);
    assert_eq!(modes.get(&2), None);
    assert_eq!(modes.get(&3), Some(&ScalarNumericMode::Float64));
    specialization.arrays.push(ArrayFeedback {
        function: key(),
        pc: 1,
        access: ArrayAccess::Length,
        only_mode: Some(ArrayMode::Packed),
        can_specialize: true,
    });
    let modes = specialization.numeric_modes(&body);
    assert_eq!(modes.get(&1), Some(&ScalarNumericMode::Int32));
    assert_eq!(modes.get(&2), Some(&ScalarNumericMode::Int32));
}

fn node(id: u32, opcode: &str) -> OptimizedNode {
    OptimizedNode {
        id,
        pc: id,
        kind: OptimizedNodeKind::Bytecode { opcode: opcode.to_owned() },
        bytes: vec![0],
        pops: 0,
        pushes: 0,
        eliminated: false,
        deopt_guard: None,
        branch_target: None,
        shuffle: None,
        frame_stack: None,
        outputs: vec![],
        frame_definitions: vec![],
        call: None,
        heap_operation: None,
        effect: ScalarHeapEffect::Pure,
    }
}

/// The blocks of a function, as the opcodes and the successors of each.
fn graph(blocks: &[(&[&str], &[u32])]) -> OptimizedIr {
    let mut ir = OptimizedIr {
        blocks: vec![],
        nodes: vec![],
        values: vec![],
        max_stack: 3,
        helper_scratch_slots: 6,
        entry_shape: Some(FrameShape { arguments: 1, locals: 1, stack: 0 }),
        inlined_calls: 0,
        frame_inlined_calls: 0,
        feedback_epoch: 1,
        guard_maps: vec![],
        boxes_elided: 0,
        cse_eliminated: 0,
        dead_nodes_eliminated: 0,
        allocated_bytes: 1000,
    };
    for (opcodes, successors) in blocks {
        let start = ir.nodes.len() as u32;
        for opcode in *opcodes {
            ir.nodes.push(node(ir.nodes.len() as u32, opcode));
        }
        ir.blocks.push(OptimizedBlock {
            start_pc: start,
            stack_depth: 0,
            successors: successors.to_vec(),
            nodes: (start..ir.nodes.len() as u32).collect(),
            is_loop_header: false,
            inputs: vec![],
        });
    }
    ir
}

fn counting_loop(body: &[&str]) -> OptimizedIr {
    let mut ir = graph(&[
        (&["push_0", "put_loc0"], &[2]),
        (&["get_loc0", "get_arg0", "lt", "if_false8"], &[6, 20]),
        (body, &[2]),
    ]);
    ir.blocks[1].is_loop_header = true;
    ir.nodes[5].branch_target = Some(20);
    ir
}

#[test]
fn only_the_sole_increment_of_a_checked_counter_is_bounded() {
    let bounded = |body: &[&str]| provably_bounded_increments(&counting_loop(body)).into_iter().collect::<Vec<_>>();
    assert_eq!(bounded(&["get_loc0", "inc", "put_loc0", "goto8"]), vec![7]);
    assert_eq!(bounded(&["get_loc0", "post_inc", "put_loc0", "goto8"]), vec![7]);
    assert!(bounded(&["get_loc0", "dec", "put_loc0", "goto8"]).is_empty());
    assert!(bounded(&["get_loc0", "inc", "put_loc0", "push_0", "put_loc0", "goto8"]).is_empty());
    for name in ["inc_loc", "dec_loc", "add_loc"] {
        let mut written = counting_loop(&["get_loc0", "inc", "put_loc0", name, "goto8"]);
        written.nodes[9].bytes = vec![0, 0];
        assert!(provably_bounded_increments(&written).is_empty());
        written.nodes[9].bytes = vec![0, 1];
        assert_eq!(provably_bounded_increments(&written).into_iter().collect::<Vec<_>>(), vec![7]);
    }
    let mut inside = counting_loop(&["get_loc0", "inc", "put_loc0", "goto8"]);
    inside.nodes[5].branch_target = Some(6);
    assert!(provably_bounded_increments(&inside).is_empty());
    let mut straight = counting_loop(&["get_loc0", "inc", "put_loc0", "goto8"]);
    straight.blocks[1].is_loop_header = false;
    assert!(provably_bounded_increments(&straight).is_empty());
}

#[test]
fn the_shape_of_the_lowering_is_settled_first() {
    let ir = counting_loop(&["get_loc0", "inc", "put_loc0", "goto8"]);
    let mut specialization = NumericSpecialization::default();
    let shape = lowering_shape(&ir, &specialization, false, true, &vec![false]);
    assert!(!shape.int32_loop && shape.amortized_poll && shape.defer_locals);
    assert_eq!(shape.stack_slots, 9);
    specialization.entry = EntryRepresentation::Int32;
    let shape = lowering_shape(&ir, &specialization, true, false, &vec![false]);
    assert!(shape.int32_loop && shape.amortized_poll && !shape.defer_locals);
}

#[test]
fn fields_are_proposed_where_one_shape_was_seen() {
    let mut ir = graph(&[(&["get_field", "put_field", "get_field", "get_length"], &[])]);
    ir.values.push(ScalarValue::Opaque);
    ir.nodes[0].heap_operation = Some(ScalarHeapOperation::GetProperty { base: 0, atom: 1, result: 0 });
    ir.nodes[1].heap_operation = Some(ScalarHeapOperation::PutProperty { base: 0, atom: 1 });
    ir.nodes[2].heap_operation = Some(ScalarHeapOperation::GetProperty { base: 0, atom: 1, result: 0 });
    let mut specialization = NumericSpecialization::default();
    specialization.properties.insert(0, vec![observation(ObservedType::Int32)]);
    specialization.properties.insert(1, vec![observation(ObservedType::Int32)]);
    specialization.properties.insert(2, vec![observation(ObservedType::Int32), observation(ObservedType::Null)]);
    specialization.properties.insert(3, vec![observation(ObservedType::Int32)]);
    assert_eq!(assumed_property_sites(&ir, &specialization, &vec![true; 4]), vec![true, true, false, false]);
    assert_eq!(
        assumed_property_sites(&ir, &specialization, &vec![false, true, true, true]),
        vec![false, true, false, false]
    );
}

#[test]
fn planning_is_charged_for_everything_that_is_live() {
    let mut ir = graph(&[(&["get_arg0", "return"], &[])]);
    ir.values.push(ScalarValue::Opaque);
    let sizes = AnalysisSizes {
        modes: 1,
        fields: 10,
        facts_per_value: 100,
        ranges: 2000,
        loops: 30000,
        call_loops: 0,
        call_bytes_per_value: 0,
    };
    assert_eq!(live_bytes(&ir, 3, &sizes, PlanningStep::CallTargets), 1001);
    assert_eq!(live_bytes(&ir, 3, &sizes, PlanningStep::Fields), 1110);
    let arrays = 2 * 160 + 1024;
    assert_eq!(live_bytes(&ir, 3, &sizes, PlanningStep::Arrays), 33100 + arrays);
    assert_eq!(live_bytes(&ir, 3, &sizes, PlanningStep::Aliases), 33211 + 3 + 256 + arrays);
    let huge = AnalysisSizes { facts_per_value: usize::MAX, ..sizes };
    assert_eq!(live_bytes(&ir, 3, &huge, PlanningStep::Fields), usize::MAX);
    let control = CompileControl::with_ir_limit(Arc::new(AtomicBool::new(false)), u128::MAX, 1109);
    assert_eq!(check_planning(&control, &ir, 3, &sizes, PlanningStep::CallTargets), Ok(()));
    assert_eq!(
        check_planning(&control, &ir, 3, &sizes, PlanningStep::Fields),
        Err(CompileFailure::ResourceLimit)
    );
}

#[test]
fn graphs_are_numbered_by_position() {
    let mut ir = counting_loop(&["get_loc0", "inc", "put_loc0", "goto8"]);
    assert!(ir.is_wf());
    ir.nodes[3].outputs = vec![0];
    assert!(!ir.is_wf());
    ir.values.push(ScalarValue::Opaque);
    assert!(ir.is_wf());
    ir.nodes[3].id = 4;
    assert!(!ir.is_wf());
}
