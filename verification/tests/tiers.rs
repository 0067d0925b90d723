use std::sync::atomic::{AtomicBool, Ordering};
use std::sync::Arc;
use tier2::config::{
    AbiMismatch, CallbackId, JitConfig, JitDiagnosticKind, JitError, DEFAULT_CALL_THRESHOLD, DEFAULT_COMPILE_TIMEOUT_MS,
    DEFAULT_LOOP_THRESHOLD, DEFAULT_MAX_CODE_BYTES, DEFAULT_MAX_COMPILE_ATTEMPTS, DEFAULT_MAX_IR_BYTES,
    DEFAULT_MAX_METADATA_BYTES, DEFAULT_MAX_QUEUE_LEN, DEFAULT_MAX_SNAPSHOT_BYTES, DEFAULT_WORKERS,
};
use tier2::control::{interruption, CompileControl, CompileFailure};
use tier2::diagnostics::{DeoptMap, Tier2DiagnosticScope, Tier2Diagnostics};
use tier2::ir::{FrameShape, GuardSite, OptimizedIr};
use tier2::numeric::{
    fold, FoldOutcome, NumericBinaryOp, NumericConstant, OptimizedCompileError, OptimizedCompiler, OptimizedInput,
};
use tier2::runtime::{
    BoundedSignature, CallSite, CallSpecializationKey, FeedbackRepresentation, FeedbackSnapshot, FunctionKey, Instruction,
    ObservedType, SidePathProfile, VerifiedFunction,
};
use tier2::specialization::NumericSpecialization;
use tier2::stages::Tier2CompileStage;
use tier2::tier2::{
    admits, artifact_dependencies, compile_epoch, frame_inline_dependencies, ir_budget_bytes, link_direct_calls,
    metadata_from_ir, retain_inline_callees, validate_side_path_profile, Compilation, CompileAction, CompileOutcome,
    CompileRequest, DirectCallTarget, FrameInlineTarget, Tier,
};

#[test]
fn defaults_are_what_they_are_documented_to_be() {
    let config = JitConfig::builder().build().unwrap();
    assert_eq!(config, JitConfig::default());
    assert_eq!(config.call_threshold(), DEFAULT_CALL_THRESHOLD);
    assert_eq!(config.loop_threshold(), DEFAULT_LOOP_THRESHOLD);
    assert_eq!(config.max_code_bytes(), DEFAULT_MAX_CODE_BYTES);
    assert_eq!(config.max_metadata_bytes(), DEFAULT_MAX_METADATA_BYTES);
    assert_eq!(config.max_snapshot_bytes(), DEFAULT_MAX_SNAPSHOT_BYTES);
    assert_eq!(config.max_ir_bytes(), DEFAULT_MAX_IR_BYTES);
    assert_eq!(config.compile_timeout_ms(), DEFAULT_COMPILE_TIMEOUT_MS);
    assert_eq!(config.max_queue_len(), DEFAULT_MAX_QUEUE_LEN);
    assert_eq!(config.workers(), DEFAULT_WORKERS);
    assert_eq!(config.max_compile_attempts(), DEFAULT_MAX_COMPILE_ATTEMPTS);
    assert!(!config.stress_gc());
    assert_eq!(DEFAULT_CALL_THRESHOLD, 32);
    assert_eq!(DEFAULT_LOOP_THRESHOLD, 56);
    assert_eq!(DEFAULT_MAX_CODE_BYTES, 16_777_216);
    assert_eq!(DEFAULT_MAX_IR_BYTES, 67_108_864);
}

#[test]
fn settings_arrive_and_zero_limits_are_named() {
    let config = JitConfig::builder()
        .call_threshold(1)
        .loop_threshold(2)
        .max_code_bytes(3)
        .max_metadata_bytes(4)
        .max_snapshot_bytes(5)
        .max_ir_bytes(6)
        .compile_timeout_ms(7)
        .max_queue_len(8)
        .workers(9)
        .max_compile_attempts(10)
        .stress_gc(true)
        .build()
        .unwrap();
    assert_eq!((config.call_threshold(), config.loop_threshold(), config.max_code_bytes()), (1, 2, 3));
    assert_eq!((config.max_metadata_bytes(), config.max_snapshot_bytes(), config.max_ir_bytes()), (4, 5, 6));
    assert_eq!((config.compile_timeout_ms(), config.max_queue_len(), config.workers()), (7, 8, 9));
    assert_eq!((config.max_compile_attempts(), config.stress_gc()), (10, true));
    assert_ne!(config, JitConfig::default());
    let copy = config.clone();
    assert_eq!(copy, config);
    let start = JitConfig::builder;
    for (builder, name) in [
        (start().call_threshold(0), "call_threshold"),
        (start().loop_threshold(0), "loop_threshold"),
        (start().max_code_bytes(0), "max_code_bytes"),
        (start().max_metadata_bytes(0), "max_metadata_bytes"),
        (start().max_snapshot_bytes(0), "max_snapshot_bytes"),
        (start().max_ir_bytes(0), "max_ir_bytes"),
        (start().compile_timeout_ms(0), "compile_timeout_ms"),
        (start().max_queue_len(0), "max_queue_len"),
        (start().workers(0), "workers"),
        (start().max_compile_attempts(0), "max_compile_attempts"),
        (start().max_compile_attempts(0).workers(0), "workers"),
    ] {
        assert_eq!(builder.build(), Err(JitError::InvalidConfig(name)));
    }
}

#[test]
fn reports_go_to_the_registered_callback() {
    let kind = JitDiagnosticKind::AbiMismatch(AbiMismatch { expected: 3, found: 4 });
    assert_eq!(JitConfig::default().report(kind), None);
    assert_eq!(JitConfig::default().observe(), None);
    let config = JitConfig::builder()
        .diagnostic_callback(CallbackId { id: 7 })
        .metrics_observer(CallbackId { id: 8 })
        .build()
        .unwrap();
    let report = config.report(kind).unwrap();
    assert_eq!(report.callback, CallbackId { id: 7 });
    assert_eq!(*report.diagnostic.kind(), kind);
    assert_eq!(config.observe(), Some(CallbackId { id: 8 }));
}

#[test]
fn controls_report_interruptions_and_limits() {
    assert_eq!(interruption(true, 5, 5), Err(CompileFailure::Cancelled));
    assert_eq!(interruption(false, 5, 5), Err(CompileFailure::TimedOut));
    assert_eq!(interruption(false, 4, 5), Ok(()));
    let flag = Arc::new(AtomicBool::new(false));
    let control = CompileControl::with_ir_limit(flag.clone(), u128::MAX, 100);
    assert_eq!(control.check(), Ok(()));
    assert_eq!(control.check_ir_bytes(100), Ok(()));
    assert_eq!(control.check_ir_bytes(101), Err(CompileFailure::ResourceLimit));
    flag.store(true, Ordering::Release);
    assert_eq!(control.check(), Err(CompileFailure::Cancelled));
    let expired = CompileControl::new(Arc::new(AtomicBool::new(false)), 0);
    assert_eq!(expired.check(), Err(CompileFailure::TimedOut));
    assert_eq!(expired.check_ir_bytes(usize::MAX), Ok(()));
}

#[test]
fn integers_fold_exactly_and_multiplication_keeps_negative_zero() {
    let int32 = NumericConstant::Int32;
    assert_eq!(fold(NumericBinaryOp::Add, int32(2), int32(3)), FoldOutcome::Constant(int32(5)));
    assert_eq!(fold(NumericBinaryOp::Sub, int32(2), int32(3)), FoldOutcome::Constant(int32(-1)));
    assert_eq!(fold(NumericBinaryOp::Mul, int32(-4), int32(3)), FoldOutcome::Constant(int32(-12)));
    assert_eq!(fold(NumericBinaryOp::Add, int32(i32::MAX), int32(1)), FoldOutcome::Double);
    assert_eq!(fold(NumericBinaryOp::Div, int32(4), int32(2)), FoldOutcome::Double);
    assert_eq!(fold(NumericBinaryOp::Add, NumericConstant::Float64(0), int32(2)), FoldOutcome::Double);
    match fold(NumericBinaryOp::Mul, int32(0), int32(-5)) {
        FoldOutcome::Constant(value) => {
            assert!(value.is_negative_zero());
            assert_eq!(value, NumericConstant::Float64((-0.0f64).to_bits()));
        }
        other => panic!("{other:?}"),
    }
    assert!(!int32(0).is_negative_zero());
}

#[test]
fn straight_line_code_is_folded_and_shared() {
    let inputs = [
        OptimizedInput::constant_i32(2),
        OptimizedInput::constant_i32(3),
        OptimizedInput::binary(NumericBinaryOp::Add, 0, 1),
        OptimizedInput::binary(NumericBinaryOp::Add, 0, 1),
        OptimizedInput::binary(NumericBinaryOp::Div, 3, 1),
        OptimizedInput::constant_f64(9.0f64.to_bits()),
        OptimizedInput::ret(4),
    ];
    let mut doubles = [0; 7];
    doubles[4] = (5.0f64 / 3.0).to_bits();
    let function = OptimizedCompiler::default().compile(&inputs, &doubles).unwrap();
    assert_eq!(function.constant(2), Some(NumericConstant::Int32(5)));
    assert_eq!(function.constant(4), Some(NumericConstant::Float64((5.0f64 / 3.0).to_bits())));
    assert_eq!(function.constant(6), None);
    assert_eq!(function.representative(3), Some(2));
    assert_eq!(function.representative(9), None);
    assert_eq!(function.operands(4), Some((2, 1)));
    assert_eq!(function.operands(0), None);
    assert_eq!(function.return_value(), 4);
    assert_eq!(function.boxes_elided(), 3);
    assert_eq!(function.cse_eliminated(), 1);
    assert_eq!(function.dead_nodes_eliminated(), 2);
}

#[test]
fn equal_sums_are_shared_and_swapped_ones_are_not() {
    let inputs = [
        OptimizedInput::constant_i32(2),
        OptimizedInput::constant_i32(3),
        OptimizedInput::binary(NumericBinaryOp::Add, 0, 1),
        OptimizedInput::binary(NumericBinaryOp::Add, 0, 1),
        OptimizedInput::binary(NumericBinaryOp::Add, 1, 0),
        OptimizedInput::ret(3),
    ];
    let function = OptimizedCompiler::default().compile(&inputs, &[0; 6]).unwrap();
    assert_eq!(function.return_value(), 2);
    assert_eq!(function.representative(3), Some(2));
    assert_eq!(function.representative(4), Some(4));
    assert_eq!(function.constant(3), function.constant(2));
    assert_eq!(function.boxes_elided(), 3);
    assert_eq!(function.cse_eliminated(), 1);
    assert_eq!(function.dead_nodes_eliminated(), 2);
}

#[test]
fn malformed_straight_line_code_is_refused() {
    let mut compiler = OptimizedCompiler::default();
    let constant = OptimizedInput::constant_i32(1);
    assert_eq!(compiler.compile(&[constant], &[0]).unwrap_err(), OptimizedCompileError::MissingReturn);
    assert_eq!(
        compiler.compile(&[OptimizedInput::ret(0)], &[0]).unwrap_err(),
        OptimizedCompileError::InvalidValue
    );
    let ahead = OptimizedInput::binary(NumericBinaryOp::Add, 0, 1);
    assert_eq!(compiler.compile(&[constant, ahead], &[0, 0]).unwrap_err(), OptimizedCompileError::InvalidValue);
}

fn key() -> FunctionKey {
    FunctionKey { id: 5, generation: 1 }
}

fn callee(id: u64) -> FunctionKey {
    FunctionKey { id, generation: 1 }
}

fn call_to(id: u64) -> CallSpecializationKey {
    CallSpecializationKey {
        callee: callee(id),
        object_identity: id,
        bytecode_identity: id + 100,
        arguments: vec![FeedbackRepresentation::Int32],
        result: FeedbackRepresentation::Int32,
    }
}

fn instruction(pc: u32, name: &str) -> Instruction {
    Instruction { pc, name: name.to_string(), bytes: vec![0], branch_target: None }
}

fn request() -> CompileRequest {
    CompileRequest {
        key: key(),
        runtime_id: 1,
        tier: Tier::Optimizing,
        feedback_epoch: 3,
        snapshot: VerifiedFunction {
            key: key(),
            instructions: vec![instruction(0, "get_arg0"), instruction(1, "call1"), instruction(4, "return")],
            arg_count: 1,
            local_count: 0,
            stack_size: 2,
            retained_bytes: 64,
            has_exceptions: false,
            constants: vec![],
            has_loop: false,
        },
        feedback: FeedbackSnapshot {
            arrays: vec![],
            calls: vec![],
            properties: vec![],
            argument_types: vec![],
            binaries: vec![],
            signatures: vec![],
        },
        has_stable_value: false,
        side_path_profile: None,
        side_path_observed: false,
        direct_call_targets: vec![],
        frame_inline_targets: vec![],
    }
}

#[test]
fn requests_need_grounds() {
    assert!(!admits(&request()));
    let mut valued = request();
    valued.has_stable_value = true;
    assert!(admits(&valued));
    valued.tier = Tier::Baseline;
    assert!(!admits(&valued));
    let mut called = request();
    called.feedback.calls.push(CallSite { function: key(), pc: 1, call: call_to(9) });
    assert!(admits(&called));
    called.snapshot.instructions.push(instruction(7, "tail_call"));
    assert!(!admits(&called));
    assert_eq!(compile_epoch(3, 2), 3);
    assert_eq!(compile_epoch(3, 4), 4);
}

#[test]
fn side_paths_are_for_this_function_and_feedback() {
    let mut observed = request();
    observed.side_path_observed = true;
    let profile =
        SidePathProfile { function: key(), feedback_epoch: 3, pc: 1, guard: 0, observed: ObservedType::Int32 };
    assert_eq!(validate_side_path_profile(&observed, profile), Ok(()));
    for wrong in [
        SidePathProfile { function: callee(9), ..profile },
        SidePathProfile { feedback_epoch: 2, ..profile },
        SidePathProfile { observed: ObservedType::Object, ..profile },
    ] {
        assert_eq!(validate_side_path_profile(&observed, wrong), Err(CompileFailure::InvalidArtifact));
    }
    assert_eq!(validate_side_path_profile(&request(), profile), Err(CompileFailure::InvalidArtifact));
}

#[test]
fn callees_are_retained_with_all_their_parents() {
    let target = |id, parent, verified| FrameInlineTarget { pc: 1, callee: callee(id), parent, verified };
    let mut inlining = request();
    inlining.frame_inline_targets =
        vec![target(30, None, true), target(20, Some(0), true), target(10, None, false), target(11, Some(2), true)];
    let kept = retain_inline_callees(&inlining);
    assert_eq!(kept, vec![true, true, false, false]);
    assert_eq!(frame_inline_dependencies(&inlining.frame_inline_targets, &kept), vec![callee(20), callee(30)]);
    inlining.side_path_profile =
        Some(SidePathProfile { function: key(), feedback_epoch: 3, pc: 1, guard: 0, observed: ObservedType::Int32 });
    assert_eq!(retain_inline_callees(&inlining), vec![false; 4]);
}

fn ir(inlined_calls: u64, frame_inlined_calls: u64) -> OptimizedIr {
    OptimizedIr {
        blocks: vec![],
        nodes: vec![],
        values: vec![],
        max_stack: 1,
        helper_scratch_slots: 0,
        entry_shape: None,
        inlined_calls,
        frame_inlined_calls,
        feedback_epoch: 3,
        guard_maps: vec![GuardSite {
            shape: FrameShape { arguments: 1, locals: 0, stack: 0 },
            map: DeoptMap { guard: 0, resume_pc: 1 },
        }],
        boxes_elided: 4,
        cse_eliminated: 5,
        dead_nodes_eliminated: 6,
        allocated_bytes: 1000,
    }
}

#[test]
fn metadata_and_dependencies_follow_the_graph() {
    let metadata = metadata_from_ir(&ir(u64::MAX, 2));
    assert_eq!(metadata.inlined_calls, u64::MAX);
    assert_eq!((metadata.boxes_elided, metadata.cse_eliminated, metadata.dead_nodes_eliminated), (4, 5, 6));
    assert_eq!(metadata.deopt_sites.len(), 1);
    assert_eq!(ir_budget_bytes(&ir(0, 0), &metadata, 40), 1040);
    assert_eq!(ir_budget_bytes(&ir(0, 0), &metadata, usize::MAX), usize::MAX);
    let request = request();
    let mut specialization = NumericSpecialization::default();
    specialization.calls.insert(1, call_to(9));
    let inlined = vec![callee(20)];
    assert_eq!(
        artifact_dependencies(key(), &request.snapshot, &specialization, &inlined, &ir(0, 1)),
        vec![key(), callee(9), callee(20)]
    );
    assert_eq!(
        artifact_dependencies(key(), &request.snapshot, &specialization, &inlined, &ir(0, 0)),
        vec![key(), callee(9)]
    );
}

#[test]
fn direct_calls_are_linked_in_order() {
    let mut linked = request();
    linked.direct_call_targets =
        vec![DirectCallTarget { pc: 1, call: call_to(9), entry: 0x1000, publication: 77 }];
    let calls = link_direct_calls(&linked);
    assert_eq!(calls.len(), 1);
    assert_eq!((calls[0].pc, calls[0].publication, calls[0].site.entry), (1, 77, 0x1000));
    linked.direct_call_targets[0].pc = 2;
    assert!(link_direct_calls(&linked).is_empty());
}

fn started(controlled: bool) -> Compilation {
    let mut admitted = request();
    admitted.has_stable_value = true;
    admitted.feedback.signatures.push(BoundedSignature {
        function: key(),
        arguments: vec![FeedbackRepresentation::Int32],
        result: FeedbackRepresentation::Int32,
    });
    Compilation::start(&admitted, &vec![true], controlled).0
}

#[test]
fn a_compilation_goes_from_admission_to_publication() {
    let mut compilation = started(true);
    let mut actions = vec![];
    let mut stages = vec![];
    loop {
        let action = compilation.action();
        actions.push(action);
        let outcome = match action {
            CompileAction::Publish { .. } | CompileAction::Abort(_) => break,
            CompileAction::Translate { .. } => CompileOutcome::Translated { inlined: false, frame_inlined: false },
            _ => CompileOutcome::Done,
        };
        stages.extend(compilation.advance(outcome).iter().map(|note| note.stage));
    }
    assert_eq!(
        actions,
        vec![
            CompileAction::CheckControl,
            CompileAction::Translate { inline: true, frame_inline: true },
            CompileAction::CheckBudget,
            CompileAction::Lower,
            CompileAction::LowerDirect,
            CompileAction::CheckControl,
            CompileAction::Publish { direct: true },
        ]
    );
    assert_eq!(stages.first(), Some(&Tier2CompileStage::Admission));
    assert_eq!(stages.last(), Some(&Tier2CompileStage::Complete));
}

#[test]
fn inlining_is_given_up_before_the_function() {
    let mut compilation = started(false);
    compilation.advance(CompileOutcome::Refused(CompileFailure::InvalidArtifact));
    assert_eq!(compilation.action(), CompileAction::Translate { inline: true, frame_inline: false });
    compilation.advance(CompileOutcome::Translated { inlined: false, frame_inlined: true });
    assert_eq!(compilation.action(), CompileAction::Lower);
    compilation.advance(CompileOutcome::Refused(CompileFailure::InvalidArtifact));
    assert_eq!(compilation.action(), CompileAction::Translate { inline: false, frame_inline: false });
    compilation.advance(CompileOutcome::Translated { inlined: false, frame_inlined: false });
    compilation.advance(CompileOutcome::Done);
    assert_eq!(compilation.action(), CompileAction::LowerDirect);
    compilation.advance(CompileOutcome::Refused(CompileFailure::InvalidArtifact));
    assert_eq!(compilation.action(), CompileAction::Publish { direct: false });
}

#[test]
fn interruptions_and_unadmitted_requests_end_a_compilation() {
    for failure in [CompileFailure::Cancelled, CompileFailure::TimedOut, CompileFailure::Backend] {
        let mut compilation = started(true);
        let notes = compilation.advance(CompileOutcome::Refused(failure));
        assert_eq!(compilation.action(), CompileAction::Abort(failure));
        assert_eq!(notes.len(), 1);
        assert_eq!(notes[0].failure, Some(failure));
    }
    let (compilation, notes) = Compilation::start(&request(), &vec![], false);
    assert_eq!(compilation.action(), CompileAction::Abort(CompileFailure::InvalidArtifact));
    assert!(notes[0].forced);
}

#[test]
fn notes_do_not_hide_a_failure_inside_a_stage() {
    let mut diagnostics = Tier2Diagnostics::new();
    let scope = Tier2DiagnosticScope::enter(&mut diagnostics, 4);
    diagnostics.record_tier2_stage(key(), Tier2CompileStage::GenericCallEmit, Some(CompileFailure::InvalidArtifact));
    let mut compilation = started(false);
    compilation.advance(CompileOutcome::Translated { inlined: false, frame_inlined: false });
    for note in compilation.advance(CompileOutcome::Refused(CompileFailure::InvalidArtifact)) {
        diagnostics.take_note(key(), note);
    }
    assert_eq!(diagnostics.dispositions.len(), 1);
    assert_eq!(diagnostics.dispositions[0].disposition.stage, Tier2CompileStage::GenericCallEmit);
    scope.leave(&mut diagnostics);
}
