use tier2::call_guards::HoistedCallGuards;
use tier2::control::CompileFailure;
use tier2::diagnostics::{
    test_tier2_compile_dispositions, test_tier2_deopt_sites, DeoptMap, Tier2DiagnosticScope, Tier2Diagnostics,
};
use tier2::ir::{
    FrameShape, FrameSlot, InlineRegion, KnownFacts, LoopAnalysis, NaturalLoop, OptimizedBlock, OptimizedIr, OptimizedNode,
    OptimizedNodeKind, ScalarCall, ScalarHeapEffect, ScalarValue,
};
use tier2::runtime::{FunctionKey, Instruction, VerifiedFunction};
use tier2::stages::Tier2CompileStage;

fn node(id: u32, kind: OptimizedNodeKind) -> OptimizedNode {
    OptimizedNode {
        id,
        pc: id,
        kind,
        bytes: vec![0],
        pops: 0,
        pushes: 0,
        eliminated: false,
        deopt_guard: None,
        branch_target: None,
        shuffle: None,
        frame_stack: None,
        outputs: vec![],
        frame_definitions: vec![],
        call: None,
        heap_operation: None,
        effect: ScalarHeapEffect::Pure,
    }
}

struct Program {
    ir: OptimizedIr,
    loops: LoopAnalysis,
    facts: KnownFacts,
}

/// `loops` counted loops one after another, each of which calls the arguments
/// in `sites` in turn with `value=target(value)`.
fn inline_program(arguments: u16, loops: u32, sites: &[(u16, u64)]) -> Program {
    let mut nodes = vec![node(0, OptimizedNodeKind::GuardNumeric { guard: 0, mid_loop: false })];
    let mut blocks = vec![OptimizedBlock {
        start_pc: 0,
        stack_depth: 0,
        successors: vec![1],
        nodes: vec![0],
        is_loop_header: false,
        inputs: (0..arguments).map(|index| (FrameSlot::Argument(index), usize::from(index))).collect(),
    }];
    let mut node_blocks = vec![Some(0)];
    let mut natural = vec![];
    for _ in 0..loops {
        let header = nodes.len() as u32;
        let mut members = vec![header];
        nodes.push(node(header, OptimizedNodeKind::GuardNumeric { guard: header, mid_loop: true }));
        node_blocks.push(Some(header));
        for &(target, object) in sites {
            let id = nodes.len() as u32;
            let mut call = node(id, OptimizedNodeKind::Bytecode { opcode: "call1".to_string() });
            call.pops = 2;
            call.pushes = 1;
            call.call = Some(ScalarCall {
                frame_state_node: id,
                target: usize::from(target),
                frame_inline: false,
                inline: Some(InlineRegion { object_identity: object, bytecode_identity: 0x22345678 }),
            });
            nodes.push(call);
            members.push(id);
            node_blocks.push(Some(header));
        }
        blocks.push(OptimizedBlock {
            start_pc: header,
            stack_depth: 0,
            successors: vec![header, nodes.len() as u32],
            nodes: members,
            is_loop_header: true,
            inputs: vec![],
        });
        natural.push(NaturalLoop { header, preheader: None, members: vec![header] });
    }
    let values = (0..arguments)
        .map(|index| ScalarValue::Input { block_pc: 0, slot: FrameSlot::Argument(index) })
        .collect();
    let inlined = u64::from(loops) * sites.len() as u64;
    Program {
        ir: OptimizedIr {
            blocks,
            nodes,
            values,
            max_stack: 2,
            helper_scratch_slots: 4,
            entry_shape: Some(FrameShape { arguments, locals: 2, stack: 0 }),
            inlined_calls: inlined,
            frame_inlined_calls: 0,
            feedback_epoch: 302,
            guard_maps: vec![],
            boxes_elided: 0,
            cse_eliminated: 0,
            dead_nodes_eliminated: 0,
            allocated_bytes: 0,
        },
        loops: LoopAnalysis { complete: true, loops: natural, node_blocks, dominance: vec![] },
        facts: KnownFacts { arguments: (0..arguments).map(Some).collect() },
    }
}

#[test]
fn excessive_poll_expansion_retains_all_site_guards() {
    // 64 loops over i<4, each calling a, b, c, d, e, f, g and h in turn.
    let sites: Vec<(u16, u64)> = (0..8).map(|argument| (argument, 0x12345678)).collect();
    let program = inline_program(8, 64, &sites);
    let ir = &program.ir;
    assert!(program.loops.complete);
    assert!(ir
        .nodes
        .iter()
        .filter_map(|node| node.call)
        .all(|call| program.facts.entry_argument(call.target).is_some()));
    assert!(
        HoistedCallGuards::analyze(ir, &program.loops, &program.facts, true).is_empty(),
        "eight targets at 64 poll locations must retain site guards"
    );
}

#[test]
fn repeated_sites_share_a_target_without_losing_call_coverage() {
    // (function(target){let value=0;for(let i=0;i<4;i++){value=target(value);value=target(value)}return value})
    let program = inline_program(1, 1, &[(0, 0x12345678), (0, 0x12345678)]);
    let plan = HoistedCallGuards::analyze(&program.ir, &program.loops, &program.facts, true);
    assert_eq!(plan.targets.len(), 1);
    for node in program.ir.nodes.iter().filter(|node| node.call.is_some_and(|call| call.frame_state_node == node.id)) {
        assert!(plan.contains(node.id));
    }
}

#[test]
fn conflicting_site_keeps_its_identity_check() {
    let program = inline_program(1, 1, &[(0, 0x12345678), (0, 0x12345679)]);
    let calls: Vec<u32> = program
        .ir
        .nodes
        .iter()
        .filter(|node| node.call.is_some_and(|call| call.frame_state_node == node.id))
        .map(|node| node.id)
        .collect();
    let plan = HoistedCallGuards::analyze(&program.ir, &program.loops, &program.facts, true);
    assert_eq!(plan.targets.len(), 1);
    assert!(plan.contains(calls[0]));
    assert!(!plan.contains(calls[1]));
}

#[test]
fn planning_exhaustion_discards_partially_selected_sites() {
    let program = inline_program(1, 1, &[(0, 0x12345678), (0, 0x12345678)]);
    let mut exhausted = false;
    let mut complete = false;
    for work in 0..=HoistedCallGuards::analysis_work(&program.ir) {
        let plan = HoistedCallGuards::try_analyze(&program.ir, &program.loops, &program.facts, work)
            .unwrap_or_else(HoistedCallGuards::empty);
        if plan.is_empty() {
            exhausted = true;
            assert!(plan.calls.is_empty());
        } else {
            complete = true;
            assert_eq!(plan.calls.len(), 2, "budget exhaustion must not retain a partial call plan");
        }
    }
    assert!(exhausted && complete);
}

#[test]
fn planning_call_targets_has_one_price() {
    let program = inline_program(1, 1, &[(0, 0x12345678), (0, 0x12345678)]);
    let limit = HoistedCallGuards::analysis_work(&program.ir);
    let planned = |work| HoistedCallGuards::try_analyze(&program.ir, &program.loops, &program.facts, work).is_some();
    let price = (0..=limit).find(|&work| planned(work)).unwrap();
    assert!(price >= 3 * program.ir.nodes.len());
    assert!((0..price).all(|work| !planned(work)));
    assert!((price..=limit).all(planned));
}

#[test]
fn a_written_argument_is_never_hoisted() {
    let mut program = inline_program(1, 1, &[(0, 0x12345678)]);
    program.ir.nodes[2].frame_definitions = vec![FrameSlot::Argument(0)];
    let plan = HoistedCallGuards::analyze(&program.ir, &program.loops, &program.facts, true);
    assert!(plan.is_empty());
    assert!(!plan.contains(2));
}

#[test]
fn nested_diagnostic_scopes_restore_each_previous_runtime() {
    let mut diagnostics = Tier2Diagnostics::new();
    let initial = diagnostics.runtime;
    {
        let outer = Tier2DiagnosticScope::enter(&mut diagnostics, 17);
        assert_eq!(diagnostics.runtime, 17);
        {
            let inner = Tier2DiagnosticScope::enter(&mut diagnostics, 29);
            assert_eq!(diagnostics.runtime, 29);
            inner.leave(&mut diagnostics);
        }
        assert_eq!(diagnostics.runtime, 17);
        outer.leave(&mut diagnostics);
    }
    assert_eq!(diagnostics.runtime, initial);
}

fn function() -> VerifiedFunction {
    VerifiedFunction {
        key: FunctionKey { id: 5, generation: 1 },
        instructions: vec![
            Instruction { pc: 0, name: "get_arg0".to_string(), bytes: vec![7], branch_target: None },
            Instruction { pc: 1, name: "return".to_string(), bytes: vec![9], branch_target: None },
        ],
        arg_count: 1,
        local_count: 0,
        stack_size: 1,
        retained_bytes: 64,
        has_exceptions: false,
        constants: vec![],
        has_loop: false,
    }
}

#[test]
fn records_follow_the_runtime_of_their_scope() {
    let mut diagnostics = Tier2Diagnostics::new();
    let key = FunctionKey { id: 5, generation: 1 };
    let scope = Tier2DiagnosticScope::enter(&mut diagnostics, 17);
    let failed: Result<u32, CompileFailure> =
        diagnostics.tier2_stage(key, Tier2CompileStage::GenericCallEmit, Err(CompileFailure::InvalidArtifact));
    assert_eq!(failed, Err(CompileFailure::InvalidArtifact));
    diagnostics.record_tier2_deopt_sites(key, &vec![DeoptMap { guard: 3, resume_pc: 1 }], &function());
    scope.leave(&mut diagnostics);
    let here = test_tier2_compile_dispositions(&diagnostics, 17);
    assert_eq!(here.len(), 1);
    assert_eq!(here[0].disposition.failure, Some(CompileFailure::InvalidArtifact));
    assert!(test_tier2_compile_dispositions(&diagnostics, 18).is_empty());
    assert_eq!(test_tier2_deopt_sites(&diagnostics, 17).len(), 1);
    assert!(test_tier2_deopt_sites(&diagnostics, 18).is_empty());
}
