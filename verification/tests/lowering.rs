use cranelift_codegen::data_value::DataValue;
use cranelift_codegen::ir::{
    types, AbiParam, ExtFuncData, ExternalName, Function, InstBuilder, MemFlags, Signature, StackSlotData, StackSlotKind,
    UserFuncName, Value,
};
use cranelift_codegen::isa::CallConv;
use cranelift_frontend::{FunctionBuilder, FunctionBuilderContext};
use cranelift_interpreter::environment::FunctionStore;
use cranelift_interpreter::interpreter::{Interpreter, InterpreterState};
use cranelift_interpreter::step::ControlFlow;
use std::collections::{BTreeMap, BTreeSet};
use tier2::array_plan::ArrayPlan;
use tier2::assemble::assemble;
use tier2::call_guards::HoistedCallGuards;
use tier2::clif::Passed;
use tier2::code::{Code, Inst, Ty};
use tier2::control::CompileFailure;
use tier2::frame::{ElementLayout, PropertyLayout, RuntimeAbi};
use tier2::inline_frames::InlineApi;
use tier2::inlined_calls::{CallSite, RegionStep, ScalarRegion, StepFrame, StepOp};
use tier2::ir::{
    FrameShape, FrameSlot, OptimizedBlock, OptimizedIr, OptimizedNode, OptimizedNodeKind, ScalarHeapEffect, ScalarValue,
    StackShuffle,
};
use tier2::lower_calls::SemanticCall;
use tier2::lower_machine::{calls_helpers, lower_optimized_machine, HelperSignature, MachineInput};
use tier2::machine_plan::operand_slots;
use tier2::property_cache::{PropertyAccessPlan, PropertyBoundary, PropertyCandidate};
use tier2::provenance::OptProvenance;
use tier2::qjs::{JS_TAG_BOOL, JS_TAG_FLOAT64, JS_TAG_INT, JS_TAG_OBJECT, JS_TAG_UNDEFINED};
use tier2::arithmetic::ScalarBitwiseOp;
use tier2::runtime::{
    ArrayAccess, ArrayFeedback, ArrayMode, CallSpecializationKey, FeedbackRepresentation, FunctionKey, ObservedType,
    ShapeObservation,
};
use tier2::scalar::{OperandMode, PhiEdge, ScalarBinaryOp, ScalarCheck, ScalarCompareOp, ScalarFrame, ScalarOperation};
use tier2::scalar_ops::ScalarNode;
use tier2::specialized_calls::DirectCallSite;
use tier2::specialization::{EntryRepresentation, NumericSpecialization};

const EXIT_DONE: u32 = 1;
const EXIT_EXCEPTION: u32 = 2;
const EXIT_DEOPT: u32 = 3;
const EXIT_INTERRUPT: u32 = 4;
const ARGUMENTS: i32 = 128;
const LOCALS: i32 = 256;
const STACK: i32 = 320;
const RESULT: i32 = 96;
const TABLE: i32 = 448;
const OBJECT: i32 = 512;
const SHAPE: i32 = 576;
const PROPERTIES: i32 = 640;
const ELEMENTS: i32 = 768;

fn abi() -> RuntimeAbi {
    RuntimeAbi {
        runtime_api: 0,
        stack_top: 8,
        pc: 16,
        bytecode_start: 24,
        flags: 32,
        helper_offsets: vec![0, 8],
        helper_free: 9,
        helper_materialize_owner: 0,
        helper_get_property: 9,
        helper_poll: 1,
        materialized: 1,
        owner_source_argument: 1,
        owner_source_local: 2,
        exit_exception: EXIT_EXCEPTION,
        exit_deopt: EXIT_DEOPT,
        exit_interrupt: EXIT_INTERRUPT,
        exit_done: EXIT_DONE,
        side_path_hit: 8,
        arg_buf: 40,
        var_buf: 48,
        stack_base: 56,
        result: RESULT,
        ctx: 64,
        helper_shape_guard: 9,
        helper_call: 9,
        helper_get_global: 9,
        helper_dup: 9,
        helper_set_property: 9,
        helper_to_bool: 9,
        shape_matches: 1,
        shape_differs: 0,
        length_atom: 50,
        release_flags: 1,
        function_bytecode: 8,
        property: PropertyLayout { object_shape: 0, shape_generation: 8, object_properties: 16 },
        elements: ElementLayout {
            object_flags: 24,
            fast_array_mask: 1,
            object_class_id: 32,
            array_class_id: 2,
            int32_array_class_id: 3,
            float64_array_class_id: 4,
            array_count: 40,
            array_data: 48,
            typed_array_ptr: 56,
            typed_array_track_rab: 32,
            typed_array_buffer: 40,
            object_union: 48,
            array_buffer_detached: 56,
            array_buffer_immutable: 57,
            array_query: 0,
            metadata_size: 32,
            query_length: 1,
            query_ok: 1,
            mode_int32: 1,
            mode_float64: 2,
        },
    }
}

fn api() -> InlineApi {
    InlineApi {
        enter: None,
        resume: None,
        check: None,
        leave: None,
        guard_miss: 5,
        resume_exception: 1,
        resume_instruction: 2,
        function_id: 72,
        generation: 80,
    }
}

/// The helpers that a poll and a step of the interpreter call.
fn helpers() -> Vec<HelperSignature> {
    vec![
        HelperSignature { params: vec![Ty::I64, Ty::I32, Ty::I32, Ty::I32, Ty::I32], result: Some(Ty::I32) },
        HelperSignature { params: vec![Ty::I64], result: Some(Ty::I32) },
    ]
}

/// A function in the form that lowering takes, written down node by node.
struct Program {
    ir: OptimizedIr,
    scalar_nodes: Vec<ScalarNode>,
    definitions: Vec<Vec<(FrameSlot, usize)>>,
    edges: Vec<PhiEdge>,
    proven: Vec<Option<OperandMode>>,
    calls: Vec<Option<SemanticCall>>,
    direct_calls: BTreeMap<u32, DirectCallSite>,
    candidates: Vec<PropertyCandidate>,
    accesses: Vec<Option<PropertyAccessPlan>>,
    boundaries: Vec<PropertyBoundary>,
    int32_loop: bool,
}

impl Program {
    fn new(arguments: u16, locals: u16, values: Vec<ScalarValue>) -> Program {
        Program {
            ir: OptimizedIr {
                blocks: vec![],
                nodes: vec![],
                values,
                max_stack: 2,
                helper_scratch_slots: 2,
                entry_shape: Some(FrameShape { arguments, locals, stack: 0 }),
                inlined_calls: 0,
                frame_inlined_calls: 0,
                feedback_epoch: 1,
                guard_maps: vec![],
                boxes_elided: 0,
                cse_eliminated: 0,
                dead_nodes_eliminated: 0,
                allocated_bytes: 0,
            },
            scalar_nodes: vec![],
            definitions: vec![],
            edges: vec![],
            proven: vec![],
            calls: vec![],
            direct_calls: BTreeMap::new(),
            candidates: vec![],
            accesses: vec![],
            boundaries: vec![],
            int32_loop: false,
        }
    }

    fn block(&mut self, start_pc: u32, successors: &[u32], is_loop_header: bool, inputs: &[(FrameSlot, usize)]) {
        self.ir.blocks.push(OptimizedBlock {
            start_pc,
            stack_depth: 0,
            successors: successors.to_vec(),
            nodes: vec![],
            is_loop_header,
            inputs: inputs.to_vec(),
        });
    }

    fn push(&mut self, pc: u32, kind: OptimizedNodeKind) -> &mut OptimizedNode {
        let id = self.ir.nodes.len() as u32;
        self.ir.blocks.last_mut().unwrap().nodes.push(id);
        self.scalar_nodes.push(ScalarNode { frame: None, operation: None, checks: vec![] });
        self.definitions.push(vec![]);
        self.calls.push(None);
        self.accesses.push(None);
        self.boundaries.push(PropertyBoundary::Keep);
        self.ir.nodes.push(OptimizedNode {
            id,
            pc,
            kind,
            bytes: vec![0],
            pops: 0,
            pushes: 0,
            eliminated: false,
            deopt_guard: None,
            branch_target: None,
            shuffle: None,
            frame_stack: None,
            outputs: vec![],
            frame_definitions: vec![],
            call: None,
            heap_operation: None,
            effect: ScalarHeapEffect::Pure,
        });
        self.ir.nodes.last_mut().unwrap()
    }

    fn guard(&mut self, pc: u32, guard: u32, mid_loop: bool) {
        self.push(pc, OptimizedNodeKind::GuardNumeric { guard, mid_loop });
    }

    fn op(&mut self, pc: u32, opcode: &str, pops: u16, pushes: u16, outputs: &[usize]) -> &mut OptimizedNode {
        let node = self.push(pc, OptimizedNodeKind::Bytecode { opcode: opcode.to_owned() });
        node.pops = pops;
        node.pushes = pushes;
        node.outputs = outputs.to_vec();
        node
    }

    /// Makes the last node compute on scalar values; its checks are those of
    /// its operands.
    fn computes(&mut self, operation: ScalarOperation, mode: OperandMode, operands: &[usize], frame: ScalarFrame) {
        let node = self.ir.nodes.last_mut().unwrap();
        node.deopt_guard = Some(frame.pc);
        let id = node.id;
        let checks = operands
            .iter()
            .map(|&value| ScalarCheck { frame_state_node: id, mode, value, eliminated: false })
            .collect();
        *self.scalar_nodes.last_mut().unwrap() =
            ScalarNode { frame: Some(frame), operation: Some(operation), checks };
    }

    fn code(&self, specialization: &NumericSpecialization) -> Result<Code, CompileFailure> {
        let stack_slots = operand_slots(&self.ir);
        let shape = self.ir.entry_shape.unwrap();
        let entries: BTreeMap<u32, Vec<OptProvenance>> = self
            .ir
            .blocks
            .iter()
            .map(|block| (block.start_pc, vec![OptProvenance::ImmediatePrimitive; stack_slots]))
            .collect();
        let helpers = helpers();
        let input = MachineInput {
            ir: &self.ir,
            specialization,
            abi: &abi(),
            api: &api(),
            helpers: &helpers,
            shape,
            stack_slots,
            entry_guard: 0,
            int32_loop: self.int32_loop,
            amortized_poll: true,
            defer_locals: false,
            side_path: None,
            owned_locals: &vec![false; usize::from(shape.locals)],
            entries: &entries,
            proven: &self.proven,
            scalar_nodes: &self.scalar_nodes,
            definitions: &self.definitions,
            calls: &self.calls,
            edges: &self.edges,
            direct_calls: &self.direct_calls,
            bounded: &BTreeSet::new(),
            candidates: &self.candidates,
            accesses: &self.accesses,
            boundaries: &self.boundaries,
            forwarded: &BTreeSet::new(),
            arrays: &ArrayPlan::empty(),
            hoisted: &HoistedCallGuards { targets: vec![], calls: BTreeMap::new() },
            regions: &vec![],
        };
        lower_optimized_machine(&input).map_err(|refusal| refusal.failure)
    }

    fn lower(&self, specialization: &NumericSpecialization) -> Result<Function, CompileFailure> {
        let code = self.code(specialization)?;
        assert!(calls_helpers(&code));
        let function = assemble(&code, &vec![Passed::StructReturn, Passed::Plain(Ty::I64)], &vec![], CallConv::SystemV)?;
        let flags = cranelift_codegen::settings::Flags::new(cranelift_codegen::settings::builder());
        cranelift_codegen::verify_function(&function, &flags).expect("well-formed function");
        Ok(function)
    }
}

#[derive(Debug, PartialEq)]
struct Exit {
    kind: i64,
    map: i64,
    payload: i64,
    tag: i64,
}

/// A helper that answers `status` and does nothing else.
fn helper(name: &str, words: usize, status: i64) -> Function {
    let mut signature = Signature::new(CallConv::SystemV);
    signature.params.push(AbiParam::new(types::I64));
    for _ in 0..words {
        signature.params.push(AbiParam::new(types::I32));
    }
    signature.returns.push(AbiParam::new(types::I32));
    let mut function = Function::with_name_signature(UserFuncName::testcase(name), signature);
    let mut context = FunctionBuilderContext::new();
    let mut builder = FunctionBuilder::new(&mut function, &mut context);
    let entry = builder.create_block();
    builder.append_block_params_for_function_params(entry);
    builder.switch_to_block(entry);
    let status = builder.ins().iconst(types::I32, status);
    builder.ins().return_(&[status]);
    builder.seal_all_blocks();
    builder.finalize();
    function
}

/// A direct entry that answers its argument and one more, with `status`.
fn direct_entry(status: i64) -> Function {
    let mut signature = Signature::new(CallConv::SystemV);
    signature.params.push(AbiParam::new(types::I64));
    signature.params.push(AbiParam::new(types::I32));
    signature.returns.push(AbiParam::new(types::I32));
    let mut function = Function::with_name_signature(UserFuncName::testcase("entry"), signature);
    let mut context = FunctionBuilderContext::new();
    let mut builder = FunctionBuilder::new(&mut function, &mut context);
    let entry = builder.create_block();
    builder.append_block_params_for_function_params(entry);
    builder.switch_to_block(entry);
    let output = builder.block_params(entry)[0];
    let argument = builder.block_params(entry)[1];
    let sum = builder.ins().iadd_imm(argument, 1);
    builder.ins().store(MemFlags::new(), sum, output, 0);
    let status = builder.ins().iconst(types::I32, status);
    builder.ins().return_(&[status]);
    builder.seal_all_blocks();
    builder.finalize();
    function
}

/// The frame that code runs on: words beside its arguments, and the answers of
/// the runtime's helpers.
struct Scene {
    words: Vec<(i32, i64)>,
    materialized: i64,
    polled: i64,
    entered: i64,
}

fn scene() -> Scene {
    Scene { words: vec![], materialized: 1, polled: 0, entered: 0 }
}

/// Runs code on a frame with the given arguments.
fn run(inner: &Function, arguments: &[(i64, i64)]) -> Exit {
    scene().run(inner, arguments, 0).0
}

/// Code that answers what `find` yields of the frame.
fn probe(find: fn(&mut FunctionBuilder, Value) -> Value) -> i64 {
    let mut signature = Signature::new(CallConv::SystemV);
    signature.params.push(AbiParam::new(types::I64));
    signature.params.push(AbiParam::new(types::I64));
    let mut function = Function::with_name_signature(UserFuncName::testcase("inner"), signature);
    let mut context = FunctionBuilderContext::new();
    let mut builder = FunctionBuilder::new(&mut function, &mut context);
    let entry = builder.create_block();
    builder.append_block_params_for_function_params(entry);
    builder.switch_to_block(entry);
    let frame = builder.block_params(entry)[1];
    let found = find(&mut builder, frame);
    builder.ins().store(MemFlags::new(), found, frame, RESULT);
    builder.ins().return_(&[]);
    builder.seal_all_blocks();
    builder.finalize();
    run(&function, &[]).payload
}

/// Where the frame lies while code runs on it.
fn frame_address() -> i64 {
    probe(|_, frame| frame)
}

/// Where the direct entry lies.
fn entry_address() -> i64 {
    probe(|builder, frame| builder.ins().load(types::I64, MemFlags::new(), frame, TABLE + 16))
}

impl Scene {
    /// How the code left, and the word at `observed`.
    fn run(&self, inner: &Function, arguments: &[(i64, i64)], observed: i32) -> (Exit, i64) {
        let helpers =
            [helper("materialize", 4, self.materialized), helper("poll", 0, self.polled), direct_entry(self.entered)];
        let mut signature = Signature::new(CallConv::SystemV);
        for _ in 0..5 {
            signature.returns.push(AbiParam::new(types::I64));
        }
        let mut outer = Function::with_name_signature(UserFuncName::testcase("main"), signature);
        let mut context = FunctionBuilderContext::new();
        let mut builder = FunctionBuilder::new(&mut outer, &mut context);
        let entry = builder.create_block();
        builder.switch_to_block(entry);
        let record = builder.create_sized_stack_slot(StackSlotData::new(StackSlotKind::ExplicitSlot, 24, 3));
        let frame = builder.create_sized_stack_slot(StackSlotData::new(StackSlotKind::ExplicitSlot, 1024, 3));
        let zero = builder.ins().iconst(types::I64, 0);
        for offset in (0..1024).step_by(8) {
            builder.ins().stack_store(zero, frame, offset);
        }
        for (field, target) in [(0, TABLE), (40, ARGUMENTS), (48, LOCALS), (56, STACK)] {
            let address = builder.ins().stack_addr(types::I64, frame, target);
            builder.ins().stack_store(address, frame, field);
        }
        for (index, name) in ["materialize", "poll", "entry"].iter().enumerate() {
            let signature = builder.import_signature(helpers[index].signature.clone());
            let function = builder.import_function(ExtFuncData {
                name: ExternalName::testcase(name),
                signature,
                colocated: true,
            });
            let address = builder.ins().func_addr(types::I64, function);
            builder.ins().stack_store(address, frame, TABLE + index as i32 * 8);
        }
        for (offset, word) in &self.words {
            let word = builder.ins().iconst(types::I64, *word);
            builder.ins().stack_store(word, frame, *offset);
        }
        for (index, (payload, tag)) in arguments.iter().enumerate() {
            let offset = ARGUMENTS + index as i32 * 16;
            let payload = builder.ins().iconst(types::I64, *payload);
            builder.ins().stack_store(payload, frame, offset);
            let tag = builder.ins().iconst(types::I64, *tag);
            builder.ins().stack_store(tag, frame, offset + 8);
        }
        let record_address = builder.ins().stack_addr(types::I64, record, 0);
        let frame_address = builder.ins().stack_addr(types::I64, frame, 0);
        let callee = builder.import_signature(inner.signature.clone());
        let callee = builder.import_function(ExtFuncData {
            name: ExternalName::testcase("inner"),
            signature: callee,
            colocated: true,
        });
        builder.ins().call(callee, &[record_address, frame_address]);
        let kind = builder.ins().load(types::I32, MemFlags::new(), record_address, 0);
        let kind = builder.ins().uextend(types::I64, kind);
        let map = builder.ins().load(types::I32, MemFlags::new(), record_address, 4);
        let map = builder.ins().uextend(types::I64, map);
        let payload = builder.ins().load(types::I64, MemFlags::new(), frame_address, RESULT);
        let tag = builder.ins().load(types::I64, MemFlags::new(), frame_address, RESULT + 8);
        let word = builder.ins().load(types::I64, MemFlags::new(), frame_address, observed);
        builder.ins().return_(&[kind, map, payload, tag, word]);
        builder.seal_all_blocks();
        builder.finalize();
        let mut store = FunctionStore::default();
        store.add("%main".to_string(), &outer);
        store.add("%inner".to_string(), inner);
        store.add("%materialize".to_string(), &helpers[0]);
        store.add("%poll".to_string(), &helpers[1]);
        store.add("%entry".to_string(), &helpers[2]);
        let state = InterpreterState::default().with_function_store(store);
        let values = match Interpreter::new(state).call_by_name("%main", &[]).expect("run") {
            ControlFlow::Return(values) => values.to_vec(),
            other => panic!("{other:?}"),
        };
        let word = |index: usize| match &values[index] {
            DataValue::I64(value) => *value,
            other => panic!("{other:?}"),
        };
        (Exit { kind: word(0), map: word(1), payload: word(2), tag: word(3) }, word(4))
    }
}

fn int32_entry() -> NumericSpecialization {
    let mut specialization = NumericSpecialization::default();
    specialization.entry = EntryRepresentation::Int32;
    specialization
}

fn argument(index: u16) -> ScalarValue {
    ScalarValue::Input { block_pc: 0, slot: FrameSlot::Argument(index) }
}

/// function(a,b){return a+b}
fn sum(mode: OperandMode) -> Program {
    let mut program = Program::new(2, 0, vec![argument(0), argument(1), ScalarValue::Binary]);
    program.proven = vec![None; 3];
    program.block(0, &[], false, &[(FrameSlot::Argument(0), 0), (FrameSlot::Argument(1), 1)]);
    program.guard(0, 0, false);
    program.op(1, "get_arg0", 0, 1, &[]);
    program.op(2, "get_arg1", 0, 1, &[]);
    program.op(3, "add", 2, 1, &[2]);
    program.computes(
        ScalarOperation::Binary { op: ScalarBinaryOp::Add, mode, lhs: 0, rhs: 1 },
        mode,
        &[0, 1],
        ScalarFrame { pc: 3, arguments: vec![0, 1], locals: vec![], stack: vec![0, 1] },
    );
    program.op(4, "return", 1, 0, &[]);
    program
}

fn whole(value: i32) -> (i64, i64) {
    (i64::from(value as u32), i64::from(JS_TAG_INT))
}

fn double(value: f64) -> (i64, i64) {
    (value.to_bits() as i64, i64::from(JS_TAG_FLOAT64))
}

#[test]
fn a_sum_of_integers_is_returned() {
    let function = sum(OperandMode::Int32).lower(&int32_entry()).unwrap();
    for (a, b) in [(2, 3), (-7, 5), (i32::MAX, -1), (0, 0)] {
        let exit = run(&function, &[whole(a), whole(b)]);
        assert_eq!(exit.kind, i64::from(EXIT_DONE));
        assert_eq!(exit.tag, i64::from(JS_TAG_INT));
        assert_eq!(exit.payload as i32, a + b);
    }
}

#[test]
fn a_sum_of_doubles_is_returned() {
    let function = sum(OperandMode::Number).lower(&NumericSpecialization::default()).unwrap();
    let exit = run(&function, &[double(0.5), double(0.25)]);
    assert_eq!(exit.kind, i64::from(EXIT_DONE));
    assert_eq!((exit.payload, exit.tag), double(0.75));
}

#[test]
fn other_arguments_leave_at_the_entry() {
    let function = sum(OperandMode::Int32).lower(&int32_entry()).unwrap();
    for arguments in [
        [(1, i64::from(JS_TAG_OBJECT)), whole(1)],
        [whole(1), (0, i64::from(JS_TAG_UNDEFINED))],
        [whole(1), double(1.0)],
    ] {
        assert_eq!(
            run(&function, &arguments),
            Exit { kind: i64::from(EXIT_DEOPT), map: 1, payload: 0, tag: 0 }
        );
    }
}

/// function(n){let s=0;for(let i=0;i<n;i++)s+=i;return s}
fn series() -> Program {
    let local = |index| ScalarValue::Input { block_pc: 0, slot: FrameSlot::Local(index) };
    let phi = || ScalarValue::Phi { inputs: vec![] };
    let values = vec![
        argument(0),
        ScalarValue::Int32(0),
        ScalarValue::Int32(0),
        phi(),
        phi(),
        phi(),
        ScalarValue::Compare,
        ScalarValue::Binary,
        ScalarValue::Update,
        local(0),
        local(1),
        phi(),
        phi(),
        phi(),
    ];
    let mut program = Program::new(1, 2, values);
    program.int32_loop = true;
    program.proven = vec![Some(OperandMode::Int32); 14];
    let inputs = |n, s, i| [(FrameSlot::Argument(0), n), (FrameSlot::Local(0), s), (FrameSlot::Local(1), i)];
    program.block(0, &[5], false, &inputs(0, 9, 10));
    program.guard(0, 0, false);
    program.op(1, "push_0", 0, 1, &[1]);
    program.op(2, "put_loc0", 1, 0, &[]);
    program.op(3, "push_0", 0, 1, &[2]);
    program.op(4, "put_loc1", 1, 0, &[]);
    program.block(5, &[20, 10], true, &inputs(3, 4, 5));
    program.guard(5, 1, true);
    program.op(6, "get_loc1", 0, 1, &[]);
    program.op(7, "get_arg0", 0, 1, &[]);
    program.op(8, "lt", 2, 1, &[6]);
    program.computes(
        ScalarOperation::Compare { op: ScalarCompareOp::LessThan, lhs: 5, rhs: 3 },
        OperandMode::Number,
        &[5, 3],
        ScalarFrame { pc: 8, arguments: vec![3], locals: vec![4, 5], stack: vec![5, 3] },
    );
    program.op(9, "if_false8", 1, 0, &[]).branch_target = Some(20);
    program.block(10, &[5], false, &inputs(11, 12, 13));
    program.op(10, "get_loc0", 0, 1, &[]);
    program.op(11, "get_loc1", 0, 1, &[]);
    program.op(12, "add", 2, 1, &[7]);
    program.computes(
        ScalarOperation::Binary { op: ScalarBinaryOp::Add, mode: OperandMode::Int32, lhs: 12, rhs: 13 },
        OperandMode::Int32,
        &[12, 13],
        ScalarFrame { pc: 12, arguments: vec![11], locals: vec![12, 13], stack: vec![12, 13] },
    );
    program.op(13, "put_loc0", 1, 0, &[]);
    program.op(14, "inc_loc", 0, 0, &[]).bytes = vec![0, 1];
    program.computes(
        ScalarOperation::Update { mode: OperandMode::Int32, input: 13, delta: 1 },
        OperandMode::Int32,
        &[13],
        ScalarFrame { pc: 14, arguments: vec![11], locals: vec![7, 13], stack: vec![] },
    );
    program.definitions.last_mut().unwrap().push((FrameSlot::Local(1), 8));
    program.op(16, "goto8", 0, 0, &[]).branch_target = Some(5);
    program.block(20, &[], false, &[]);
    program.op(20, "get_loc0", 0, 1, &[]);
    program.op(21, "return", 1, 0, &[]);
    let mut edge = |target, from, source| program.edges.push(PhiEdge { target, predecessor: Some(from), source });
    for (target, source) in [(3, 0), (4, 1), (5, 2)] {
        edge(target, 0, source);
    }
    for (target, source) in [(11, 3), (12, 4), (13, 5)] {
        edge(target, 5, source);
    }
    for (target, source) in [(3, 11), (4, 7), (5, 8)] {
        edge(target, 10, source);
    }
    program
}

#[test]
fn a_counted_loop_runs_to_its_end() {
    let function = series().lower(&int32_entry()).unwrap();
    for (n, expected) in [(0, 0), (1, 0), (5, 10), (50, 1225), (-3, 0)] {
        let exit = run(&function, &[whole(n)]);
        assert_eq!(exit.kind, i64::from(EXIT_DONE));
        assert_eq!((exit.payload as i32, exit.tag), (expected, i64::from(JS_TAG_INT)));
    }
}

#[test]
fn a_sum_that_overflows_leaves_the_loop() {
    // 65536 * 65537 / 2 is the first sum that is no Int32; the polls before it
    // would ask the runtime, so the loop begins with a large sum instead.
    let mut program = series();
    program.ir.nodes[1].kind = OptimizedNodeKind::Bytecode { opcode: "push_i32".to_owned() };
    program.ir.nodes[1].bytes = vec![0, 0xfe, 0xff, 0xff, 0x7f];
    let function = program.lower(&int32_entry()).unwrap();
    assert_eq!(run(&function, &[whole(2)]).payload as i32, i32::MAX);
    for (slot, value) in [(LOCALS, i32::MAX), (LOCALS + 16, 2), (STACK, i32::MAX), (STACK + 16, 2)] {
        let (exit, spilled) = scene().run(&function, &[whole(4)], slot);
        assert_eq!((exit.kind, exit.map), (i64::from(EXIT_DEOPT), 13));
        assert_eq!(spilled as i32, value);
    }
}

#[test]
fn lowered_code_declares_what_it_names() {
    for code in [sum(OperandMode::Int32).code(&int32_entry()), series().code(&int32_entry())] {
        let code = code.expect("lowered");
        let mut sizes = vec![];
        let mut signatures = vec![];
        for inst in &code.insts {
            match inst {
                Inst::NewSlot { size, align_shift } => sizes.push((*size, *align_shift)),
                Inst::NewSignature { params, result } => signatures.push((params.clone(), *result)),
                _ => {}
            }
        }
        let expected: Vec<_> = helpers().into_iter().map(|helper| (helper.params, helper.result)).collect();
        assert_eq!(signatures, expected);
        assert_eq!(sizes, [(16, 3), (abi().elements.metadata_size as u32, 3), (16, 3), (8, 3)]);
    }
}

#[test]
fn every_slot_of_a_frame_has_variables_of_its_own() {
    // A slot's variables hold its payload and its tag; what a block takes over
    // from the blocks before it has two of its own.
    for program in [sum(OperandMode::Int32), series()] {
        let code = program.code(&int32_entry()).expect("lowered");
        let variables = code.insts.iter().filter(|inst| matches!(inst, Inst::NewVariable { .. })).count();
        let shape = program.ir.entry_shape.unwrap();
        let slots = usize::from(shape.arguments) + usize::from(shape.locals) + operand_slots(&program.ir);
        let inputs: usize = program.ir.blocks.iter().map(|block| block.inputs.len()).sum();
        assert_eq!(variables, 2 * (slots + inputs));
    }
}

#[test]
fn every_block_is_started_once() {
    let code = series().code(&int32_entry()).expect("lowered");
    let mut started = BTreeSet::new();
    for inst in &code.insts {
        if let Inst::Enter { block } | Inst::Switch { block } = inst {
            assert!(started.insert(*block));
        }
    }
    for (at, inst) in code.insts.iter().enumerate() {
        match inst {
            Inst::NewBlock { .. } => assert!(started.contains(&at)),
            Inst::Jump { block, .. } => assert!(started.contains(block)),
            _ => {}
        }
    }
}

#[test]
fn functions_that_cannot_be_lowered_are_refused() {
    let mut program = sum(OperandMode::Int32);
    program.ir.nodes[4].kind = OptimizedNodeKind::Bytecode { opcode: "throw".to_owned() };
    assert_eq!(program.lower(&int32_entry()).unwrap_err(), CompileFailure::UnsupportedOpcode);
    let mut program = sum(OperandMode::Int32);
    program.scalar_nodes[3].operation = None;
    assert_eq!(program.lower(&int32_entry()).unwrap_err(), CompileFailure::InvalidArtifact);
    let mut program = sum(OperandMode::Int32);
    program.ir.nodes[1].kind = OptimizedNodeKind::Bytecode { opcode: "get_arg3".to_owned() };
    assert_eq!(program.lower(&int32_entry()).unwrap_err(), CompileFailure::InvalidArtifact);
    let mut program = sum(OperandMode::Int32);
    program.ir.blocks.clear();
    assert_eq!(program.lower(&int32_entry()).unwrap_err(), CompileFailure::InvalidArtifact);
    let mut program = series();
    program.edges.clear();
    assert_eq!(program.lower(&int32_entry()).unwrap_err(), CompileFailure::InvalidArtifact);
}

/// A function that fills its four operand slots.
fn filled() -> Program {
    let mut program = Program::new(1, 0, vec![argument(0)]);
    program.proven = vec![None];
    program.block(0, &[], false, &[(FrameSlot::Argument(0), 0)]);
    program.guard(0, 0, false);
    for pc in 1..5 {
        program.op(pc, "get_arg0", 0, 1, &[]);
    }
    program
}

#[test]
fn the_reason_for_a_refusal_is_that_of_the_opcode() {
    let lowered = |program: &mut Program| {
        program.op(6, "return", 1, 0, &[]);
        program.lower(&int32_entry())
    };
    assert!(lowered(&mut filled()).is_ok());
    let mut read = filled();
    read.op(5, "get_arg0", 0, 1, &[]);
    assert_eq!(lowered(&mut read).unwrap_err(), CompileFailure::InvalidArtifact);
    let mut copied = filled();
    copied.op(5, "dup", 1, 2, &[]).shuffle = Some(StackShuffle { take: 1, order: vec![0, 0] });
    assert_eq!(lowered(&mut copied).unwrap_err(), CompileFailure::ResourceLimit);
    let mut global = filled();
    global.op(5, "get_var", 0, 1, &[]).bytes = vec![0, 1, 0, 0, 0];
    assert_eq!(lowered(&mut global).unwrap_err(), CompileFailure::ResourceLimit);
    let mut constant = filled();
    constant.op(5, "push_const8", 0, 1, &[]).bytes = vec![0, 9];
    assert_eq!(lowered(&mut constant).unwrap_err(), CompileFailure::UnsupportedOpcode);
}

#[test]
fn polls_ask_the_runtime_now_and_then() {
    let function = series().lower(&int32_entry()).unwrap();
    let (exit, _) = scene().run(&function, &[whole(200)], 0);
    assert_eq!((exit.kind, exit.payload as i32), (i64::from(EXIT_DONE), 19900));
    let mut stopped = scene();
    stopped.polled = 1;
    assert_eq!(stopped.run(&function, &[whole(10)], 0).0.kind, i64::from(EXIT_DONE));
    assert_eq!(stopped.run(&function, &[whole(200)], 0).0.kind, i64::from(EXIT_INTERRUPT));
}

#[test]
fn a_sum_that_overflows_is_left_to_the_interpreter() {
    let function = sum(OperandMode::Int32).lower(&int32_entry()).unwrap();
    let arguments = [whole(i32::MAX), whole(1)];
    // The operand slots are cleared, and the runtime makes owners of them.
    let (exit, slot) = scene().run(&function, &arguments, STACK + 8);
    assert_eq!((exit.kind, exit.map), (i64::from(EXIT_DEOPT), 4));
    assert_eq!(slot, i64::from(JS_TAG_UNDEFINED));
    let mut failing = scene();
    failing.materialized = 0;
    assert_eq!(failing.run(&function, &arguments, 0).0.kind, i64::from(EXIT_EXCEPTION));
}

/// An operation on two arguments whose result is returned.
fn binary(opcode: &str, operation: ScalarOperation, mode: OperandMode) -> Program {
    let mut program = sum(mode);
    program.ir.nodes[3].kind = OptimizedNodeKind::Bytecode { opcode: opcode.to_owned() };
    program.scalar_nodes[3].operation = Some(operation);
    program
}

#[test]
fn arithmetic_on_integers_is_exact() {
    for (opcode, op, a, b, expected) in [
        ("sub", ScalarBinaryOp::Sub, 5, 7, -2),
        ("mul", ScalarBinaryOp::Mul, -6, 7, -42),
        ("add", ScalarBinaryOp::Add, 6, -7, -1),
    ] {
        let operation = ScalarOperation::Binary { op, mode: OperandMode::Int32, lhs: 0, rhs: 1 };
        let function = binary(opcode, operation, OperandMode::Int32).lower(&int32_entry()).unwrap();
        let exit = run(&function, &[whole(a), whole(b)]);
        assert_eq!((exit.kind, exit.tag), (i64::from(EXIT_DONE), i64::from(JS_TAG_INT)));
        assert_eq!(exit.payload as i32, expected);
    }
    let operation = ScalarOperation::Binary { op: ScalarBinaryOp::Mul, mode: OperandMode::Int32, lhs: 0, rhs: 1 };
    let function = binary("mul", operation, OperandMode::Int32).lower(&int32_entry()).unwrap();
    assert_eq!(run(&function, &[whole(0), whole(-3)]).kind, i64::from(EXIT_DEOPT));
}

#[test]
fn bits_are_combined_and_shifted() {
    for (opcode, op, a, b, expected) in [
        ("or", ScalarBitwiseOp::Or, 0b1100, 0b1010, 0b1110),
        ("and", ScalarBitwiseOp::And, 0b1100, 0b1010, 0b1000),
        ("xor", ScalarBitwiseOp::Xor, 0b1100, 0b1010, 0b0110),
        ("shl", ScalarBitwiseOp::Shl, 3, 33, 6),
        ("sar", ScalarBitwiseOp::Sar, -8, 1, -4),
        ("shr", ScalarBitwiseOp::Shr, 8, 1, 4),
    ] {
        let operation = ScalarOperation::Bitwise { op, lhs: 0, rhs: 1 };
        let function = binary(opcode, operation, OperandMode::Int32).lower(&int32_entry()).unwrap();
        let exit = run(&function, &[whole(a), whole(b)]);
        assert_eq!((exit.kind, exit.tag), (i64::from(EXIT_DONE), i64::from(JS_TAG_INT)), "{opcode}");
        assert_eq!(exit.payload as i32, expected, "{opcode}");
    }
}

#[test]
fn comparisons_order_numbers() {
    for (opcode, op, expected) in [
        ("lt", ScalarCompareOp::LessThan, [1, 0, 0]),
        ("lte", ScalarCompareOp::LessEqual, [1, 1, 0]),
        ("gt", ScalarCompareOp::GreaterThan, [0, 0, 1]),
        ("gte", ScalarCompareOp::GreaterEqual, [0, 1, 1]),
    ] {
        let operation = ScalarOperation::Compare { op, lhs: 0, rhs: 1 };
        let function = binary(opcode, operation, OperandMode::Number).lower(&NumericSpecialization::default()).unwrap();
        for (arguments, expected) in [
            [whole(-1), double(0.5)],
            [double(2.0), whole(2)],
            [whole(3), whole(2)],
        ]
        .iter()
        .zip(expected)
        {
            let exit = run(&function, arguments);
            assert_eq!((exit.kind, exit.tag), (i64::from(EXIT_DONE), i64::from(JS_TAG_BOOL)), "{opcode}");
            assert_eq!(exit.payload as i32, expected, "{opcode}");
        }
    }
}

/// An operation without scalar values; its operands are the arguments.
fn plain(opcode: &str, operands: u16) -> Program {
    let mut program = Program::new(operands, 0, (0..operands).map(argument).collect());
    program.block(0, &[], false, &[]);
    program.guard(0, 0, false);
    for index in 0..operands {
        program.op(u32::from(index) + 1, &format!("get_arg{index}"), 0, 1, &[]);
    }
    program.op(3, opcode, operands, 1, &[]).deopt_guard = Some(3);
    program.op(4, "return", 1, 0, &[]);
    program
}

#[test]
fn remainders_equality_and_unary_operations_are_computed() {
    let lower = |opcode, operands| plain(opcode, operands).lower(&NumericSpecialization::default()).unwrap();
    let exit = run(&lower("mod", 2), &[whole(17), whole(5)]);
    assert_eq!((exit.kind, exit.payload as i32, exit.tag), (i64::from(EXIT_DONE), 2, i64::from(JS_TAG_INT)));
    let exit = run(&lower("strict_eq", 2), &[whole(4), double(4.0)]);
    assert_eq!((exit.kind, exit.payload as i32, exit.tag), (i64::from(EXIT_DONE), 1, i64::from(JS_TAG_BOOL)));
    let exit = run(&lower("strict_neq", 2), &[whole(4), whole(5)]);
    assert_eq!((exit.kind, exit.payload as i32, exit.tag), (i64::from(EXIT_DONE), 1, i64::from(JS_TAG_BOOL)));
    let exit = run(&lower("neg", 1), &[whole(4)]);
    assert_eq!((exit.kind, exit.payload as i32, exit.tag), (i64::from(EXIT_DONE), -4, i64::from(JS_TAG_INT)));
    let exit = run(&lower("not", 1), &[whole(4)]);
    assert_eq!((exit.kind, exit.payload as i32, exit.tag), (i64::from(EXIT_DONE), -5, i64::from(JS_TAG_INT)));
}

/// An object with one field, whose shape is as observed.
fn object_scene(base: i64, generation: i64, payload: i64, tag: i64) -> Scene {
    let mut scene = scene();
    scene.words = vec![
        (OBJECT, base + i64::from(SHAPE)),
        (SHAPE + 8, generation),
        (OBJECT + 16, base + i64::from(PROPERTIES)),
        (PROPERTIES + 16, payload),
        (PROPERTIES + 24, tag),
    ];
    scene
}

fn observed(base: i64, pc: u32) -> NumericSpecialization {
    let mut specialization = NumericSpecialization::default();
    specialization.arguments = vec![EntryRepresentation::Any];
    specialization.properties.insert(
        pc,
        vec![ShapeObservation {
            shape_identity: (base + i64::from(SHAPE)) as u64,
            shape_generation: 9,
            property_offset: 1,
            prototype_identity: 0,
            prototype_generation: 0,
            accessor: false,
            writable: true,
            value: ObservedType::Int32,
        }],
    );
    specialization
}

#[test]
fn a_field_is_read_where_the_shape_is_as_observed() {
    let base = frame_address();
    let mut program = plain("get_field", 1);
    program.ir.nodes[2].bytes = vec![0, 1, 0, 0, 0];
    let function = program.lower(&observed(base, 3)).unwrap();
    let object = (base + i64::from(OBJECT), i64::from(JS_TAG_OBJECT));
    let (exit, _) = object_scene(base, 9, 42, i64::from(JS_TAG_INT)).run(&function, &[object], 0);
    assert_eq!((exit.kind, exit.payload, exit.tag), (i64::from(EXIT_DONE), 42, i64::from(JS_TAG_INT)));
    for scene in [
        object_scene(base, 8, 42, i64::from(JS_TAG_INT)),
        object_scene(base, 9, 42, i64::from(JS_TAG_UNDEFINED)),
    ] {
        let (exit, _) = scene.run(&function, &[object], 0);
        assert_eq!((exit.kind, exit.map), (i64::from(EXIT_DEOPT), 4));
    }
    let (exit, _) = object_scene(base, 9, 42, i64::from(JS_TAG_INT)).run(&function, &[whole(1)], 0);
    assert_eq!((exit.kind, exit.map), (i64::from(EXIT_DEOPT), 4));
}

/// function(o){o.x=7}
fn field_store() -> Program {
    let mut program = Program::new(1, 0, vec![argument(0)]);
    program.block(0, &[], false, &[]);
    program.guard(0, 0, false);
    program.op(1, "get_arg0", 0, 1, &[]);
    program.op(2, "push_7", 0, 1, &[]);
    let node = program.op(3, "put_field", 2, 0, &[]);
    node.deopt_guard = Some(3);
    node.bytes = vec![0, 1, 0, 0, 0];
    program.op(8, "return_undef", 0, 0, &[]);
    program
}

#[test]
fn a_field_is_written_only_where_the_shape_is_as_observed() {
    let base = frame_address();
    let function = field_store().lower(&observed(base, 3)).unwrap();
    let object = (base + i64::from(OBJECT), i64::from(JS_TAG_OBJECT));
    let (exit, field) = object_scene(base, 9, 42, i64::from(JS_TAG_INT)).run(&function, &[object], PROPERTIES + 16);
    assert_eq!((exit.kind, exit.tag, field), (i64::from(EXIT_DONE), i64::from(JS_TAG_UNDEFINED), 7));
    let (exit, field) = object_scene(base, 8, 42, i64::from(JS_TAG_INT)).run(&function, &[object], PROPERTIES + 16);
    assert_eq!((exit.kind, field), (i64::from(EXIT_DEOPT), 42));
}

fn array_scene(base: i64) -> Scene {
    let mut scene = scene();
    scene.words = vec![
        (OBJECT + 24, 1),
        (OBJECT + 32, 2),
        (OBJECT + 40, 2),
        (OBJECT + 48, base + i64::from(ELEMENTS)),
        (ELEMENTS, 11),
        (ELEMENTS + 8, i64::from(JS_TAG_INT)),
        (ELEMENTS + 16, 22),
        (ELEMENTS + 24, i64::from(JS_TAG_INT)),
    ];
    scene
}

#[test]
fn an_element_is_read_within_bounds() {
    let base = frame_address();
    let mut specialization = NumericSpecialization::default();
    specialization.arguments = vec![EntryRepresentation::Any, EntryRepresentation::Int32];
    specialization.arrays.push(ArrayFeedback {
        function: FunctionKey { id: 1, generation: 1 },
        pc: 3,
        access: ArrayAccess::Load,
        only_mode: Some(ArrayMode::Packed),
        can_specialize: true,
    });
    let function = plain("get_array_el", 2).lower(&specialization).unwrap();
    let array = (base + i64::from(OBJECT), i64::from(JS_TAG_OBJECT));
    for (index, expected) in [(0, 11), (1, 22)] {
        let (exit, _) = array_scene(base).run(&function, &[array, whole(index)], 0);
        assert_eq!((exit.kind, exit.payload, exit.tag), (i64::from(EXIT_DONE), expected, i64::from(JS_TAG_INT)));
    }
    for index in [2, -1] {
        let (exit, _) = array_scene(base).run(&function, &[array, whole(index)], 0);
        assert_eq!((exit.kind, exit.map), (i64::from(EXIT_DEOPT), 4));
    }
}

fn called(base: i64) -> CallSpecializationKey {
    CallSpecializationKey {
        callee: FunctionKey { id: 2, generation: 1 },
        object_identity: (base + i64::from(OBJECT)) as u64,
        bytecode_identity: 77,
        arguments: vec![FeedbackRepresentation::Int32],
        result: FeedbackRepresentation::Int32,
    }
}

/// function(f){return f(7)}
fn direct_caller(base: i64, entry: i64) -> (Program, NumericSpecialization) {
    let mut program = Program::new(1, 0, vec![argument(0), ScalarValue::Int32(7), ScalarValue::Opaque]);
    program.proven = vec![None; 3];
    program.block(0, &[], false, &[(FrameSlot::Argument(0), 0)]);
    program.guard(0, 0, false);
    program.op(1, "get_arg0", 0, 1, &[]);
    program.op(2, "push_7", 0, 1, &[1]);
    program.op(3, "call1", 2, 1, &[2]).deopt_guard = Some(3);
    *program.scalar_nodes.last_mut().unwrap() = ScalarNode {
        frame: Some(ScalarFrame { pc: 3, arguments: vec![0], locals: vec![], stack: vec![0, 1] }),
        operation: None,
        checks: vec![],
    };
    *program.calls.last_mut().unwrap() = Some(SemanticCall {
        site: CallSite { target: 0, receiver: None, arguments: vec![1] },
        frame_state_node: 3,
        frame_region: None,
        inline: None,
    });
    program.op(6, "return", 1, 0, &[]);
    program.direct_calls.insert(3, DirectCallSite { call: called(base), entry: entry as u64 });
    let mut specialization = NumericSpecialization::default();
    specialization.arguments = vec![EntryRepresentation::Any];
    specialization.calls.insert(3, called(base));
    (program, specialization)
}

#[test]
fn a_known_callee_is_entered_directly() {
    let base = frame_address();
    let (program, specialization) = direct_caller(base, entry_address());
    let function = program.lower(&specialization).unwrap();
    let callee = (base + i64::from(OBJECT), i64::from(JS_TAG_OBJECT));
    let mut known = scene();
    known.words = vec![(OBJECT + 8, 77)];
    let (exit, _) = known.run(&function, &[callee], 0);
    assert_eq!((exit.kind, exit.payload as i32, exit.tag), (i64::from(EXIT_DONE), 8, i64::from(JS_TAG_INT)));
    let mut other = scene();
    other.words = vec![(OBJECT + 8, 78)];
    assert_eq!(other.run(&function, &[callee], 0).0.kind, i64::from(EXIT_DEOPT));
    assert_eq!(known.run(&function, &[whole(1)], 0).0.kind, i64::from(EXIT_DEOPT));
    known.entered = 1;
    assert_eq!(known.run(&function, &[callee], 0).0.kind, i64::from(EXIT_DEOPT));
}

#[test]
fn a_known_callee_is_computed_in_place() {
    let base = frame_address();
    let (mut program, specialization) = direct_caller(base, 0);
    program.direct_calls.clear();
    program.ir.values.push(ScalarValue::Int32(1));
    program.ir.values.push(ScalarValue::Binary);
    program.proven = vec![None; 5];
    // function(x){return x+1}
    program.calls[3].as_mut().unwrap().inline = Some(ScalarRegion {
        object_identity: (base + i64::from(OBJECT)) as u64,
        bytecode_identity: 77,
        arguments: vec![FeedbackRepresentation::Int32],
        steps: vec![
            RegionStep { value: 3, op: StepOp::Int32(1), frame: None },
            RegionStep {
                value: 4,
                op: StepOp::Binary { op: ScalarBinaryOp::Add, lhs: 1, rhs: 3 },
                frame: Some(StepFrame { parent: Some(3), arguments: vec![1], stack: vec![1, 3] }),
            },
        ],
        result: 4,
    });
    let function = program.lower(&specialization).unwrap();
    let callee = (base + i64::from(OBJECT), i64::from(JS_TAG_OBJECT));
    let mut known = scene();
    known.words = vec![(OBJECT + 8, 77)];
    let (exit, _) = known.run(&function, &[callee], 0);
    assert_eq!((exit.kind, exit.payload as i32, exit.tag), (i64::from(EXIT_DONE), 8, i64::from(JS_TAG_INT)));
    known.words = vec![(OBJECT + 8, 78)];
    let (exit, _) = known.run(&function, &[callee], 0);
    assert_eq!((exit.kind, exit.map), (i64::from(EXIT_DEOPT), 4));
}

/// function(o){o.x=7;return o.x}, with the field in a variable
fn promoted(base: i64, boundary: PropertyBoundary) -> (Program, NumericSpecialization) {
    let specialization = observed(base, 3);
    let mut program = field_store();
    program.op(9, "get_arg0", 0, 1, &[]);
    let node = program.op(10, "get_field", 1, 1, &[]);
    node.deopt_guard = Some(10);
    node.bytes = vec![0, 1, 0, 0, 0];
    program.op(15, "return", 1, 0, &[]);
    program.ir.nodes[4].kind = OptimizedNodeKind::Bytecode { opcode: "nop".to_owned() };
    program.candidates.push(PropertyCandidate { argument: 0, atom: 1, observation: specialization.properties[&3][0] });
    program.accesses[3] = Some(PropertyAccessPlan { candidate: 0, store: true, aliases: vec![] });
    program.accesses[6] = Some(PropertyAccessPlan { candidate: 0, store: false, aliases: vec![] });
    program.boundaries[7] = boundary;
    (program, specialization)
}

#[test]
fn a_promoted_field_is_written_back_at_a_boundary() {
    let base = frame_address();
    let object = (base + i64::from(OBJECT), i64::from(JS_TAG_OBJECT));
    for (boundary, stored) in
        [(PropertyBoundary::FlushInvalidate, 7), (PropertyBoundary::Flush, 7), (PropertyBoundary::Keep, 42)]
    {
        let (program, specialization) = promoted(base, boundary);
        let function = program.lower(&specialization).unwrap();
        let scene = object_scene(base, 9, 42, i64::from(JS_TAG_INT));
        let (exit, field) = scene.run(&function, &[object], PROPERTIES + 16);
        assert_eq!((exit.kind, exit.payload as i32, exit.tag), (i64::from(EXIT_DONE), 7, i64::from(JS_TAG_INT)));
        assert_eq!(field, stored);
        let (exit, field) = object_scene(base, 8, 42, i64::from(JS_TAG_INT)).run(&function, &[object], PROPERTIES + 16);
        assert_eq!((exit.kind, exit.map, field), (i64::from(EXIT_DEOPT), 4, 42));
    }
}
