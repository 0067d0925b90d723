use cranelift_codegen::data_value::DataValue;
use cranelift_codegen::ir::{
    types, AbiParam, ExtFuncData, ExternalName, Function, InstBuilder, MemFlags, Signature, StackSlotData, StackSlotKind,
    UserFuncName,
};
use cranelift_codegen::isa::CallConv;
use cranelift_frontend::{FunctionBuilder, FunctionBuilderContext};
use cranelift_interpreter::environment::FunctionStore;
use cranelift_interpreter::interpreter::{Interpreter, InterpreterState};
use cranelift_interpreter::step::ControlFlow;
use tier2::assemble::assemble;
use tier2::bool_leaf::LeafBlock;
use tier2::clif::Passed;
use tier2::code::{BinaryOp, Code, ConvertOp, FloatCc, FloatOp, FloatUnaryOp, Inst, IntCc, Ty, UnaryOp};
use tier2::control::CompileFailure;
use tier2::direct_call::{lower_direct_call_machine, DirectCallee};
use tier2::direct_leaf::{lower_target_only_linked_leaf, LeafEntry};
use tier2::exits::flush;
use tier2::inline_frames::InlineOp;
use tier2::lower_values::{checked_binary, element_address, opt_define, opt_store, FrameBinaryOp, OptPair};
use tier2::property_cache::{PropertyAccessPlan, PropertyCache, PropertyCandidate};
use tier2::provenance::OptProvenance;
use tier2::qjs::{JS_TAG_BOOL, JS_TAG_INT, JS_TAG_OBJECT};
use tier2::runtime::{
    BoundedSignature, FeedbackRepresentation, FunctionKey, Instruction, ObservedType, ShapeObservation, TaggedValue,
    VerifiedFunction,
};

fn plain(types: &[Ty]) -> Vec<Passed> {
    types.iter().map(|ty| Passed::Plain(*ty)).collect()
}

fn compiled(code: &Code, params: &[Ty], results: &[Ty]) -> Function {
    let function = assemble(code, &plain(params), &results.to_vec(), CallConv::SystemV).expect("assembled code");
    let flags = cranelift_codegen::settings::Flags::new(cranelift_codegen::settings::builder());
    cranelift_codegen::verify_function(&function, &flags).expect("well-formed function");
    function
}

fn run(function: &Function, arguments: &[DataValue]) -> Vec<DataValue> {
    let mut store = FunctionStore::default();
    store.add("%main".to_string(), function);
    let state = InterpreterState::default().with_function_store(store);
    match Interpreter::new(state).call_by_name("%main", arguments).expect("run") {
        ControlFlow::Return(values) => values.to_vec(),
        other => panic!("{other:?}"),
    }
}

/// Calls `inner` with the address of a memory cell in front of the arguments,
/// and answers its results and what the cell holds then.
fn run_with_memory(inner: &Function, memory: &[DataValue], address_at: usize, arguments: &[DataValue]) -> (Vec<DataValue>, Vec<DataValue>) {
    let mut signature = Signature::new(CallConv::SystemV);
    for argument in arguments {
        signature.params.push(AbiParam::new(argument.ty()));
    }
    signature.returns = inner.signature.returns.clone();
    for value in memory {
        signature.returns.push(AbiParam::new(value.ty()));
    }
    let mut outer = Function::with_name_signature(UserFuncName::testcase("main"), signature);
    let mut context = FunctionBuilderContext::new();
    let mut builder = FunctionBuilder::new(&mut outer, &mut context);
    let entry = builder.create_block();
    builder.append_block_params_for_function_params(entry);
    builder.switch_to_block(entry);
    let slot = builder.create_sized_stack_slot(StackSlotData::new(StackSlotKind::ExplicitSlot, 32, 3));
    let mut offset = 0;
    for value in memory {
        let initial = match value {
            DataValue::I32(x) => builder.ins().iconst(types::I32, i64::from(*x)),
            DataValue::I64(x) => builder.ins().iconst(types::I64, *x),
            other => panic!("{other:?}"),
        };
        builder.ins().stack_store(initial, slot, offset);
        offset += value.ty().bytes() as i32;
    }
    let address = builder.ins().stack_addr(types::I64, slot, 0);
    let mut values = builder.block_params(entry).to_vec();
    values.insert(address_at, address);
    let callee = builder.import_signature(inner.signature.clone());
    let callee = builder.import_function(ExtFuncData {
        name: ExternalName::testcase("inner"),
        signature: callee,
        colocated: true,
    });
    let call = builder.ins().call(callee, &values);
    let mut results = builder.inst_results(call).to_vec();
    let answered = results.len();
    let mut offset = 0;
    for value in memory {
        results.push(builder.ins().load(value.ty(), MemFlags::new(), address, offset));
        offset += value.ty().bytes() as i32;
    }
    builder.ins().return_(&results);
    builder.seal_all_blocks();
    builder.finalize();
    let mut store = FunctionStore::default();
    store.add("%main".to_string(), &outer);
    store.add("%inner".to_string(), inner);
    let state = InterpreterState::default().with_function_store(store);
    let values = match Interpreter::new(state).call_by_name("%main", arguments).expect("run") {
        ControlFlow::Return(values) => values.to_vec(),
        other => panic!("{other:?}"),
    };
    let (status, rest) = values.split_at(answered);
    (status.to_vec(), rest.to_vec())
}

fn bounded(function: FunctionKey, arguments: &[FeedbackRepresentation], result: FeedbackRepresentation) -> BoundedSignature {
    BoundedSignature { function, arguments: arguments.to_vec(), result }
}

fn instruction(pc: u32, name: &str, bytes: Vec<u8>) -> Instruction {
    Instruction { pc, name: name.to_string(), bytes, branch_target: None }
}

fn function(arg_count: u16, instructions: Vec<Instruction>) -> VerifiedFunction {
    VerifiedFunction {
        key: FunctionKey { id: 11, generation: 1 },
        instructions,
        arg_count,
        local_count: 0,
        stack_size: 2,
        retained_bytes: 256,
        has_exceptions: false,
        constants: vec![],
        has_loop: false,
    }
}

fn integer(value: i32) -> InlineOp {
    InlineOp::Push(TaggedValue { payload: value as u32 as u64, tag: i64::from(JS_TAG_INT) })
}

// (function(object, value){return value+1})
fn increment() -> (VerifiedFunction, BoundedSignature, Vec<InlineOp>) {
    let verified = function(
        2,
        vec![
            instruction(0, "get_arg1", vec![0]),
            instruction(1, "push_1", vec![0]),
            instruction(2, "add", vec![0]),
            instruction(3, "return", vec![0]),
        ],
    );
    let signature = bounded(
        verified.key,
        &[FeedbackRepresentation::HeapRef, FeedbackRepresentation::Int32],
        FeedbackRepresentation::Int32,
    );
    let ops = vec![InlineOp::GetArgument(1), integer(1), InlineOp::Binary(FrameBinaryOp::Add), InlineOp::Return];
    (verified, signature, ops)
}

fn leaf_function(entry: &LeafEntry) -> Function {
    compiled(&entry.code, &entry.params, &[Ty::I32])
}

fn invoke(entry: &LeafEntry, output: i32, arguments: &[DataValue]) -> (i32, i32) {
    let (status, memory) = run_with_memory(&leaf_function(entry), &[DataValue::I32(output)], 0, arguments);
    match (&status[..], &memory[..]) {
        ([DataValue::I32(status)], [DataValue::I32(output)]) => (*status, *output),
        other => panic!("{other:?}"),
    }
}

#[test]
fn heapref_argument_leaf_executes_without_a_frame_or_helper() {
    let (verified, signature, ops) = increment();
    assert_eq!(signature.arguments, [FeedbackRepresentation::HeapRef, FeedbackRepresentation::Int32]);
    let entry = lower_target_only_linked_leaf(&verified, &signature, 1, &ops, None).expect("target-only linked leaf");
    let clif = leaf_function(&entry).to_string();
    assert!(clif.contains("(i64, i64, i32) -> i32"), "{clif}");
    assert!(!clif.contains("call_indirect"), "{clif}");
    assert_eq!(invoke(&entry, -1, &[DataValue::I64(0x1234), DataValue::I32(41)]), (0, 42));
}

#[test]
fn overflow_returns_miss_without_committing_output() {
    let (verified, signature, ops) = increment();
    let entry = lower_target_only_linked_leaf(&verified, &signature, 1, &ops, None).expect("target-only linked leaf");
    let (status, output) = invoke(&entry, 77, &[DataValue::I64(0x1234), DataValue::I32(i32::MAX)]);
    assert_eq!(status, 1, "miss must select the caller's generic CALL block");
    assert_eq!(output, 77, "a miss must not expose a partial result");
}

#[test]
fn int32_multiply_negative_zero_returns_miss() {
    // (function(object, left, right){return left*right})
    let verified = function(
        3,
        vec![
            instruction(0, "get_arg1", vec![0]),
            instruction(1, "get_arg2", vec![0]),
            instruction(2, "mul", vec![0]),
            instruction(3, "return", vec![0]),
        ],
    );
    let signature = bounded(
        verified.key,
        &[FeedbackRepresentation::HeapRef, FeedbackRepresentation::Int32, FeedbackRepresentation::Int32],
        FeedbackRepresentation::Int32,
    );
    let ops = vec![
        InlineOp::GetArgument(1),
        InlineOp::GetArgument(2),
        InlineOp::Binary(FrameBinaryOp::Mul),
        InlineOp::Return,
    ];
    let entry = lower_target_only_linked_leaf(&verified, &signature, 1, &ops, None).expect("target-only linked leaf");
    let (status, output) = invoke(&entry, 77, &[DataValue::I64(0x1234), DataValue::I32(-1), DataValue::I32(0)]);
    assert_eq!(status, 1, "-0 needs the generic JavaScript multiply path");
    assert_eq!(output, 77, "a miss must not expose Int32 zero");
    assert_eq!(
        invoke(&entry, 77, &[DataValue::I64(0x1234), DataValue::I32(-6), DataValue::I32(7)]),
        (0, -42)
    );
}

#[test]
fn heapref_link_can_return_a_guarded_bool_without_a_frame() {
    // (function(object, enabled){return enabled})
    let verified = function(2, vec![instruction(0, "get_arg1", vec![0]), instruction(1, "return", vec![0])]);
    let signature = bounded(
        verified.key,
        &[FeedbackRepresentation::HeapRef, FeedbackRepresentation::Bool],
        FeedbackRepresentation::Bool,
    );
    assert_eq!(signature.result, FeedbackRepresentation::Bool);
    let ops = vec![InlineOp::GetArgument(1), InlineOp::Return];
    let entry =
        lower_target_only_linked_leaf(&verified, &signature, 1, &ops, None).expect("target-only linked bool leaf");
    assert_eq!(invoke(&entry, -1, &[DataValue::I64(0x1234), DataValue::I32(1)]), (0, 1));
    assert_eq!(invoke(&entry, 1, &[DataValue::I64(0x1234), DataValue::I32(0)]), (0, 0));
}

#[test]
fn oversized_straight_line_leaf_is_rejected_before_codegen() {
    // (function(object, value){return value+1+1...}) with 130 additions
    let mut instructions = vec![instruction(0, "get_arg1", vec![0])];
    let mut ops = vec![InlineOp::GetArgument(1)];
    for k in 0..130 {
        instructions.push(instruction(2 * k + 1, "push_1", vec![0]));
        instructions.push(instruction(2 * k + 2, "add", vec![0]));
        ops.push(integer(1));
        ops.push(InlineOp::Binary(FrameBinaryOp::Add));
    }
    instructions.push(instruction(261, "return", vec![0]));
    ops.push(InlineOp::Return);
    let verified = function(2, instructions);
    assert!(verified.instructions.len() > 128);
    let signature = bounded(
        verified.key,
        &[FeedbackRepresentation::HeapRef, FeedbackRepresentation::Int32],
        FeedbackRepresentation::Int32,
    );
    assert_eq!(
        lower_target_only_linked_leaf(&verified, &signature, 1, &ops, None).expect_err("oversized target-only leaf"),
        CompileFailure::ResourceLimit
    );
}

fn callee(function: VerifiedFunction) -> DirectCallee {
    DirectCallee { function, blocks: vec![], ops: vec![] }
}

#[test]
fn direct_entries_on_integers_answer_or_miss() {
    // (function(a, b){return a - b})
    let verified = function(
        2,
        vec![
            instruction(0, "get_arg0", vec![0]),
            instruction(1, "get_arg1", vec![0]),
            instruction(2, "sub", vec![0]),
            instruction(3, "return", vec![0]),
        ],
    );
    let signature = bounded(
        verified.key,
        &[FeedbackRepresentation::Int32, FeedbackRepresentation::Int32],
        FeedbackRepresentation::Int32,
    );
    let entry = lower_direct_call_machine(&callee(verified), &signature, None).expect("direct entry");
    assert_eq!(invoke(&entry, 77, &[DataValue::I32(50), DataValue::I32(8)]), (0, 42));
    assert_eq!(invoke(&entry, 77, &[DataValue::I32(i32::MIN), DataValue::I32(1)]), (1, 77));
}

#[test]
fn direct_entries_miss_where_a_product_is_a_negative_zero() {
    // (function(a, b){return a * b})
    let verified = function(
        2,
        vec![
            instruction(0, "get_arg0", vec![0]),
            instruction(1, "get_arg1", vec![0]),
            instruction(2, "mul", vec![0]),
            instruction(3, "return", vec![0]),
        ],
    );
    let signature = bounded(
        verified.key,
        &[FeedbackRepresentation::Int32, FeedbackRepresentation::Int32],
        FeedbackRepresentation::Int32,
    );
    let entry = lower_direct_call_machine(&callee(verified), &signature, None).expect("direct entry");
    for (a, b, answer) in [(6, 7, (0, 42)), (0, 5, (0, 0)), (0, 0, (0, 0)), (-1, 0, (1, 77)), (0, -5, (1, 77)), (i32::MIN, 2, (1, 77))] {
        assert_eq!(invoke(&entry, 77, &[DataValue::I32(a), DataValue::I32(b)]), answer);
    }
}

#[test]
fn direct_entries_refuse_signatures_that_do_not_fit() {
    let verified = function(1, vec![instruction(0, "get_arg0", vec![0]), instruction(1, "return", vec![0])]);
    let other = bounded(FunctionKey { id: 12, generation: 1 }, &[FeedbackRepresentation::Int32], FeedbackRepresentation::Int32);
    let mixed = bounded(verified.key, &[FeedbackRepresentation::Int32], FeedbackRepresentation::Float64);
    let callee = callee(verified);
    assert_eq!(
        lower_direct_call_machine(&callee, &other, None).expect_err("another function"),
        CompileFailure::InvalidArtifact
    );
    assert_eq!(
        lower_direct_call_machine(&callee, &mixed, None).expect_err("mixed numbers"),
        CompileFailure::InvalidArtifact
    );
}

#[test]
fn direct_entries_on_doubles_add_exactly() {
    let verified = function(
        2,
        vec![
            instruction(0, "get_arg0", vec![0]),
            instruction(1, "get_arg1", vec![0]),
            instruction(2, "add", vec![0]),
            instruction(3, "push_2", vec![0]),
            instruction(4, "mul", vec![0]),
            instruction(5, "return", vec![0]),
        ],
    );
    let signature = bounded(
        verified.key,
        &[FeedbackRepresentation::Float64, FeedbackRepresentation::Float64],
        FeedbackRepresentation::Float64,
    );
    let entry = lower_direct_call_machine(&callee(verified), &signature, None).expect("direct entry");
    let arguments = [DataValue::F64(1.5f64.into()), DataValue::F64(0.25f64.into())];
    let (status, memory) = run_with_memory(&leaf_function(&entry), &[DataValue::I64(7)], 0, &arguments);
    assert_eq!(status, [DataValue::I32(0)]);
    assert_eq!(memory, [DataValue::I64(3.5f64.to_bits() as i64)]);
}

#[test]
fn truth_values_choose_between_forward_blocks() {
    // (function(enabled, value){return enabled ? value + 1 : value - 1})
    let mut branch = instruction(1, "if_false8", vec![0, 6]);
    branch.branch_target = Some(7);
    let mut join = instruction(5, "return", vec![0]);
    join.branch_target = None;
    let verified = function(
        2,
        vec![
            instruction(0, "get_arg0", vec![0]),
            branch,
            instruction(3, "get_arg1", vec![0]),
            instruction(4, "push_1", vec![0]),
            instruction(5, "add", vec![0]),
            instruction(6, "return", vec![0]),
            instruction(7, "get_arg1", vec![0]),
            instruction(8, "push_1", vec![0]),
            instruction(9, "sub", vec![0]),
            instruction(10, "return", vec![0]),
        ],
    );
    let blocks = vec![
        LeafBlock { start_pc: 0, end_pc: 3, first: 0, end: 2, successors: vec![3, 7] },
        LeafBlock { start_pc: 3, end_pc: 7, first: 2, end: 6, successors: vec![] },
        LeafBlock { start_pc: 7, end_pc: 11, first: 6, end: 10, successors: vec![] },
    ];
    let signature = bounded(
        verified.key,
        &[FeedbackRepresentation::Bool, FeedbackRepresentation::Int32],
        FeedbackRepresentation::Int32,
    );
    let callee = DirectCallee { function: verified, blocks, ops: vec![] };
    let entry = lower_direct_call_machine(&callee, &signature, None).expect("direct entry");
    assert_eq!(invoke(&entry, 77, &[DataValue::I32(1), DataValue::I32(41)]), (0, 42));
    assert_eq!(invoke(&entry, 77, &[DataValue::I32(0), DataValue::I32(43)]), (0, 42));
    assert_eq!(invoke(&entry, 77, &[DataValue::I32(0), DataValue::I32(i32::MIN)]), (1, 77));
}

fn compiled_address(stride: i64) -> Function {
    let mut code = Code::new();
    let base = code.param(0, Ty::I64);
    let index = code.param(1, Ty::I32);
    let length = code.param(2, Ty::I32);
    let access = code.new_block();
    let reject = code.new_block();
    // Reproduce the caller's contract explicitly: even a huge unsigned
    // length must not turn a negative JS integer into a legal index.
    let nonnegative = code.compare_imm(IntCc::SignedGreaterThanOrEqual, Ty::I32, index, 0);
    let below_length = code.compare(IntCc::UnsignedLessThan, Ty::I32, index, length);
    let admitted = code.binary(BinaryOp::And, Ty::I8, nonnegative, below_length);
    code.branch(admitted, access, reject);
    code.switch_to(access);
    let address = element_address(&mut code, base, index, stride);
    code.ret(vec![address]);
    code.switch_to(reject);
    let invalid = code.iconst(Ty::I64, -1);
    code.ret(vec![invalid]);
    compiled(&code, &[Ty::I64, Ty::I32, Ty::I32], &[Ty::I64])
}

fn address(function: &Function, index: i32, length: u32) -> u64 {
    let results = run(function, &[DataValue::I64(0x1000), DataValue::I32(index), DataValue::I32(length as i32)]);
    match results[..] {
        [DataValue::I64(address)] => address as u64,
        ref other => panic!("{other:?}"),
    }
}

#[test]
fn element_offsets_do_not_wrap_at_four_gibibytes() {
    for (stride, cases) in [
        (
            4,
            [
                (0x3fff_ffff, 0x1_0000_0ffc_u64),
                (0x4000_0000, 0x1_0000_1000),
                (0x7fff_ffff, 0x2_0000_0ffc),
            ],
        ),
        (
            8,
            [
                (0x1fff_ffff, 0x1_0000_0ff8),
                (0x2000_0000, 0x1_0000_1000),
                (0x7fff_ffff, 0x4_0000_0ff8),
            ],
        ),
        (
            16,
            [
                (0x0fff_ffff, 0x1_0000_0ff0),
                (0x1000_0000, 0x1_0000_1000),
                (0x7fff_ffff, 0x8_0000_0ff0),
            ],
        ),
    ] {
        let function = compiled_address(stride);
        for (index, expected) in cases {
            assert_eq!(address(&function, index, u32::MAX), expected, "stride={stride}, index={index}");
        }
        assert_eq!(address(&function, 0, 1), 0x1000);
        assert_eq!(address(&function, 1, 2), 0x1000 + stride as u64);
    }
}

#[test]
fn caller_bounds_contract_rejects_negative_and_out_of_range_indices() {
    for stride in [4, 8, 16] {
        let function = compiled_address(stride);
        for (index, length) in [
            (0, 0),
            (1, 1),
            (-1, 4),
            (-2, u32::MAX),
            (i32::MIN, u32::MAX),
        ] {
            assert_eq!(
                address(&function, index, length),
                u64::MAX,
                "stride={stride}, index={index}, length={length}"
            );
        }
    }
}

fn checked(op: FrameBinaryOp, lhs: i64, rhs: i64, tag: i64) -> (i64, i64) {
    let mut code = Code::new();
    let left = code.param(0, Ty::I64);
    let right = code.param(1, Ty::I64);
    let kind = code.param(2, Ty::I64);
    let output = code.param(3, Ty::I64);
    let failed = code.new_block();
    let zero = code.iconst(Ty::I64, 0);
    let result = checked_binary(
        &mut code,
        op,
        OptPair { payload: left, tag: zero },
        OptPair { payload: right, tag: kind },
        failed,
    )
    .unwrap();
    opt_store(&mut code, output, 0, result, Ty::I64);
    code.ret(vec![]);
    code.switch_to(failed);
    code.ret(vec![]);
    let function = compiled(&code, &[Ty::I64, Ty::I64, Ty::I64, Ty::I64], &[]);
    let arguments = [DataValue::I64(lhs), DataValue::I64(rhs), DataValue::I64(tag)];
    let (_, memory) = run_with_memory(&function, &[DataValue::I64(99), DataValue::I64(77)], 3, &arguments);
    match memory[..] {
        [DataValue::I64(payload), DataValue::I64(tag)] => (payload, tag),
        ref other => panic!("{other:?}"),
    }
}

#[test]
fn checked_inline_arithmetic_keeps_pre_instruction_state_on_failure() {
    assert_eq!(checked(FrameBinaryOp::Add, 12, 30, 0), (42, 0));
    assert_eq!(checked(FrameBinaryOp::Add, i64::from(i32::MAX), 1, 0), (99, 77));
    assert_eq!(checked(FrameBinaryOp::Add, 12, 30, i64::from(JS_TAG_OBJECT)), (99, 77));
    assert_eq!(checked(FrameBinaryOp::Mul, 0, -1, 0), (99, 77));
}

#[test]
fn checked_inline_arithmetic_preserves_int32_and_boolean_semantics() {
    for (op, lhs, rhs, want) in [
        (FrameBinaryOp::Sub, 42, 30, (12, 0)),
        (FrameBinaryOp::Sub, i64::from(i32::MIN), 1, (99, 77)),
        (FrameBinaryOp::Mul, -6, 7, (-42, 0)),
        (FrameBinaryOp::Mul, i64::from(i32::MIN), -1, (99, 77)),
        (FrameBinaryOp::Mul, -1, 0, (99, 77)),
        (FrameBinaryOp::BitAnd, -1, 7, (7, 0)),
        (FrameBinaryOp::BitOr, 8, 7, (15, 0)),
        (FrameBinaryOp::BitXor, 15, 7, (8, 0)),
        (FrameBinaryOp::LessThan, -1, 0, (1, i64::from(JS_TAG_BOOL))),
        (FrameBinaryOp::GreaterThanOrEqual, -1, 0, (0, i64::from(JS_TAG_BOOL))),
        (FrameBinaryOp::StrictEqual, 7, 7, (1, i64::from(JS_TAG_BOOL))),
        (FrameBinaryOp::StrictNotEqual, 7, 7, (0, i64::from(JS_TAG_BOOL))),
        // The JSValue integer payload is an int32 union member; upper bits
        // are not semantic. Treating it as a full i64 changes this result.
        (FrameBinaryOp::Add, 0x1234_5678_0000_0007, 1, (8, 0)),
    ] {
        assert_eq!(checked(op, lhs, rhs, 0), want, "{op:?} {lhs} {rhs}");
    }
}

fn candidate() -> PropertyCandidate {
    PropertyCandidate {
        argument: 0,
        atom: 1,
        observation: ShapeObservation {
            shape_identity: 123,
            shape_generation: 1,
            property_offset: 0,
            prototype_identity: 0,
            prototype_generation: 0,
            accessor: false,
            writable: true,
            value: ObservedType::Int32,
        },
    }
}

fn compiled_flush(twice: bool) -> Function {
    let mut code = Code::new();
    let field = code.param(0, Ty::I64);
    let pending = code.param(1, Ty::I8);
    let cache = PropertyCache::from_candidates(&mut code, &vec![candidate()]);
    let entry = cache.entries[0];
    code.def_var(entry.data, field);
    code.def_var(entry.dirty, pending);
    let yes = code.iconst(Ty::I8, 1);
    code.def_var(entry.valid, yes);
    let payload = code.iconst(Ty::I64, 42);
    let tag = code.iconst(Ty::I64, i64::from(JS_TAG_INT));
    opt_define(&mut code, entry.value, OptPair { payload, tag });
    flush(&mut code, &cache.entries);
    if twice {
        // A second flush must not replay a value already committed.
        let changed = code.iconst(Ty::I64, 99);
        code.store(Ty::I64, changed, field, 0);
        flush(&mut code, &cache.entries);
    }
    let dirty = code.use_var(entry.dirty, Ty::I8);
    code.ret(vec![dirty]);
    compiled(&code, &[Ty::I64, Ty::I8], &[Ty::I8])
}

fn flushed(function: &Function, pending: i8) -> (DataValue, [i64; 2]) {
    let (status, memory) =
        run_with_memory(function, &[DataValue::I64(7), DataValue::I64(8)], 0, &[DataValue::I8(pending)]);
    match memory[..] {
        [DataValue::I64(payload), DataValue::I64(tag)] => (status[0].clone(), [payload, tag]),
        ref other => panic!("{other:?}"),
    }
}

#[test]
fn flush_commits_only_dirty_values_and_clears_dirty_flag() {
    let function = compiled_flush(false);
    // The untouched/zero-trip state must not access its cached address.
    assert_eq!(run(&function, &[DataValue::I64(0), DataValue::I8(0)]), [DataValue::I8(0)]);
    assert_eq!(flushed(&function, 0), (DataValue::I8(0), [7, 8]));
    assert_eq!(flushed(&function, 1), (DataValue::I8(0), [42, i64::from(JS_TAG_INT)]));
}

#[test]
fn repeated_flush_does_not_replay_a_committed_store() {
    let function = compiled_flush(true);
    assert_eq!(flushed(&function, 1), (DataValue::I8(0), [99, i64::from(JS_TAG_INT)]));
}

#[test]
fn cache_access_requires_borrowed_roots_and_rejects_owned_stack_values() {
    let mut code = Code::new();
    let cache = PropertyCache::from_candidates(&mut code, &vec![candidate()]);
    let load = PropertyAccessPlan { candidate: 0, store: false, aliases: vec![] };
    let store = PropertyAccessPlan { candidate: 0, store: true, aliases: vec![] };
    assert!(cache.can_emit_access(&load, 1, &vec![OptProvenance::Argument(0)]));
    assert!(cache.can_emit_access(
        &store,
        2,
        &vec![OptProvenance::Local(0), OptProvenance::ImmediatePrimitive]
    ));
    for source in [OptProvenance::OwnedSlot, OptProvenance::Unknown] {
        assert!(!cache.can_emit_access(&load, 1, &vec![source]));
        assert!(!cache.can_emit_access(&load, 2, &vec![source, OptProvenance::Argument(0)]));
        assert!(!cache.can_emit_access(&store, 2, &vec![OptProvenance::Argument(0), source]));
    }
    assert!(!cache.can_emit_access(&load, 0, &vec![]));
    assert!(!cache.can_emit_access(&store, 1, &vec![OptProvenance::Argument(0)]));
    assert!(!cache.can_emit_access(&store, usize::MAX, &vec![]));
}

#[test]
fn code_that_does_not_belong_where_it_stands_is_refused() {
    let mut open = Code::new();
    let _ = open.iconst(Ty::I32, 1);
    assert_eq!(
        assemble(&open, &vec![], &vec![], CallConv::SystemV).expect_err("an open block"),
        CompileFailure::InvalidArtifact
    );
    let mut mixed = Code::new();
    let narrow = mixed.iconst(Ty::I32, 1);
    let wide = mixed.iconst(Ty::I64, 1);
    let _ = mixed.binary(BinaryOp::Add, Ty::I64, narrow, wide);
    mixed.ret(vec![]);
    assert_eq!(
        assemble(&mixed, &vec![], &vec![], CallConv::SystemV).expect_err("mixed types"),
        CompileFailure::InvalidArtifact
    );
    let mut behind = Code::new();
    behind.ret(vec![]);
    behind.push(Inst::Const { ty: Ty::I32, imm: 3 });
    assert_eq!(
        assemble(&behind, &vec![], &vec![], CallConv::SystemV).expect_err("code behind a return"),
        CompileFailure::InvalidArtifact
    );
}

#[test]
fn code_that_runs_out_of_numbers_is_refused() {
    let with_variables = |count: usize| {
        let mut code = Code::new();
        for _ in 0..count {
            code.push(Inst::NewVariable { ty: Ty::I32 });
        }
        code.ret(vec![]);
        assemble(&code, &vec![], &vec![], CallConv::SystemV)
    };
    assert!(with_variables(0x8000).is_ok());
    assert_eq!(with_variables(0x8001).expect_err("too many variables"), CompileFailure::ResourceLimit);
    let with_parameters = |count: usize| {
        let mut code = Code::new();
        let block = code.new_block();
        code.ret(vec![]);
        let _ = code.switch_to(block);
        for index in 0..count {
            code.push(Inst::Param { index, ty: Ty::I32 });
        }
        code.ret(vec![]);
        assemble(&code, &vec![], &vec![], CallConv::SystemV)
    };
    assert!(with_parameters(0x8000).is_ok());
    assert_eq!(with_parameters(0x8001).expect_err("too many parameters"), CompileFailure::InvalidArtifact);
}

fn evaluated(build: impl Fn(&mut Code, usize, usize) -> usize, ty: Ty, a: i64, b: i64) -> DataValue {
    let mut code = Code::new();
    let x = code.param(0, Ty::I64);
    let y = code.param(1, Ty::I64);
    let result = build(&mut code, x, y);
    code.ret(vec![result]);
    let function = compiled(&code, &[Ty::I64, Ty::I64], &[ty]);
    run(&function, &[DataValue::I64(a), DataValue::I64(b)])[0].clone()
}

#[test]
fn integer_operations_reach_the_code_generator() {
    for (op, expected) in [
        (BinaryOp::Add, 23),
        (BinaryOp::Sub, 17),
        (BinaryOp::Mul, 60),
        (BinaryOp::And, 0),
        (BinaryOp::Or, 23),
        (BinaryOp::Xor, 23),
        (BinaryOp::Shl, 160),
        (BinaryOp::Sshr, 2),
        (BinaryOp::Ushr, 2),
        (BinaryOp::Sdiv, 6),
        (BinaryOp::Srem, 2),
    ] {
        assert_eq!(
            evaluated(|code, x, y| code.binary(op, Ty::I64, x, y), Ty::I64, 20, 3),
            DataValue::I64(expected),
            "{op:?}"
        );
    }
    assert_eq!(
        evaluated(|code, x, _| code.binary_imm(BinaryOp::Add, Ty::I64, x, -2), Ty::I64, 20, 0),
        DataValue::I64(18)
    );
    assert_eq!(
        evaluated(|code, x, _| code.unary(UnaryOp::Neg, Ty::I64, x), Ty::I64, 20, 0),
        DataValue::I64(-20)
    );
    assert_eq!(
        evaluated(|code, x, _| code.unary(UnaryOp::Not, Ty::I64, x), Ty::I64, 20, 0),
        DataValue::I64(-21)
    );
    for (op, a, b, value, flag) in [
        (BinaryOp::Add, i64::MAX, 1, i64::MIN, 1),
        (BinaryOp::Sub, 5, 3, 2, 0),
        (BinaryOp::Mul, i64::MAX, 2, -2, 1),
    ] {
        assert_eq!(
            evaluated(|code, x, y| code.overflowing(op, Ty::I64, x, y).0, Ty::I64, a, b),
            DataValue::I64(value)
        );
        assert_eq!(
            evaluated(|code, x, y| code.overflowing(op, Ty::I64, x, y).1, Ty::I8, a, b),
            DataValue::I8(flag)
        );
    }
}

#[test]
fn comparisons_choices_and_conversions_reach_the_code_generator() {
    for (cc, expected) in [
        (IntCc::Equal, 0),
        (IntCc::NotEqual, 1),
        (IntCc::SignedLessThan, 1),
        (IntCc::SignedLessThanOrEqual, 1),
        (IntCc::SignedGreaterThan, 0),
        (IntCc::SignedGreaterThanOrEqual, 0),
        (IntCc::UnsignedLessThan, 0),
    ] {
        assert_eq!(
            evaluated(|code, x, y| code.compare(cc, Ty::I64, x, y), Ty::I8, -1, 3),
            DataValue::I8(expected),
            "{cc:?}"
        );
        assert_eq!(
            evaluated(|code, x, _| code.compare_imm(cc, Ty::I64, x, 3), Ty::I8, -1, 0),
            DataValue::I8(expected),
            "{cc:?}"
        );
    }
    assert_eq!(
        evaluated(
            |code, x, y| {
                let less = code.compare(IntCc::SignedLessThan, Ty::I64, x, y);
                code.select(Ty::I64, less, x, y)
            },
            Ty::I64,
            7,
            4
        ),
        DataValue::I64(4)
    );
    assert_eq!(
        evaluated(|code, x, _| code.convert(ConvertOp::Reduce, Ty::I64, Ty::I32, x), Ty::I32, 0x1_0000_0005, 0),
        DataValue::I32(5)
    );
    for (op, expected) in [(ConvertOp::SignExtend, -1), (ConvertOp::ZeroExtend, 0xffff_ffff)] {
        assert_eq!(
            evaluated(
                |code, x, _| {
                    let low = code.convert(ConvertOp::Reduce, Ty::I64, Ty::I32, x);
                    code.convert(op, Ty::I32, Ty::I64, low)
                },
                Ty::I64,
                -1,
                0
            ),
            DataValue::I64(expected)
        );
    }
    for (op, a, expected) in [(ConvertOp::FloatFromSigned, -1, -1.0f64), (ConvertOp::FloatFromUnsigned, 3, 3.0)] {
        assert_eq!(
            evaluated(
                |code, x, _| {
                    let float = code.convert(op, Ty::I64, Ty::F64, x);
                    code.convert(ConvertOp::Bitcast, Ty::F64, Ty::I64, float)
                },
                Ty::I64,
                a,
                0
            ),
            DataValue::I64(expected.to_bits() as i64)
        );
    }
    assert_eq!(
        evaluated(
            |code, x, _| {
                let float = code.convert(ConvertOp::Bitcast, Ty::I64, Ty::F64, x);
                code.convert(ConvertOp::FloatToSigned, Ty::F64, Ty::I32, float)
            },
            Ty::I32,
            (1e20f64).to_bits() as i64,
            0
        ),
        DataValue::I32(i32::MAX)
    );
    for (op, expected) in [
        (FloatOp::Add, 8.0f64),
        (FloatOp::Sub, 7.0),
        (FloatOp::Mul, 3.75),
        (FloatOp::Div, 15.0),
    ] {
        assert_eq!(
            evaluated(
                |code, x, y| {
                    let a = code.convert(ConvertOp::Bitcast, Ty::I64, Ty::F64, x);
                    let b = code.convert(ConvertOp::Bitcast, Ty::I64, Ty::F64, y);
                    let r = code.float_binary(op, a, b);
                    code.convert(ConvertOp::Bitcast, Ty::F64, Ty::I64, r)
                },
                Ty::I64,
                7.5f64.to_bits() as i64,
                0.5f64.to_bits() as i64
            ),
            DataValue::I64(expected.to_bits() as i64)
        );
    }
    for (op, expected) in [(FloatUnaryOp::Neg, 7.5f64), (FloatUnaryOp::Trunc, -7.0)] {
        assert_eq!(
            evaluated(
                |code, _, _| {
                    let a = code.float_const((-7.5f64).to_bits() as i64);
                    let r = code.float_unary(op, a);
                    code.convert(ConvertOp::Bitcast, Ty::F64, Ty::I64, r)
                },
                Ty::I64,
                0,
                0
            ),
            DataValue::I64(expected.to_bits() as i64)
        );
    }
    for (cc, expected) in [
        (FloatCc::Equal, 0),
        (FloatCc::LessThan, 1),
        (FloatCc::LessThanOrEqual, 1),
        (FloatCc::GreaterThan, 0),
        (FloatCc::GreaterThanOrEqual, 0),
    ] {
        assert_eq!(
            evaluated(
                |code, _, _| {
                    let a = code.float_const(1.0f64.to_bits() as i64);
                    let b = code.float_const(2.0f64.to_bits() as i64);
                    code.float_compare(cc, a, b)
                },
                Ty::I8,
                0,
                0
            ),
            DataValue::I8(expected),
            "{cc:?}"
        );
    }
}

#[test]
fn slots_variables_and_block_parameters_reach_the_code_generator() {
    assert_eq!(
        evaluated(
            |code, x, y| {
                let slot = code.new_slot(16, 3);
                code.slot_store(Ty::I64, x, slot, 8);
                let address = code.slot_addr(slot, 0);
                code.store(Ty::I64, y, address, 0);
                let low = code.slot_load(Ty::I64, slot, 0);
                let high = code.load(Ty::I64, address, 8);
                code.binary(BinaryOp::Sub, Ty::I64, high, low)
            },
            Ty::I64,
            50,
            8
        ),
        DataValue::I64(42)
    );
    assert_eq!(
        evaluated(
            |code, x, y| {
                let var = code.new_variable(Ty::I64);
                code.def_var(var, x);
                let next = code.new_cold_block();
                code.jump_pair(next, x, y);
                code.switch_to(next);
                let a = code.param(0, Ty::I64);
                let b = code.param(1, Ty::I64);
                let kept = code.use_var(var, Ty::I64);
                let sum = code.binary(BinaryOp::Add, Ty::I64, a, b);
                code.binary(BinaryOp::Add, Ty::I64, sum, kept)
            },
            Ty::I64,
            20,
            2
        ),
        DataValue::I64(42)
    );
}

#[test]
fn a_result_is_what_later_instructions_read() {
    let build = |code: &mut Code, x: usize, y: usize| {
        let sum = code.push(Inst::Binary { op: BinaryOp::Add, ty: Ty::I64, a: x, b: y });
        let product = code.push(Inst::Binary { op: BinaryOp::Mul, ty: Ty::I64, a: sum, b: y });
        code.push(Inst::Binary { op: BinaryOp::Sub, ty: Ty::I64, a: product, b: sum })
    };
    // (20 + 3) * 3 - (20 + 3)
    assert_eq!(evaluated(build, Ty::I64, 20, 3), DataValue::I64(46));
}

#[test]
fn the_parameters_of_a_block_are_what_the_jump_passes() {
    let mut code = Code::new();
    let x = code.param(0, Ty::I64);
    let y = code.param(1, Ty::I64);
    let block = code.new_block();
    code.push(Inst::Jump { block, args: vec![y, x] });
    let _ = code.switch_to(block);
    let first = code.push(Inst::Param { index: 0, ty: Ty::I64 });
    let second = code.push(Inst::Param { index: 1, ty: Ty::I64 });
    let difference = code.push(Inst::Binary { op: BinaryOp::Sub, ty: Ty::I64, a: first, b: second });
    code.ret(vec![difference]);
    let function = compiled(&code, &[Ty::I64, Ty::I64], &[Ty::I64]);
    assert_eq!(run(&function, &[DataValue::I64(5), DataValue::I64(12)]), [DataValue::I64(7)]);
}

#[test]
fn a_block_is_started_at_most_once() {
    let started = |times: usize| {
        let mut code = Code::new();
        let block = code.new_block();
        code.push(Inst::Jump { block, args: vec![] });
        for _ in 0..times {
            code.enter(block);
            code.ret(vec![]);
        }
        assemble(&code, &vec![], &vec![], CallConv::SystemV)
    };
    assert!(started(1).is_ok());
    assert_eq!(started(2).expect_err("a block with two bodies"), CompileFailure::InvalidArtifact);
}

#[test]
fn direct_callees_are_well_formed_where_their_bytecode_is() {
    let numbers = |count: usize| vec![FeedbackRepresentation::Int32; count];
    let fits = |instructions: Vec<Instruction>| {
        let verified = function(1, instructions);
        let signature = bounded(verified.key, &numbers(1), FeedbackRepresentation::Int32);
        callee(verified).is_wf(&signature)
    };
    let returned = || instruction(2, "return", vec![0]);
    assert!(fits(vec![instruction(0, "get_arg0", vec![0]), returned()]));
    assert!(fits(vec![instruction(0, "push_i8", vec![0, 7]), returned()]));
    assert!(!fits(vec![instruction(0, "push_i8", vec![0]), returned()]));
    assert!(!fits(vec![instruction(0, "push_i16", vec![0, 1]), returned()]));
    assert!(!fits(vec![instruction(0, "push_i32", vec![0, 1, 2, 3]), returned()]));
    assert!(!fits(vec![instruction(0, "get_arg0", vec![0])]));
}
