//! What directly called entries compute, stated over the callee's bytecode.
use crate::bool_leaf::BlockEnd;
use crate::bool_leaf::BlockModel;
use crate::bool_leaf::BlockScan;
use crate::bool_leaf::LeafBlock;
use crate::bool_leaf::LeafScan;
use crate::bool_leaf::block_index;
use crate::bool_leaf::bool_entry;
use crate::bool_leaf::bool_outcome;
use crate::bool_leaf::bool_plan;
use crate::bool_leaf::bool_step;
use crate::bool_leaf::bool_value;
use crate::bool_leaf::cfg_wf;
use crate::bool_leaf::is_end;
use crate::bool_leaf::scan_block;
use crate::bool_leaf::scan_blocks;
use crate::code::Event;
use crate::code::FloatOp;
use crate::code::FloatUnaryOp;
use crate::code::Status;
use crate::code::Ty;
use crate::code::World;
use crate::control::CompileFailure;
use crate::direct_call::DirectCallee;
use crate::direct_call::callee_wf;
use crate::direct_call::direct_result;
use crate::direct_leaf::DirectStep;
use crate::direct_leaf::LeafEntry;
use crate::direct_leaf::LeafPlan;
use crate::direct_leaf::LinkedStep;
use crate::direct_leaf::constants_encoded;
use crate::direct_leaf::direct_plan;
use crate::direct_leaf::direct_step;
use crate::direct_leaf::direct_tail;
use crate::direct_leaf::leaf_arguments;
use crate::direct_leaf::leaf_fold;
use crate::direct_leaf::leaf_outcome;
use crate::direct_leaf::linked_entry;
use crate::direct_leaf::linked_plan;
use crate::direct_leaf::linked_step;
use crate::inline_frames::InlineOp;
use crate::leaf::LeafOp;
use crate::leaf::leaf_pops;
use crate::leaf::leaf_pushes;
use crate::leaf::leaf_step;
use crate::lower_values::FrameBinaryOp;
use crate::names::constant_encoded;
use crate::names::has_prefix;
use crate::number_laws::is_int32;
use crate::number_laws::is_negative_zero;
use crate::runtime::BoundedSignature;
use crate::runtime::FeedbackRepresentation;
use crate::runtime::Instruction;
use crate::runtime::VerifiedFunction;
use crate::runtime::first_at_meaning;
use crate::spelling::spelling;
use vstd::prelude::*;

verus! {

/// The integer that an opcode pushes: it is part of the name, or stands behind
/// the opcode, the lowest byte first, with the sign in the highest bit.
pub open spec fn literal(name: Seq<char>, bytes: Seq<u8>) -> Option<int> {
    if name == "push_minus1"@ {
        Some(-1)
    } else if name == "push_0"@ {
        Some(0)
    } else if name == "push_1"@ {
        Some(1)
    } else if name == "push_2"@ {
        Some(2)
    } else if name == "push_3"@ {
        Some(3)
    } else if name == "push_4"@ {
        Some(4)
    } else if name == "push_5"@ {
        Some(5)
    } else if name == "push_6"@ {
        Some(6)
    } else if name == "push_7"@ {
        Some(7)
    } else if name == "push_i8"@ {
        Some(high_byte(bytes[1]))
    } else if name == "push_i16"@ {
        Some(bytes[1] + 0x100 * high_byte(bytes[2]))
    } else if name == "push_i32"@ {
        Some(bytes[1] + 0x100 * bytes[2] + 0x1_0000 * bytes[3] + 0x100_0000 * high_byte(bytes[4]))
    } else {
        None
    }
}

/// A byte whose highest bit is a sign.
pub open spec fn high_byte(byte: u8) -> int {
    if byte >= 0x80 {
        byte - 0x100
    } else {
        byte as int
    }
}

/// The argument that an opcode pushes.
pub open spec fn argument(name: Seq<char>, bytes: Seq<u8>) -> Option<int> {
    if name == "get_arg0"@ {
        Some(0)
    } else if name == "get_arg1"@ {
        Some(1)
    } else if name == "get_arg2"@ {
        Some(2)
    } else if name == "get_arg3"@ {
        Some(3)
    } else if name == "get_arg"@ {
        Some(bytes[1] + 0x100 * bytes[2])
    } else {
        None
    }
}

/// What JavaScript's operators give for two Int32 where the result is one.
pub open spec fn int32_operator(name: Seq<char>, l: int, r: int) -> Option<int> {
    let exact = if name == "add"@ {
        l + r
    } else if name == "sub"@ {
        l - r
    } else if name == "mul"@ {
        l * r
    } else {
        l % (if r < 0 { -r } else { r })
    };
    if name == "mod"@ {
        if l >= 0 && r != 0 {
            Some(exact)
        } else {
            None
        }
    } else if is_int32(exact) && !(name == "mul"@ && is_negative_zero(l, r)) {
        Some(exact)
    } else {
        None
    }
}

/// What they give for two doubles.
pub open spec fn double_operator(name: Seq<char>, l: int, r: int, w: World) -> int {
    if name == "add"@ {
        (w.float_binary)(FloatOp::Add, l, r)
    } else if name == "sub"@ {
        (w.float_binary)(FloatOp::Sub, l, r)
    } else if name == "mul"@ {
        (w.float_binary)(FloatOp::Mul, l, r)
    } else {
        (w.float_binary)(FloatOp::Div, l, r)
    }
}

/// The operand stack behind an opcode on unboxed numbers, or nothing where its
/// result is no Int32.
pub open spec fn performed(name: Seq<char>, bytes: Seq<u8>, float: bool, args: Seq<int>, stack: Seq<int>, w: World) -> Option<
    Seq<int>,
> {
    let n = stack.len() as int;
    if name == "nop"@ {
        Some(stack)
    } else if literal(name, bytes) is Some {
        let x = literal(name, bytes)->Some_0;
        Some(
            stack.push(
                if float {
                    (w.float_of)(x)
                } else {
                    x
                },
            ),
        )
    } else if argument(name, bytes) is Some {
        Some(stack.push(args[argument(name, bytes)->Some_0]))
    } else if name == "neg"@ {
        let x = stack[n - 1];
        if float {
            Some(stack.take(n - 1).push((w.float_unary)(FloatUnaryOp::Neg, x)))
        } else if x != 0 && is_int32(-x) {
            Some(stack.take(n - 1).push(-x))
        } else {
            None
        }
    } else if float {
        Some(stack.take(n - 2).push(double_operator(name, stack[n - 2], stack[n - 1], w)))
    } else {
        match int32_operator(name, stack[n - 2], stack[n - 1]) {
            Some(x) => Some(stack.take(n - 2).push(x)),
            None => None,
        }
    }
}

/// What the instructions from `k` on return, or nothing where one of them has no
/// result.
pub open spec fn returned(instructions: Seq<Instruction>, k: int, float: bool, args: Seq<int>, stack: Seq<int>, w: World) -> Option<
    Seq<int>,
>
    decreases instructions.len() - k,
{
    if k >= instructions.len() {
        None
    } else if instructions[k].name@ == "return"@ {
        Some(stack)
    } else {
        match performed(instructions[k].name@, instructions[k].bytes@, float, args, stack, w) {
            Some(after) => returned(instructions, k + 1, float, args, after, w),
            None => None,
        }
    }
}

/// Every argument is read by an opcode that exists.
pub open spec fn arguments_named(instructions: Seq<Instruction>) -> bool {
    forall|k: int|
        0 <= k < instructions.len() && has_prefix((#[trigger] instructions[k]).name@, "get_arg"@) ==> argument(
            instructions[k].name@,
            instructions[k].bytes@,
        ) is Some
}

pub open spec fn all_int32(values: Seq<int>) -> bool {
    forall|k: int| 0 <= k < values.len() ==> is_int32(#[trigger] values[k])
}

/// The operations in order, from a stack.
spec fn run(ops: Seq<LeafOp>, k: int, args: Seq<int>, stack: Seq<int>, w: World) -> Option<Seq<int>>
    decreases ops.len() - k,
{
    if k >= ops.len() {
        Some(stack)
    } else {
        match leaf_step(ops[k], args, stack, w) {
            Some(after) => run(ops, k + 1, args, after, w),
            None => None,
        }
    }
}

proof fn fold_runs(ops: Seq<LeafOp>, args: Seq<int>, k: nat, w: World)
    requires
        k <= ops.len(),
    ensures
        leaf_fold(ops, args, ops.len(), w) == (match leaf_fold(ops, args, k, w) {
            Some(stack) => run(ops, k as int, args, stack, w),
            None => None,
        }),
    decreases ops.len() - k,
{
    if k < ops.len() {
        fold_runs(ops, args, k + 1, w);
    }
}

proof fn run_shifts(a: Seq<LeafOp>, b: Seq<LeafOp>, shift: int, k: int, args: Seq<int>, stack: Seq<int>, w: World)
    requires
        0 <= k,
        0 <= shift,
        b.len() == a.len() + shift,
        forall|i: int| 0 <= i < a.len() ==> #[trigger] a[i] == b[i + shift],
    ensures
        run(b, k + shift, args, stack, w) == run(a, k, args, stack, w),
    decreases a.len() - k,
{
    if k < a.len() {
        assert(a[k] == b[k + shift]);
        match leaf_step(a[k], args, stack, w) {
            Some(after) => run_shifts(a, b, shift, k + 1, args, after, w),
            None => {},
        }
    }
}

#[verifier::spinoff_prover]
#[verifier::rlimit(100)]
proof fn step_performs(name: Seq<char>, bytes: Seq<u8>, float: bool, args: Seq<int>, stack: Seq<int>, op: LeafOp, w: World)
    requires
        direct_step(name, bytes, float, args.len() as int) == Ok::<DirectStep, crate::control::CompileFailure>(DirectStep::Op(op)),
        constant_encoded(name, bytes),
        has_prefix(name, "get_arg"@) ==> argument(name, bytes) is Some,
        leaf_pops(op) <= stack.len(),
        float || all_int32(args) && all_int32(stack),
    ensures
        leaf_step(op, args, stack, w) == performed(name, bytes, float, args, stack, w),
        name != "return"@,
        !float && leaf_step(op, args, stack, w) is Some ==> all_int32(leaf_step(op, args, stack, w)->Some_0),
        leaf_step(op, args, stack, w) matches Some(after) ==> after.len() == stack.len() - leaf_pops(op) + leaf_pushes(op),
{
    spelling();
    let n = stack.len() as int;
    if op == LeafOp::IntMod {
        let l = stack[n - 2];
        let r = stack[n - 1];
        if l >= 0 && r != 0 {
            remainder(l, r);
        }
    }
    if op == LeafOp::IntMul {
        let l = stack[n - 2];
        let r = stack[n - 1];
        assert(l * r == 0 <==> l == 0 || r == 0) by (nonlinear_arith);
    }
}

proof fn remainder(l: int, r: int)
    requires
        is_int32(l),
        is_int32(r),
        l >= 0,
        r != 0,
    ensures
        l - r * crate::code::quotient(l, r) == l % (if r < 0 { -r } else { r }),
        0 <= l % (if r < 0 { -r } else { r }) <= l,
{
    let m = if r < 0 { -r } else { r };
    assert(l == m * (l / m) + l % m && 0 <= l % m <= l) by (nonlinear_arith)
        requires
            l >= 0,
            m > 0,
    ;
    assert(r * -(l / m) == -r * (l / m)) by (nonlinear_arith);
}

proof fn plan_performs(instructions: Seq<Instruction>, float: bool, k: int, args: Seq<int>, stack: Seq<int>, w: World)
    requires
        0 <= k,
        constants_encoded(instructions),
        arguments_named(instructions),
        float || all_int32(args) && all_int32(stack),
    ensures
        direct_plan(instructions, float, args.len() as int, k, stack.len() as int) matches LeafPlan::Ready(ops) ==> run(
            ops,
            0,
            args,
            stack,
            w,
        ) == returned(instructions, k, float, args, stack, w),
    decreases instructions.len() - k,
{
    let arity = args.len() as int;
    let depth = stack.len() as int;
    if k < instructions.len() {
        let name = instructions[k].name@;
        let bytes = instructions[k].bytes@;
        match direct_step(name, bytes, float, arity) {
            Ok(DirectStep::Skip) => {
                spelling();
                plan_performs(instructions, float, k + 1, args, stack, w);
            },
            Ok(DirectStep::Return) => {
                spelling();
                tails_add_nothing(instructions, float, arity, k + 1);
                assert(name == "return"@);
            },
            Ok(DirectStep::Op(op)) => {
                if depth >= leaf_pops(op) {
                    step_performs(name, bytes, float, args, stack, op, w);
                    let below = depth - leaf_pops(op) + leaf_pushes(op);
                    if let LeafPlan::Ready(rest) = direct_plan(instructions, float, arity, k + 1, below) {
                        let ops = seq![op] + rest;
                        assert(ops[0] == op);
                        if let Some(after) = leaf_step(op, args, stack, w) {
                            plan_performs(instructions, float, k + 1, args, after, w);
                            run_shifts(rest, ops, 1, 0, args, after, w);
                        }
                    }
                }
            },
            _ => {},
        }
    }
}

proof fn tails_add_nothing(instructions: Seq<Instruction>, float: bool, arity: int, k: int)
    ensures
        direct_tail(instructions, float, arity, k) matches LeafPlan::Ready(ops) ==> ops.len() == 0,
    decreases instructions.len() - k,
{
    if k < instructions.len() {
        tails_add_nothing(instructions, float, arity, k + 1);
    }
}

/// The arguments are Int32, wherever they are passed unboxed as such.
pub open spec fn integers_passed(w: World, arity: nat) -> bool {
    forall|i: int| 0 <= i < arity ==> is_int32(#[trigger] w.params[i + 1])
}

/// A direct entry on numbers stores what the callee's bytecode returns on its
/// arguments and answers zero. Where some operation has no unboxed result it
/// answers one and stores nothing.
pub proof fn direct_entries_compute_what_the_bytecode_returns(
    instructions: Seq<Instruction>,
    float: bool,
    signature: BoundedSignature,
    entry: LeafEntry,
    ops: Seq<LeafOp>,
    w: World,
)
    requires
        constants_encoded(instructions),
        arguments_named(instructions),
        direct_plan(instructions, float, signature.arguments@.len() as int, 0, 0) == LeafPlan::Ready(ops),
        linked_entry(entry, signature, ops),
        signature.result == (if float {
            FeedbackRepresentation::Float64
        } else {
            FeedbackRepresentation::Int32
        }),
        float || integers_passed(w, signature.arguments@.len()),
    ensures
        ({
            let args = Seq::new(signature.arguments@.len(), |i: int| w.params[i + 1]);
            let ty = if float { Ty::F64 } else { Ty::I32 };
            &&& entry.code.at(w) matches Status::Done { values, state }
            &&& match returned(instructions, 0, float, args, Seq::empty(), w) {
                Some(stack) => values == seq![0int] && state.trace.len() == 1 && (state.trace[0] matches Event::Store {
                    ty: stored,
                    address,
                    value,
                } && stored == ty && value == stack.last() && (address - w.params[0]) % 0x1_0000_0000_0000_0000 == 0),
                None => values == seq![1int] && state.trace.len() == 0,
            }
        }),
{
    let args = Seq::new(signature.arguments@.len(), |i: int| w.params[i + 1]);
    assert(args =~= leaf_arguments(w, signature.arguments@.len()));
    plan_performs(instructions, float, 0, args, Seq::empty(), w);
    fold_runs(ops, args, 0, w);
    assert(leaf_outcome(
        ops,
        signature.arguments@.len(),
        crate::specialized_calls::passed_type(signature.result),
        entry.code.at(w),
        w,
    ));
}

/// The block that starts at a program counter.
pub open spec fn block_from(cfg: Seq<LeafBlock>, pc: u32) -> int {
    choose|j: int| 0 <= j < cfg.len() && (#[trigger] cfg[j]).start_pc == pc
}

/// What a function of several blocks returns on Int32 and truth values, from an
/// instruction of a block on. Control only goes forward. A branch is taken by the
/// value on top of the stack; without one, control goes on in the block behind.
pub open spec fn walked(
    cfg: Seq<LeafBlock>,
    instructions: Seq<Instruction>,
    b: int,
    k: int,
    args: Seq<int>,
    stack: Seq<int>,
    w: World,
) -> Option<int>
    decreases cfg.len() - b, cfg[b].end - k,
{
    let name = instructions[k].name@;
    let onward = |pc: u32| block_from(cfg, pc);
    if k >= cfg[b].end {
        let next = onward(cfg[b].successors@[0]);
        if b < next < cfg.len() {
            walked(cfg, instructions, next, cfg[next].first as int, args, Seq::empty(), w)
        } else {
            None
        }
    } else if name == "return"@ {
        Some(stack.last())
    } else if name == "goto"@ || name == "goto8"@ || name == "goto16"@ {
        let next = onward(instructions[k].branch_target->Some_0);
        if b < next < cfg.len() {
            walked(cfg, instructions, next, cfg[next].first as int, args, Seq::empty(), w)
        } else {
            None
        }
    } else if name == "if_true"@ || name == "if_true8"@ {
        let next = if stack.last() != 0 {
            onward(instructions[k].branch_target->Some_0)
        } else {
            onward(cfg[b].end_pc)
        };
        if b < next < cfg.len() {
            walked(cfg, instructions, next, cfg[next].first as int, args, Seq::empty(), w)
        } else {
            None
        }
    } else if name == "if_false"@ || name == "if_false8"@ {
        let next = if stack.last() == 0 {
            onward(instructions[k].branch_target->Some_0)
        } else {
            onward(cfg[b].end_pc)
        };
        if b < next < cfg.len() {
            walked(cfg, instructions, next, cfg[next].first as int, args, Seq::empty(), w)
        } else {
            None
        }
    } else {
        match performed(name, instructions[k].bytes@, false, args, stack, w) {
            Some(after) => walked(cfg, instructions, b, k + 1, args, after, w),
            None => None,
        }
    }
}

proof fn indexed_block_starts_there(cfg: Seq<LeafBlock>, instructions: Seq<Instruction>, pc: u32)
    requires
        cfg_wf(cfg, instructions),
        block_index(cfg, pc) is Some,
    ensures
        block_index(cfg, pc) == Some(block_from(cfg, pc)),
        0 <= block_from(cfg, pc) < cfg.len(),
{
    let found = |i: int| cfg[i].start_pc == pc;
    first_at_meaning(found, cfg.len());
    let j = block_index(cfg, pc)->Some_0;
    assert(0 <= j < cfg.len() && cfg[j].start_pc == pc);
    let c = block_from(cfg, pc);
    if c < j {
        assert(cfg[c].start_pc < cfg[j].start_pc);
    } else if j < c {
        assert(cfg[j].start_pc < cfg[c].start_pc);
    }
}

/// What one block leaves for, from the operands that it leaves.
spec fn ended(models: Seq<BlockModel>, end: BlockEnd, args: Seq<int>, stack: Seq<int>, b: int, w: World) -> Option<int>
    decreases models.len() - b,
{
    match end {
        BlockEnd::Return => Some(stack.last()),
        BlockEnd::Goto(target) => if b < target < models.len() {
            bool_value(models, args, target as int, w)
        } else {
            None
        },
        BlockEnd::Branch { taken, otherwise } => {
            let next = if stack.last() != 0 {
                taken
            } else {
                otherwise
            };
            if b < next < models.len() {
                bool_value(models, args, next as int, w)
            } else {
                None
            }
        },
    }
}

spec fn planned(cfg: Seq<LeafBlock>, instructions: Seq<Instruction>, signature: BoundedSignature, models: Seq<BlockModel>) -> bool {
    &&& models.len() == cfg.len()
    &&& forall|b: int|
        0 <= b < cfg.len() ==> scan_block(cfg, instructions, signature, b, cfg[b].first as int, Seq::empty()) == BlockScan::Ready(
            #[trigger] models[b],
        )
}

proof fn scans_are_planned(cfg: Seq<LeafBlock>, instructions: Seq<Instruction>, signature: BoundedSignature, n: nat)
    requires
        n <= cfg.len(),
    ensures
        scan_blocks(cfg, instructions, signature, n) matches LeafScan::Ready(models) ==> models.len() == n && forall|b: int|
            0 <= b < n ==> scan_block(cfg, instructions, signature, b, cfg[b].first as int, Seq::empty()) == BlockScan::Ready(
                #[trigger] models[b],
            ),
    decreases n,
{
    if n > 0 {
        scans_are_planned(cfg, instructions, signature, (n - 1) as nat);
    }
}

#[verifier::spinoff_prover]
#[verifier::rlimit(100)]
proof fn bool_step_performs(
    instruction: Instruction,
    signature: BoundedSignature,
    types: Seq<FeedbackRepresentation>,
    args: Seq<int>,
    stack: Seq<int>,
    w: World,
)
    requires
        args.len() == signature.arguments@.len(),
        stack.len() == types.len(),
        constant_encoded(instruction.name@, instruction.bytes@),
        has_prefix(instruction.name@, "get_arg"@) ==> argument(instruction.name@, instruction.bytes@) is Some,
        all_int32(args),
        all_int32(stack),
        !is_end(instruction),
    ensures
        bool_step(instruction, signature, types) matches Ok(None) ==> performed(
            instruction.name@,
            instruction.bytes@,
            false,
            args,
            stack,
            w,
        ) == Some(stack),
        bool_step(instruction, signature, types) matches Ok(Some((op, after))) ==> {
            let left = leaf_step(op, args, stack, w);
            &&& left == performed(instruction.name@, instruction.bytes@, false, args, stack, w)
            &&& left is Some ==> left->Some_0.len() == after.len() && all_int32(left->Some_0)
        },
        bool_step(instruction, signature, types) is Ok ==> {
            let name = instruction.name@;
            &&& name != "return"@ && name != "goto"@ && name != "goto8"@ && name != "goto16"@
            &&& name != "if_true"@ && name != "if_true8"@ && name != "if_false"@ && name != "if_false8"@
        },
{
    spelling();
}

#[verifier::spinoff_prover]
#[verifier::rlimit(100)]
proof fn block_walks(
    cfg: Seq<LeafBlock>,
    instructions: Seq<Instruction>,
    signature: BoundedSignature,
    models: Seq<BlockModel>,
    b: int,
    k: int,
    types: Seq<FeedbackRepresentation>,
    args: Seq<int>,
    stack: Seq<int>,
    w: World,
)
    requires
        cfg_wf(cfg, instructions),
        cfg.len() <= usize::MAX,
        constants_encoded(instructions),
        arguments_named(instructions),
        planned(cfg, instructions, signature, models),
        args.len() == signature.arguments@.len(),
        all_int32(args),
        all_int32(stack),
        stack.len() == types.len(),
        0 <= b < cfg.len(),
        cfg[b].first <= k,
    ensures
        scan_block(cfg, instructions, signature, b, k, types) matches BlockScan::Ready(model) ==> walked(
            cfg,
            instructions,
            b,
            k,
            args,
            stack,
            w,
        ) == (match run(model.ops, 0, args, stack, w) {
            Some(left) => ended(models, model.end, args, left, b, w),
            None => None,
        }),
    decreases cfg.len() - b, 1int, cfg[b].end - k,
{
    if let BlockScan::Ready(model) = scan_block(cfg, instructions, signature, b, k, types) {
        if k >= cfg[b].end {
            let pc = cfg[b].successors@[0];
            indexed_block_starts_there(cfg, instructions, pc);
            onward_walks(cfg, instructions, signature, models, b, block_from(cfg, pc), args, w);
        } else if is_end(instructions[k]) {
            spelling();
            let name = instructions[k].name@;
            false_branches();
            if name != "return"@ {
                let pc = instructions[k].branch_target->Some_0;
                indexed_block_starts_there(cfg, instructions, pc);
                onward_walks(cfg, instructions, signature, models, b, block_from(cfg, pc), args, w);
                if crate::bool_leaf::is_branch(name) {
                    indexed_block_starts_there(cfg, instructions, cfg[b].end_pc);
                    onward_walks(cfg, instructions, signature, models, b, block_from(cfg, cfg[b].end_pc), args, w);
                }
            }
        } else {
            bool_step_performs(instructions[k], signature, types, args, stack, w);
            match bool_step(instructions[k], signature, types) {
                Ok(Some((op, after))) => {
                    if let BlockScan::Ready(rest) = scan_block(cfg, instructions, signature, b, k + 1, after) {
                        assert(model.ops[0] == op);
                        if let Some(left) = leaf_step(op, args, stack, w) {
                            block_walks(cfg, instructions, signature, models, b, k + 1, after, args, left, w);
                            run_shifts(rest.ops, model.ops, 1, 0, args, left, w);
                        }
                    }
                },
                _ => {
                    block_walks(cfg, instructions, signature, models, b, k + 1, types, args, stack, w);
                },
            }
        }
    }
}

proof fn false_branches()
    ensures
        has_prefix("if_false"@, "if_false"@),
        has_prefix("if_false8"@, "if_false"@),
        !has_prefix("if_true"@, "if_false"@),
        !has_prefix("if_true8"@, "if_false"@),
{
    spelling();
    assert("if_false"@.take(8) =~= "if_false"@);
    let long = "if_false8"@.take(8);
    assert forall|k: int| 0 <= k < 8 implies long[k] == "if_false"@[k] by {
        if k == 0 || k == 1 || k == 2 || k == 3 || k == 4 || k == 5 || k == 6 {
        } else {
            assert(k == 7);
        }
    }
    assert(long =~= "if_false"@);
    assert("if_true8"@.take(8)[3] == 't');
}

proof fn onward_walks(
    cfg: Seq<LeafBlock>,
    instructions: Seq<Instruction>,
    signature: BoundedSignature,
    models: Seq<BlockModel>,
    b: int,
    next: int,
    args: Seq<int>,
    w: World,
)
    requires
        cfg_wf(cfg, instructions),
        cfg.len() <= usize::MAX,
        constants_encoded(instructions),
        arguments_named(instructions),
        planned(cfg, instructions, signature, models),
        args.len() == signature.arguments@.len(),
        all_int32(args),
        0 <= b < cfg.len(),
    ensures
        b < next < cfg.len() ==> walked(cfg, instructions, next, cfg[next].first as int, args, Seq::empty(), w) == bool_value(
            models,
            args,
            next,
            w,
        ),
    decreases cfg.len() - b, 0int, 0int,
{
    if b < next < cfg.len() {
        let model = models[next];
        block_walks(cfg, instructions, signature, models, next, cfg[next].first as int, Seq::empty(), args, Seq::empty(), w);
        fold_runs(model.ops, args, 0, w);
    }
}

/// A direct entry of several blocks stores what the callee's bytecode returns and
/// answers zero; where a sum or difference is no Int32 it answers one and stores
/// nothing.
pub proof fn branching_entries_compute_what_the_bytecode_returns(
    function: VerifiedFunction,
    cfg: Seq<LeafBlock>,
    signature: BoundedSignature,
    entry: LeafEntry,
    models: Seq<BlockModel>,
    w: World,
)
    requires
        cfg_wf(cfg, function.instructions@),
        cfg.len() <= usize::MAX,
        constants_encoded(function.instructions@),
        arguments_named(function.instructions@),
        bool_plan(function, cfg, signature) == LeafScan::Ready(models),
        bool_entry(entry, signature, models),
        integers_passed(w, signature.arguments@.len()),
    ensures
        ({
            let args = Seq::new(signature.arguments@.len(), |i: int| w.params[i + 1]);
            &&& entry.code.at(w) matches Status::Done { values, state }
            &&& match walked(cfg, function.instructions@, 0, cfg[0].first as int, args, Seq::empty(), w) {
                Some(x) => values == seq![0int] && state.trace.len() == 1 && (state.trace[0] matches Event::Store {
                    ty,
                    address,
                    value,
                } && ty == Ty::I32 && value == x && (address - w.params[0]) % 0x1_0000_0000_0000_0000 == 0),
                None => values == seq![1int] && state.trace.len() == 0,
            }
        }),
{
    let args = Seq::new(signature.arguments@.len(), |i: int| w.params[i + 1]);
    assert(args =~= leaf_arguments(w, signature.arguments@.len()));
    scans_are_planned(cfg, function.instructions@, signature, cfg.len());
    block_walks(
        cfg,
        function.instructions@,
        signature,
        models,
        0,
        cfg[0].first as int,
        Seq::empty(),
        args,
        Seq::empty(),
        w,
    );
    assert(models[0] == models[0]);
    fold_runs(models[0].ops, args, 0, w);
    assert(bool_outcome(models, signature.arguments@.len(), entry.code.at(w), w));
}

/// A value on the operand stack of a linked leaf, and how it is passed.
pub struct Linked {
    pub kind: FeedbackRepresentation,
    pub value: int,
}

/// The sum, difference or product of two operands of one kind.
pub open spec fn linked_operator(op: FrameBinaryOp, kind: FeedbackRepresentation, l: int, r: int, w: World) -> Option<int> {
    if kind == FeedbackRepresentation::Float64 {
        match op {
            FrameBinaryOp::Add => Some((w.float_binary)(FloatOp::Add, l, r)),
            FrameBinaryOp::Sub => Some((w.float_binary)(FloatOp::Sub, l, r)),
            _ => Some((w.float_binary)(FloatOp::Mul, l, r)),
        }
    } else {
        match op {
            FrameBinaryOp::Add => int32_operator("add"@, l, r),
            FrameBinaryOp::Sub => int32_operator("sub"@, l, r),
            _ => int32_operator("mul"@, l, r),
        }
    }
}

/// The low 32 bits of a payload, as a signed number.
pub open spec fn low_half(payload: int) -> int {
    let bits = payload % 0x1_0000_0000;
    if bits >= 0x8000_0000 {
        bits - 0x1_0000_0000
    } else {
        bits
    }
}

/// The payload's bits as a signed number.
pub open spec fn signed_bits(payload: int) -> int {
    if payload >= 0x8000_0000_0000_0000 {
        payload - 0x1_0000_0000_0000_0000
    } else {
        payload
    }
}

/// What a linked leaf returns on its arguments, from an operation on.
pub open spec fn linked_returned(ops: Seq<InlineOp>, k: int, args: Seq<Linked>, stack: Seq<Linked>, w: World) -> Option<int>
    decreases ops.len() - k,
{
    let n = stack.len() as int;
    if k >= ops.len() {
        None
    } else {
        match ops[k] {
            InlineOp::Return => Some(stack[n - 1].value),
            InlineOp::Push(value) => {
                let pushed = if value.tag == 0 {
                    Linked { kind: FeedbackRepresentation::Int32, value: low_half(value.payload as int) }
                } else {
                    Linked { kind: FeedbackRepresentation::Float64, value: signed_bits(value.payload as int) }
                };
                linked_returned(ops, k + 1, args, stack.push(pushed), w)
            },
            InlineOp::GetArgument(index) => linked_returned(ops, k + 1, args, stack.push(args[index as int]), w),
            InlineOp::Drop => linked_returned(ops, k + 1, args, stack.take(n - 1), w),
            InlineOp::Binary(op) => {
                let kind = stack[n - 1].kind;
                match linked_operator(op, kind, stack[n - 2].value, stack[n - 1].value, w) {
                    Some(value) => linked_returned(ops, k + 1, args, stack.take(n - 2).push(Linked { kind, value }), w),
                    None => None,
                }
            },
            _ => linked_returned(ops, k + 1, args, stack, w),
        }
    }
}

spec fn kinds(stack: Seq<Linked>) -> Seq<FeedbackRepresentation> {
    stack.map_values(|v: Linked| v.kind)
}

spec fn plain_values(stack: Seq<Linked>) -> Seq<int> {
    stack.map_values(|v: Linked| v.value)
}

spec fn integers_are_int32(stack: Seq<Linked>) -> bool {
    forall|k: int| 0 <= k < stack.len() && (#[trigger] stack[k]).kind == FeedbackRepresentation::Int32 ==> is_int32(stack[k].value)
}

proof fn payload_bits(payload: u64)
    ensures
        #[verifier::truncate] (payload as i32) == low_half(payload as int),
        #[verifier::truncate] (payload as i64) == signed_bits(payload as int),
{
    let low = #[verifier::truncate] (payload as i32);
    let all = #[verifier::truncate] (payload as i64);
    assert(low as i64 == if payload % 0x1_0000_0000 >= 0x8000_0000 {
        payload % 0x1_0000_0000 - 0x1_0000_0000
    } else {
        payload % 0x1_0000_0000 + 0
    }) by (bit_vector)
        requires
            low == payload as i32,
    ;
    assert(all == if payload >= 0x8000_0000_0000_0000 {
        payload - 0x1_0000_0000_0000_0000
    } else {
        payload + 0
    }) by (bit_vector)
        requires
            all == payload as i64,
    ;
}

#[verifier::spinoff_prover]
#[verifier::rlimit(100)]
proof fn linked_plan_performs(
    ops: Seq<InlineOp>,
    signature: BoundedSignature,
    k: int,
    args: Seq<Linked>,
    stack: Seq<Linked>,
    w: World,
)
    requires
        0 <= k,
        kinds(args) == signature.arguments@,
        integers_are_int32(args),
        integers_are_int32(stack),
    ensures
        linked_plan(ops, signature, k, kinds(stack)) matches LeafPlan::Ready(planned) ==> linked_returned(ops, k, args, stack, w)
            == (match run(planned, 0, plain_values(args), plain_values(stack), w) {
            Some(left) => Some(left.last()),
            None => None,
        }),
    decreases ops.len() - k, 1int,
{
    if k < ops.len() && linked_plan(ops, signature, k, kinds(stack)) is Ready {
        let planned = linked_plan(ops, signature, k, kinds(stack))->Ready_0;
        let n = stack.len() as int;
        assert(kinds(stack).len() == n);
        assert(kinds(args).len() == args.len());
        match linked_step(ops[k], signature, kinds(stack)) {
            LinkedStep::Skip => {
                linked_plan_performs(ops, signature, k + 1, args, stack, w);
            },
            LinkedStep::Op(op, after) => {
                let rest = linked_plan(ops, signature, k + 1, after)->Ready_0;
                assert(planned == seq![op] + rest);
                assert(planned[0] == op);
                match ops[k] {
                    InlineOp::Push(value) => {
                        payload_bits(value.payload);
                        let pushed = if value.tag == 0 {
                            Linked { kind: FeedbackRepresentation::Int32, value: low_half(value.payload as int) }
                        } else {
                            Linked { kind: FeedbackRepresentation::Float64, value: signed_bits(value.payload as int) }
                        };
                        let next = stack.push(pushed);
                        onward(ops, signature, k, args, stack, next, op, after, planned, rest, w);
                    },
                    InlineOp::GetArgument(index) => {
                        let next = stack.push(args[index as int]);
                        assert(kinds(args)[index as int] == args[index as int].kind);
                        onward(ops, signature, k, args, stack, next, op, after, planned, rest, w);
                    },
                    InlineOp::Drop => {
                        let next = stack.take(n - 1);
                        onward(ops, signature, k, args, stack, next, op, after, planned, rest, w);
                    },
                    InlineOp::Binary(operation) => {
                        let kind = stack[n - 1].kind;
                        assert(kinds(stack)[n - 1] == stack[n - 1].kind);
                        assert(kinds(stack)[n - 2] == stack[n - 2].kind);
                        let l = stack[n - 2].value;
                        let r = stack[n - 1].value;
                        assert(plain_values(stack)[n - 1] == r);
                        assert(plain_values(stack)[n - 2] == l);
                        assert(l * r == 0 <==> l == 0 || r == 0) by (nonlinear_arith);
                        spelling();
                        match linked_operator(operation, kind, l, r, w) {
                            Some(value) => {
                                let next = stack.take(n - 2).push(Linked { kind, value });
                                onward(ops, signature, k, args, stack, next, op, after, planned, rest, w);
                            },
                            None => {
                                assert(leaf_step(op, plain_values(args), plain_values(stack), w) is None);
                            },
                        }
                    },
                    _ => {},
                }
            },
            _ => {
                assert(plain_values(stack).last() == stack[n - 1].value);
            },
        }
    }
}

#[verifier::spinoff_prover]
#[verifier::rlimit(100)]
proof fn onward(
    ops: Seq<InlineOp>,
    signature: BoundedSignature,
    k: int,
    args: Seq<Linked>,
    stack: Seq<Linked>,
    next: Seq<Linked>,
    op: LeafOp,
    after: Seq<FeedbackRepresentation>,
    planned: Seq<LeafOp>,
    rest: Seq<LeafOp>,
    w: World,
)
    requires
        0 <= k < ops.len(),
        kinds(args) == signature.arguments@,
        integers_are_int32(args),
        integers_are_int32(next),
        planned == seq![op] + rest,
        linked_plan(ops, signature, k + 1, after) == LeafPlan::Ready(rest),
        kinds(next) =~= after,
        leaf_step(op, plain_values(args), plain_values(stack), w) matches Some(left) && left =~= plain_values(next),
    ensures
        linked_returned(ops, k + 1, args, next, w) == (match run(planned, 0, plain_values(args), plain_values(stack), w) {
            Some(left) => Some(left.last()),
            None => None,
        }),
    decreases ops.len() - k, 0int,
{
    linked_plan_performs(ops, signature, k + 1, args, next, w);
    assert(planned[0] == op);
    run_shifts(rest, planned, 1, 0, plain_values(args), plain_values(next), w);
}

/// A direct entry of a linked leaf stores what the leaf returns on its arguments
/// and answers zero; where a result is no Int32 it answers one and stores nothing.
pub proof fn linked_entries_compute_what_the_leaf_returns(
    ops: Seq<InlineOp>,
    signature: BoundedSignature,
    entry: LeafEntry,
    planned: Seq<LeafOp>,
    w: World,
)
    requires
        linked_plan(ops, signature, 0, Seq::empty()) == LeafPlan::Ready(planned),
        linked_entry(entry, signature, planned),
        forall|i: int|
            0 <= i < signature.arguments@.len() && #[trigger] signature.arguments@[i] == FeedbackRepresentation::Int32
                ==> is_int32(w.params[i + 1]),
    ensures
        ({
            let args = Seq::new(
                signature.arguments@.len(),
                |i: int| Linked { kind: signature.arguments@[i], value: w.params[i + 1] },
            );
            &&& entry.code.at(w) matches Status::Done { values, state }
            &&& match linked_returned(ops, 0, args, Seq::empty(), w) {
                Some(x) => values == seq![0int] && state.trace.len() == 1 && (state.trace[0] matches Event::Store {
                    address,
                    value,
                    ..
                } && value == x && (address - w.params[0]) % 0x1_0000_0000_0000_0000 == 0),
                None => values == seq![1int] && state.trace.len() == 0,
            }
        }),
{
    let args = Seq::new(
        signature.arguments@.len(),
        |i: int| Linked { kind: signature.arguments@[i], value: w.params[i + 1] },
    );
    assert(kinds(args) =~= signature.arguments@);
    assert(plain_values(args) =~= leaf_arguments(w, signature.arguments@.len()));
    let none: Seq<Linked> = Seq::empty();
    assert(kinds(none) =~= Seq::empty());
    assert(plain_values(none) =~= Seq::empty());
    linked_plan_performs(ops, signature, 0, args, none, w);
    fold_runs(planned, plain_values(args), 0, w);
    assert(leaf_outcome(
        planned,
        signature.arguments@.len(),
        crate::specialized_calls::passed_type(signature.result),
        entry.code.at(w),
        w,
    ));
}

/// A callee whose arguments and result are all Int32, or all doubles, is entered
/// by code on unboxed numbers that computes what its bytecode returns.
pub proof fn numeric_callees_are_entered_unboxed(
    callee: DirectCallee,
    signature: BoundedSignature,
    controlled: bool,
    entry: LeafEntry,
    w: World,
)
    requires
        callee_wf(callee, signature),
        arguments_named(callee.function.instructions@),
        direct_result(callee, signature, controlled, Ok(entry)),
        signature.result == FeedbackRepresentation::Int32 || signature.result == FeedbackRepresentation::Float64,
        forall|i: int| 0 <= i < signature.arguments@.len() ==> #[trigger] signature.arguments@[i] == signature.result,
        signature.result == FeedbackRepresentation::Int32 ==> integers_passed(w, signature.arguments@.len()),
    ensures
        ({
            let float = signature.result == FeedbackRepresentation::Float64;
            let args = Seq::new(signature.arguments@.len(), |i: int| w.params[i + 1]);
            &&& entry.params@ == seq![Ty::I64] + Seq::new(
                signature.arguments@.len(),
                |i: int| if float { Ty::F64 } else { Ty::I32 },
            )
            &&& entry.code.at(w) matches Status::Done { values, state }
            &&& match returned(callee.function.instructions@, 0, float, args, Seq::empty(), w) {
                Some(stack) => values == seq![0int] && state.trace.len() == 1 && (state.trace[0] matches Event::Store {
                    ty,
                    address,
                    value,
                } && ty == (if float { Ty::F64 } else { Ty::I32 }) && value == stack.last() && (address - w.params[0])
                    % 0x1_0000_0000_0000_0000 == 0),
                None => values == seq![1int] && state.trace.len() == 0,
            }
        }),
{
    let float = signature.result == FeedbackRepresentation::Float64;
    let instructions = callee.function.instructions@;
    let ops = direct_plan(instructions, float, signature.arguments@.len() as int, 0, 0)->Ready_0;
    direct_entries_compute_what_the_bytecode_returns(instructions, float, signature, entry, ops, w);
    assert(signature.arguments@.map_values(|a: FeedbackRepresentation| crate::specialized_calls::passed_type(a)) =~= Seq::new(
        signature.arguments@.len(),
        |i: int| if float { Ty::F64 } else { Ty::I32 },
    ));
}

/// No entry is made for another function, for another number of arguments, or for
/// Int32 and doubles side by side.
pub proof fn callees_are_entered_by_their_own_signature(
    callee: DirectCallee,
    signature: BoundedSignature,
    controlled: bool,
    r: Result<LeafEntry, CompileFailure>,
)
    requires
        direct_result(callee, signature, controlled, r),
    ensures
        signature.function != callee.function.key || signature.arguments@.len() != callee.function.arg_count ==> r is Err,
        (exists|i: int|
            0 <= i < signature.arguments@.len() && #[trigger] signature.arguments@[i] != signature.result) && !signature.arguments@.contains(
            FeedbackRepresentation::Bool,
        ) && !signature.arguments@.contains(FeedbackRepresentation::HeapRef) ==> r is Err,
        signature.result == FeedbackRepresentation::HeapRef ==> r is Err,
{
}

} // verus!
