//! Entries for direct calls with truth values among their arguments: small
//! functions on Int32 whose branches only lead forward.
use crate::assemble::assembles;
use crate::assemble::Known;
use crate::code::truth;
use crate::code::wrap;
use crate::code::kept;
use crate::code::Code;
use crate::code::Event;
use crate::code::IntCc;
use crate::code::Status;
use crate::code::Ty;
use crate::code::World;
use crate::control::CompileFailure;
use crate::direct_leaf::begin_entry;
use crate::direct_leaf::constants_encoded;
use crate::direct_leaf::entry_types;
use crate::direct_leaf::leaf_arguments;
use crate::direct_leaf::leaf_fold;
use crate::direct_leaf::passed_types;
use crate::direct_leaf::plain;
use crate::direct_leaf::typed_from;
use crate::direct_leaf::typed_on;
use crate::direct_leaf::typed_shift;
use crate::direct_leaf::typed_step;
use crate::direct_leaf::values_typed;
use crate::direct_leaf::BegunEntry;
use crate::direct_leaf::untouched;
use crate::direct_leaf::LeafEntry;
use crate::leaf::answered;
use crate::leaf::emit_answer;
use crate::leaf::emit_leaf;
use crate::leaf::emit_miss;
use crate::leaf::gets_agree;
use crate::leaf::known;
use crate::leaf::leaf_pops;
use crate::leaf::leaf_pushes;
use crate::leaf::missed;
use crate::leaf::LeafOp;
use crate::names::has_prefix;
use crate::names::name_is;
use crate::names::name_starts;
use crate::names::opt_constant;
use crate::names::opt_index;
use crate::names::pushed_constant;
use crate::names::spec_index;
use crate::runtime::first_at;
use crate::runtime::first_at_is;
use crate::runtime::first_at_meaning;
use crate::runtime::first_at_none;
use crate::runtime::BoundedSignature;
use crate::runtime::FeedbackRepresentation;
use crate::runtime::Instruction;
use crate::runtime::VerifiedFunction;
use crate::specialized_calls::passed_type;
use crate::typing::appended;
use crate::typing::branched;
use crate::typing::live;
use crate::typing::shut;
use crate::typing::went;
use vstd::prelude::*;

verus! {

broadcast use crate::typing::group_typing;

/// A basic block: the instructions from `first` up to `end`.
#[derive(Debug)]
pub struct LeafBlock {
    pub start_pc: u32,
    pub end_pc: u32,
    pub first: usize,
    pub end: usize,
    pub successors: Vec<u32>,
}

#[derive(Clone, Copy, Debug, PartialEq, Eq, Structural)]
pub enum BlockEnd {
    Return,
    Goto(usize),
    Branch { taken: usize, otherwise: usize },
}

/// What a block computes, and where it leads.
#[derive(Debug)]
pub struct PlannedBlock {
    pub ops: Vec<LeafOp>,
    pub end: BlockEnd,
}

pub struct BlockModel {
    pub ops: Seq<LeafOp>,
    pub end: BlockEnd,
}

impl PlannedBlock {
    pub open spec fn view(&self) -> BlockModel {
        BlockModel { ops: self.ops@, end: self.end }
    }
}

pub open spec fn block_index(cfg: Seq<LeafBlock>, pc: u32) -> Option<int> {
    first_at(|i: int| cfg[i].start_pc == pc, cfg.len())
}

/// Blocks are in order, cover instructions, and name their successors: those
/// of a branch, and the next block.
pub open spec fn cfg_wf(cfg: Seq<LeafBlock>, instructions: Seq<Instruction>) -> bool {
    &&& forall|i: int, j: int| 0 <= i < j < cfg.len() ==> (#[trigger] cfg[i]).start_pc < (#[trigger] cfg[j]).start_pc
    &&& forall|b: int|
        0 <= b < cfg.len() ==> {
            &&& (#[trigger] cfg[b]).first <= cfg[b].end <= instructions.len()
            &&& cfg[b].start_pc < cfg[b].end_pc
            &&& forall|k: int|
                cfg[b].first <= k < cfg[b].end ==> (#[trigger] instructions[k].branch_target matches Some(t)
                    ==> cfg[b].successors@.contains(t))
            &&& forall|k: int|
                0 <= k < cfg[b].successors@.len() ==> block_index(cfg, #[trigger] cfg[b].successors@[k]) is Some
        }
}

/// Some successor does not lie ahead.
pub open spec fn leads_back(cfg: Seq<LeafBlock>) -> bool {
    exists|b: int, k: int|
        0 <= b < cfg.len() && 0 <= k < cfg[b].successors@.len() && #[trigger] cfg[b].successors@[k] <= cfg[b].start_pc
}

pub enum BlockScan {
    Fails(CompileFailure),
    Ready(BlockModel),
}

pub open spec fn scan_after(op: LeafOp, scan: BlockScan) -> BlockScan {
    match scan {
        BlockScan::Ready(model) => BlockScan::Ready(BlockModel { ops: seq![op] + model.ops, end: model.end }),
        fails => fails,
    }
}

pub open spec fn scan_behind(ops: Seq<LeafOp>, scan: BlockScan) -> BlockScan {
    match scan {
        BlockScan::Ready(model) => BlockScan::Ready(BlockModel { ops: ops + model.ops, end: model.end }),
        fails => fails,
    }
}

pub open spec fn is_branch(name: Seq<char>) -> bool {
    name == "if_false8"@ || name == "if_true8"@ || name == "if_false"@ || name == "if_true"@
}

pub open spec fn is_goto(name: Seq<char>) -> bool {
    name == "goto"@ || name == "goto8"@ || name == "goto16"@
}

/// Where an instruction ends its block, provided that it is the last one.
pub open spec fn block_end(cfg: Seq<LeafBlock>, b: int, instruction: Instruction, types: Seq<FeedbackRepresentation>) -> Result<
    BlockEnd,
    CompileFailure,
> {
    let name = instruction.name@;
    let n = types.len();
    if is_branch(name) {
        if n == 0 {
            Err(CompileFailure::InvalidArtifact)
        } else if types[n - 1] != FeedbackRepresentation::Bool || n > 1 {
            Err(CompileFailure::UnsupportedOpcode)
        } else {
            match (instruction.branch_target, block_index(cfg, cfg[b].end_pc)) {
                (Some(t), Some(next)) => match block_index(cfg, t) {
                    Some(target) => if has_prefix(name, "if_false"@) {
                        Ok(BlockEnd::Branch { taken: next as usize, otherwise: target as usize })
                    } else {
                        Ok(BlockEnd::Branch { taken: target as usize, otherwise: next as usize })
                    },
                    None => Err(CompileFailure::InvalidArtifact),
                },
                _ => Err(CompileFailure::InvalidArtifact),
            }
        }
    } else if is_goto(name) {
        if n > 0 {
            Err(CompileFailure::UnsupportedOpcode)
        } else {
            match instruction.branch_target {
                Some(t) => match block_index(cfg, t) {
                    Some(target) => Ok(BlockEnd::Goto(target as usize)),
                    None => Err(CompileFailure::InvalidArtifact),
                },
                None => Err(CompileFailure::InvalidArtifact),
            }
        }
    } else {
        // The name is `return`.
        if n == 0 {
            Err(CompileFailure::InvalidArtifact)
        } else if types[n - 1] != FeedbackRepresentation::Int32 || n > 1 {
            Err(CompileFailure::UnsupportedOpcode)
        } else {
            Ok(BlockEnd::Return)
        }
    }
}

pub open spec fn ends_block(name: Seq<char>) -> bool {
    is_branch(name) || is_goto(name) || name == "return"@
}

/// An operation on the typed stack, or nothing for an instruction that does nothing.
pub open spec fn bool_step(
    instruction: Instruction,
    signature: BoundedSignature,
    types: Seq<FeedbackRepresentation>,
) -> Result<Option<(LeafOp, Seq<FeedbackRepresentation>)>, CompileFailure> {
    let name = instruction.name@;
    let n = types.len();
    match pushed_constant(name, instruction.bytes@) {
        Some(x) => Ok(Some((LeafOp::IntConst(x as i32), types.push(FeedbackRepresentation::Int32)))),
        None => if name == "nop"@ {
            Ok(None)
        } else {
            match spec_index(name, instruction.bytes@, "get_arg"@) {
                Err(e) => Err(e),
                Ok(Some(index)) => if index < signature.arguments@.len() {
                    Ok(Some((LeafOp::Argument(index), types.push(signature.arguments@[index as int]))))
                } else {
                    Err(CompileFailure::InvalidArtifact)
                },
                Ok(None) => if name == "add"@ || name == "sub"@ {
                    if n < 2 {
                        Err(CompileFailure::InvalidArtifact)
                    } else if types[n - 2] != FeedbackRepresentation::Int32 || types[n - 1]
                        != FeedbackRepresentation::Int32 {
                        Err(CompileFailure::UnsupportedOpcode)
                    } else {
                        Ok(
                            Some(
                                (
                                    if name == "add"@ {
                                        LeafOp::IntAdd
                                    } else {
                                        LeafOp::IntSub
                                    },
                                    types.take(n - 1),
                                ),
                            ),
                        )
                    }
                } else {
                    Err(CompileFailure::UnsupportedOpcode)
                },
            }
        },
    }
}

/// An instruction whose name is not one of a constant, a plain operation or an
/// argument; only then can it end the block.
pub open spec fn is_end(instruction: Instruction) -> bool {
    &&& pushed_constant(instruction.name@, instruction.bytes@) is None
    &&& instruction.name@ != "nop"@
    &&& spec_index(instruction.name@, instruction.bytes@, "get_arg"@) == Ok::<Option<usize>, CompileFailure>(None)
    &&& instruction.name@ != "add"@
    &&& instruction.name@ != "sub"@
    &&& ends_block(instruction.name@)
}

/// The instructions of block `b` from `k` on, on a stack of the types.
pub open spec fn scan_block(
    cfg: Seq<LeafBlock>,
    instructions: Seq<Instruction>,
    signature: BoundedSignature,
    b: int,
    k: int,
    types: Seq<FeedbackRepresentation>,
) -> BlockScan
    decreases cfg[b].end - k,
{
    if k >= cfg[b].end {
        if types.len() > 0 || cfg[b].successors@.len() != 1 {
            BlockScan::Fails(CompileFailure::UnsupportedOpcode)
        } else {
            BlockScan::Ready(
                BlockModel {
                    ops: Seq::empty(),
                    end: BlockEnd::Goto(block_index(cfg, cfg[b].successors@[0])->Some_0 as usize),
                },
            )
        }
    } else if is_end(instructions[k]) {
        match block_end(cfg, b, instructions[k], types) {
            Err(e) => BlockScan::Fails(e),
            Ok(end) => if k + 1 < cfg[b].end {
                BlockScan::Fails(CompileFailure::InvalidArtifact)
            } else {
                BlockScan::Ready(BlockModel { ops: Seq::empty(), end })
            },
        }
    } else {
        match bool_step(instructions[k], signature, types) {
            Err(e) => BlockScan::Fails(e),
            Ok(None) => scan_block(cfg, instructions, signature, b, k + 1, types),
            Ok(Some((op, after))) => scan_after(op, scan_block(cfg, instructions, signature, b, k + 1, after)),
        }
    }
}

pub enum LeafScan {
    Fails(CompileFailure),
    Ready(Seq<BlockModel>),
}

/// The first `n` blocks.
pub open spec fn scan_blocks(cfg: Seq<LeafBlock>, instructions: Seq<Instruction>, signature: BoundedSignature, n: nat) -> LeafScan
    decreases n,
{
    if n == 0 {
        LeafScan::Ready(Seq::empty())
    } else {
        match scan_blocks(cfg, instructions, signature, (n - 1) as nat) {
            LeafScan::Fails(e) => LeafScan::Fails(e),
            LeafScan::Ready(models) => match scan_block(
                cfg,
                instructions,
                signature,
                n - 1,
                cfg[n - 1].first as int,
                Seq::empty(),
            ) {
                BlockScan::Fails(e) => LeafScan::Fails(e),
                BlockScan::Ready(model) => LeafScan::Ready(models.push(model)),
            },
        }
    }
}

/// What a function with truth values among its arguments is refused for.
pub open spec fn bool_refusal(function: VerifiedFunction, cfg: Seq<LeafBlock>, signature: BoundedSignature) -> Option<CompileFailure> {
    if signature.result != FeedbackRepresentation::Int32 || (exists|i: int|
        0 <= i < signature.arguments@.len() && #[trigger] signature.arguments@[i] != FeedbackRepresentation::Int32
            && signature.arguments@[i] != FeedbackRepresentation::Bool) || function.has_exceptions || leads_back(cfg) {
        Some(CompileFailure::UnsupportedOpcode)
    } else if cfg.len() == 0 || cfg[0].start_pc != 0 {
        Some(CompileFailure::InvalidArtifact)
    } else {
        None
    }
}

pub open spec fn bool_plan(function: VerifiedFunction, cfg: Seq<LeafBlock>, signature: BoundedSignature) -> LeafScan {
    match bool_refusal(function, cfg, signature) {
        Some(e) => LeafScan::Fails(e),
        None => scan_blocks(cfg, function.instructions@, signature, cfg.len()),
    }
}

/// What the blocks from `b` on yield, or nothing where an operation missed.
pub open spec fn bool_value(models: Seq<BlockModel>, args: Seq<int>, b: int, w: World) -> Option<int>
    decreases models.len() - b,
{
    match leaf_fold(models[b].ops, args, models[b].ops.len(), w) {
        None => None,
        Some(stack) => match models[b].end {
            BlockEnd::Return => Some(stack.last()),
            BlockEnd::Goto(target) => if b < target < models.len() {
                bool_value(models, args, target as int, w)
            } else {
                None
            },
            BlockEnd::Branch { taken, otherwise } => {
                let next = if stack.last() != 0 {
                    taken
                } else {
                    otherwise
                };
                if b < next < models.len() {
                    bool_value(models, args, next as int, w)
                } else {
                    None
                }
            },
        },
    }
}

pub open spec fn bool_outcome(models: Seq<BlockModel>, arity: nat, st: Status, w: World) -> bool {
    match bool_value(models, leaf_arguments(w, arity), 0, w) {
        Some(x) => answered(st, Ty::I32, w.params[0], x),
        None => missed(st),
    }
}

/// A block's operations find their operands, and its end finds what it needs
/// and lies ahead.
pub open spec fn model_ok(models: Seq<BlockModel>, b: int, arity: int) -> bool {
    match models[b].end {
        BlockEnd::Return => depth_ok(models[b].ops, 0, 0, arity, 1),
        BlockEnd::Goto(target) => b < target < models.len() && depth_ok(models[b].ops, 0, 0, arity, 0),
        BlockEnd::Branch { taken, otherwise } => b < taken < models.len() && b < otherwise < models.len() && depth_ok(
            models[b].ops,
            0,
            0,
            arity,
            1,
        ),
    }
}

/// The operations from `k` on always find their operands, and leave `left` values.
pub open spec fn depth_ok(ops: Seq<LeafOp>, k: int, depth: int, arity: int, left: int) -> bool
    decreases ops.len() - k,
{
    if k >= ops.len() {
        depth == left
    } else {
        &&& leaf_pops(ops[k]) <= depth
        &&& ops[k] matches LeafOp::Argument(index) ==> index < arity
        &&& depth_ok(ops, k + 1, depth - leaf_pops(ops[k]) + leaf_pushes(ops[k]), arity, left)
    }
}

proof fn depth_shift(a: Seq<LeafOp>, b: Seq<LeafOp>, shift: int, k: int, depth: int, arity: int, left: int)
    requires
        shift >= 0,
        k >= 0,
        b.len() == a.len() + shift,
        forall|i: int| 0 <= i < a.len() ==> #[trigger] a[i] == b[i + shift],
        depth_ok(a, k, depth, arity, left),
    ensures
        depth_ok(b, k + shift, depth, arity, left),
    decreases a.len() - k,
{
    if k < a.len() {
        assert(a[k] == b[k + shift]);
        depth_shift(a, b, shift, k + 1, depth - leaf_pops(a[k]) + leaf_pushes(a[k]), arity, left);
    }
}

pub open spec fn values_left(end: BlockEnd) -> int {
    if end is Goto {
        0
    } else {
        1
    }
}

/// A target that is found lies ahead of a block that does not lead back.
proof fn targets_lie_ahead(cfg: Seq<LeafBlock>, b: int, pc: u32)
    requires
        forall|i: int, j: int| 0 <= i < j < cfg.len() ==> (#[trigger] cfg[i]).start_pc < (#[trigger] cfg[j]).start_pc,
        0 <= b < cfg.len(),
        pc > cfg[b].start_pc,
        block_index(cfg, pc) is Some,
    ensures
        b < block_index(cfg, pc)->Some_0 < cfg.len(),
{
    first_at_meaning(|i: int| cfg[i].start_pc == pc, cfg.len());
    let t = block_index(cfg, pc)->Some_0;
    if t < b {
        assert(cfg[t].start_pc < cfg[b].start_pc);
    }
}

/// The types that the end of a block finds.
pub open spec fn types_left(end: BlockEnd) -> Seq<Ty> {
    if end is Goto {
        Seq::empty()
    } else {
        seq![Ty::I32]
    }
}

/// A block's operations take the types that are there.
pub open spec fn model_typed(model: BlockModel, args: Seq<Ty>) -> bool {
    typed_from(model.ops, 0, Seq::empty(), args, types_left(model.end))
}

proof fn scanned_blocks_are_typed(
    cfg: Seq<LeafBlock>,
    instructions: Seq<Instruction>,
    signature: BoundedSignature,
    b: int,
    k: int,
    types: Seq<FeedbackRepresentation>,
)
    ensures
        scan_block(cfg, instructions, signature, b, k, types) matches BlockScan::Ready(model) ==> typed_from(
            model.ops,
            0,
            passed_types(types),
            passed_types(signature.arguments@),
            types_left(model.end),
        ),
    decreases cfg[b].end - k,
{
    let args = passed_types(signature.arguments@);
    if k >= cfg[b].end {
        if types.len() == 0 {
            assert(passed_types(types) =~= Seq::<Ty>::empty());
        }
    } else if is_end(instructions[k]) {
        if let Ok(end) = block_end(cfg, b, instructions[k], types) {
            assert(passed_types(types) =~= types_left(end));
        }
    } else {
        match bool_step(instructions[k], signature, types) {
            Err(e) => {},
            Ok(None) => {
                scanned_blocks_are_typed(cfg, instructions, signature, b, k + 1, types);
            },
            Ok(Some((op, after))) => {
                scanned_blocks_are_typed(cfg, instructions, signature, b, k + 1, after);
                if let BlockScan::Ready(model) = scan_block(cfg, instructions, signature, b, k + 1, after) {
                    let ops = seq![op] + model.ops;
                    assert(ops[0] == op);
                    typed_shift(model.ops, ops, 1, 0, passed_types(after), args, types_left(model.end));
                    assert(typed_step(op, args, passed_types(types)) is Some);
                    assert(typed_step(op, args, passed_types(types))->Some_0 =~= passed_types(after));
                }
            },
        }
    }
}

proof fn scanned_blocks_are_ok(
    cfg: Seq<LeafBlock>,
    instructions: Seq<Instruction>,
    signature: BoundedSignature,
    b: int,
    k: int,
    types: Seq<FeedbackRepresentation>,
)
    requires
        cfg_wf(cfg, instructions),
        !leads_back(cfg),
        cfg.len() <= usize::MAX,
        0 <= b < cfg.len(),
        cfg[b].first <= k,
    ensures
        scan_block(cfg, instructions, signature, b, k, types) matches BlockScan::Ready(model) ==> {
            &&& depth_ok(model.ops, 0, types.len() as int, signature.arguments@.len() as int, values_left(model.end))
            &&& model.end matches BlockEnd::Goto(t) ==> b < t < cfg.len()
            &&& model.end matches BlockEnd::Branch { taken, otherwise } ==> b < taken < cfg.len() && b < otherwise < cfg.len()
        },
    decreases cfg[b].end - k,
{
    if k >= cfg[b].end {
        if cfg[b].successors@.len() == 1 {
            assert(!(cfg[b].successors@[0] <= cfg[b].start_pc));
            assert(block_index(cfg, cfg[b].successors@[0]) is Some);
            targets_lie_ahead(cfg, b, cfg[b].successors@[0]);
        }
    } else if is_end(instructions[k]) {
        if let Some(t) = instructions[k].branch_target {
            assert(cfg[b].successors@.contains(t));
            let j = choose|j: int| 0 <= j < cfg[b].successors@.len() && cfg[b].successors@[j] == t;
            assert(!(cfg[b].successors@[j] <= cfg[b].start_pc));
            assert(block_index(cfg, cfg[b].successors@[j]) is Some);
            targets_lie_ahead(cfg, b, t);
        }
        if block_index(cfg, cfg[b].end_pc) is Some {
            targets_lie_ahead(cfg, b, cfg[b].end_pc);
        }
    } else {
        match bool_step(instructions[k], signature, types) {
            Err(e) => {},
            Ok(None) => {
                scanned_blocks_are_ok(cfg, instructions, signature, b, k + 1, types);
            },
            Ok(Some((op, after))) => {
                scanned_blocks_are_ok(cfg, instructions, signature, b, k + 1, after);
                if let BlockScan::Ready(model) = scan_block(cfg, instructions, signature, b, k + 1, after) {
                    let ops = seq![op] + model.ops;
                    assert(ops[0] == op);
                    assert(after.len() == types.len() - leaf_pops(op) + leaf_pushes(op));
                    depth_shift(
                        model.ops,
                        ops,
                        1,
                        0,
                        after.len() as int,
                        signature.arguments@.len() as int,
                        values_left(model.end),
                    );
                }
            },
        }
    }
}

fn find_block(cfg: &Vec<LeafBlock>, pc: u32) -> (r: Option<usize>)
    ensures
        match r {
            Some(i) => block_index(cfg@, pc) == Some(i as int) && i < cfg@.len(),
            None => block_index(cfg@, pc) is None,
        },
{
    let ghost f = |i: int| cfg@[i].start_pc == pc;
    let mut i: usize = 0;
    while i < cfg.len()
        invariant
            i <= cfg@.len(),
            f == (|i: int| cfg@[i].start_pc == pc),
            forall|k: int| 0 <= k < i ==> !#[trigger] f(k),
        decreases cfg@.len() - i,
    {
        if cfg[i].start_pc == pc {
            proof {
                first_at_is(f, cfg@.len(), i as int);
            }
            return Some(i);
        }
        i = i + 1;
    }
    proof {
        first_at_none(f, cfg@.len());
    }
    None
}

fn has_target(successors: &Vec<u32>, target: u32) -> (r: bool)
    ensures
        r == successors@.contains(target),
{
    let mut i: usize = 0;
    while i < successors.len()
        invariant
            i <= successors@.len(),
            forall|k: int| 0 <= k < i ==> #[trigger] successors@[k] != target,
        decreases successors@.len() - i,
    {
        if successors[i] == target {
            assert(successors@[i as int] == target);
            return true;
        }
        i = i + 1;
    }
    false
}

/// The block covers instructions, and names its successors.
spec fn block_wf(cfg: Seq<LeafBlock>, b: int, instructions: Seq<Instruction>) -> bool {
    &&& cfg[b].first <= cfg[b].end <= instructions.len()
    &&& cfg[b].start_pc < cfg[b].end_pc
    &&& forall|k: int|
        cfg[b].first <= k < cfg[b].end ==> (#[trigger] instructions[k].branch_target matches Some(t)
            ==> cfg[b].successors@.contains(t))
    &&& forall|k: int| 0 <= k < cfg[b].successors@.len() ==> block_index(cfg, #[trigger] cfg[b].successors@[k]) is Some
}

fn block_fits(cfg: &Vec<LeafBlock>, b: usize, instructions: &Vec<Instruction>) -> (r: bool)
    requires
        b < cfg@.len(),
    ensures
        r == block_wf(cfg@, b as int, instructions@),
{
    let block = &cfg[b];
    if block.first > block.end || block.end > instructions.len() || block.start_pc >= block.end_pc {
        return false;
    }
    let mut k: usize = block.first;
    while k < block.end
        invariant
            block == cfg@[b as int],
            block.first <= k <= block.end <= instructions@.len(),
            forall|i: int|
                block.first <= i < k ==> (#[trigger] instructions@[i].branch_target matches Some(t)
                    ==> block.successors@.contains(t)),
        decreases block.end - k,
    {
        if let Some(target) = instructions[k].branch_target {
            if !has_target(&block.successors, target) {
                assert(instructions@[k as int].branch_target == Some(target));
                return false;
            }
        }
        k = k + 1;
    }
    let mut i: usize = 0;
    while i < block.successors.len()
        invariant
            block == cfg@[b as int],
            i <= block.successors@.len(),
            forall|j: int| 0 <= j < i ==> block_index(cfg@, #[trigger] block.successors@[j]) is Some,
        decreases block.successors@.len() - i,
    {
        if find_block(cfg, block.successors[i]).is_none() {
            assert(block_index(cfg@, block.successors@[i as int]) is None);
            return false;
        }
        i = i + 1;
    }
    true
}

/// Whether blocks are those of the instructions.
pub fn cfg_fits(cfg: &Vec<LeafBlock>, instructions: &Vec<Instruction>) -> (r: bool)
    ensures
        r == cfg_wf(cfg@, instructions@),
{
    let mut b: usize = 0;
    while b < cfg.len()
        invariant
            b <= cfg@.len(),
            forall|i: int, j: int| 0 <= i < j < b ==> (#[trigger] cfg@[i]).start_pc < (#[trigger] cfg@[j]).start_pc,
            forall|i: int| 0 <= i < b ==> #[trigger] block_wf(cfg@, i, instructions@),
        decreases cfg@.len() - b,
    {
        if b > 0 && cfg[b - 1].start_pc >= cfg[b].start_pc {
            assert(!(cfg@[b - 1].start_pc < cfg@[b as int].start_pc));
            return false;
        }
        if !block_fits(cfg, b, instructions) {
            proof {
                if cfg_wf(cfg@, instructions@) {
                    assert(cfg@[b as int].first <= cfg@[b as int].end);
                    assert(block_wf(cfg@, b as int, instructions@));
                }
            }
            return false;
        }
        assert forall|i: int, j: int| 0 <= i < j < b + 1 implies (#[trigger] cfg@[i]).start_pc < (#[trigger] cfg@[j]).start_pc by {
            if j == b && i < b - 1 {
                assert(cfg@[i].start_pc < cfg@[b - 1].start_pc);
            }
        }
        b = b + 1;
    }
    assert forall|i: int| 0 <= i < cfg@.len() implies {
        &&& (#[trigger] cfg@[i]).first <= cfg@[i].end <= instructions@.len()
        &&& cfg@[i].start_pc < cfg@[i].end_pc
        &&& forall|k: int|
            cfg@[i].first <= k < cfg@[i].end ==> (#[trigger] instructions@[k].branch_target matches Some(t)
                ==> cfg@[i].successors@.contains(t))
        &&& forall|k: int|
            0 <= k < cfg@[i].successors@.len() ==> block_index(cfg@, #[trigger] cfg@[i].successors@[k]) is Some
    } by {
        assert(block_wf(cfg@, i, instructions@));
    }
    true
}

fn branches(name: &str) -> (r: bool)
    ensures
        r == is_branch(name@),
{
    name_is(name, "if_false8") || name_is(name, "if_true8") || name_is(name, "if_false") || name_is(name, "if_true")
}

fn goes(name: &str) -> (r: bool)
    ensures
        r == is_goto(name@),
{
    name_is(name, "goto") || name_is(name, "goto8") || name_is(name, "goto16")
}

fn find_end(cfg: &Vec<LeafBlock>, b: usize, instruction: &Instruction, types: &Vec<FeedbackRepresentation>) -> (r: Result<
    BlockEnd,
    CompileFailure,
>)
    requires
        b < cfg@.len(),
    ensures
        r == block_end(cfg@, b as int, *instruction, types@),
{
    let name = instruction.name.as_str();
    if branches(name) {
        if types.len() == 0 {
            return Err(CompileFailure::InvalidArtifact);
        }
        if !matches!(types[types.len() - 1], FeedbackRepresentation::Bool) || types.len() > 1 {
            return Err(CompileFailure::UnsupportedOpcode);
        }
        match (instruction.branch_target, find_block(cfg, cfg[b].end_pc)) {
            (Some(t), Some(next)) => match find_block(cfg, t) {
                Some(target) => if name_starts(name, "if_false") {
                    Ok(BlockEnd::Branch { taken: next, otherwise: target })
                } else {
                    Ok(BlockEnd::Branch { taken: target, otherwise: next })
                },
                None => Err(CompileFailure::InvalidArtifact),
            },
            _ => Err(CompileFailure::InvalidArtifact),
        }
    } else if goes(name) {
        if types.len() > 0 {
            return Err(CompileFailure::UnsupportedOpcode);
        }
        match instruction.branch_target {
            Some(t) => match find_block(cfg, t) {
                Some(target) => Ok(BlockEnd::Goto(target)),
                None => Err(CompileFailure::InvalidArtifact),
            },
            None => Err(CompileFailure::InvalidArtifact),
        }
    } else {
        if types.len() == 0 {
            Err(CompileFailure::InvalidArtifact)
        } else if !matches!(types[types.len() - 1], FeedbackRepresentation::Int32) || types.len() > 1 {
            Err(CompileFailure::UnsupportedOpcode)
        } else {
            Ok(BlockEnd::Return)
        }
    }
}

/// What an instruction is.
#[derive(Clone, Copy, Debug, PartialEq, Eq, Structural)]
enum Found {
    Skip,
    Op(LeafOp),
    End,
}

fn take_step(instruction: &Instruction, signature: &BoundedSignature, types: &mut Vec<FeedbackRepresentation>) -> (r: Result<
    Found,
    CompileFailure,
>)
    requires
        crate::names::constant_encoded(instruction.name@, instruction.bytes@),
    ensures
        is_end(*instruction) ==> r == Ok::<Found, CompileFailure>(Found::End) && final(types)@ == old(types)@,
        !is_end(*instruction) ==> match bool_step(*instruction, *signature, old(types)@) {
            Err(e) => r == Err::<Found, CompileFailure>(e),
            Ok(None) => r == Ok::<Found, CompileFailure>(Found::Skip) && final(types)@ == old(types)@,
            Ok(Some((op, after))) => r == Ok::<Found, CompileFailure>(Found::Op(op)) && final(types)@ == after,
        },
{
    let ghost before = types@;
    let name = instruction.name.as_str();
    let bytes = instruction.bytes.as_slice();
    if let Some(x) = opt_constant(name, bytes) {
        types.push(FeedbackRepresentation::Int32);
        return Ok(Found::Op(LeafOp::IntConst(x)));
    }
    if name_is(name, "nop") {
        return Ok(Found::Skip);
    }
    match opt_index(name, bytes, "get_arg") {
        Err(e) => {
            return Err(e);
        },
        Ok(Some(index)) => {
            if index < signature.arguments.len() {
                types.push(signature.arguments[index]);
                return Ok(Found::Op(LeafOp::Argument(index)));
            }
            return Err(CompileFailure::InvalidArtifact);
        },
        Ok(None) => {},
    }
    let adds = name_is(name, "add");
    if adds || name_is(name, "sub") {
        if types.len() < 2 {
            return Err(CompileFailure::InvalidArtifact);
        }
        if !matches!(types[types.len() - 2], FeedbackRepresentation::Int32) || !matches!(
            types[types.len() - 1],
            FeedbackRepresentation::Int32
        ) {
            return Err(CompileFailure::UnsupportedOpcode);
        }
        let _ = types.pop();
        assert(types@ =~= before.take(before.len() - 1));
        return Ok(
            Found::Op(
                if adds {
                    LeafOp::IntAdd
                } else {
                    LeafOp::IntSub
                },
            ),
        );
    }
    if branches(name) || goes(name) || name_is(name, "return") {
        Ok(Found::End)
    } else {
        Err(CompileFailure::UnsupportedOpcode)
    }
}

proof fn behind_twice(a: Seq<LeafOp>, op: LeafOp, scan: BlockScan)
    ensures
        scan_behind(a, scan_after(op, scan)) == scan_behind(a.push(op), scan),
{
    if let BlockScan::Ready(model) = scan {
        assert(a + (seq![op] + model.ops) =~= a.push(op) + model.ops);
    }
}

fn plan_block(cfg: &Vec<LeafBlock>, instructions: &Vec<Instruction>, signature: &BoundedSignature, b: usize) -> (r: Result<
    PlannedBlock,
    CompileFailure,
>)
    requires
        cfg_wf(cfg@, instructions@),
        constants_encoded(instructions@),
        b < cfg@.len(),
    ensures
        match scan_block(cfg@, instructions@, *signature, b as int, cfg@[b as int].first as int, Seq::empty()) {
            BlockScan::Fails(e) => r == Err::<PlannedBlock, CompileFailure>(e),
            BlockScan::Ready(model) => r matches Ok(block) && block@ == model,
        },
{
    let block = &cfg[b];
    let mut ops: Vec<LeafOp> = Vec::new();
    let mut types: Vec<FeedbackRepresentation> = Vec::new();
    let mut k: usize = block.first;
    let ghost whole = scan_block(
        cfg@,
        instructions@,
        *signature,
        b as int,
        cfg@[b as int].first as int,
        Seq::empty(),
    );
    proof {
        assert(types@ =~= Seq::<FeedbackRepresentation>::empty());
        if let BlockScan::Ready(model) = whole {
            assert(ops@ + model.ops =~= model.ops);
        }
    }
    while k < block.end
        invariant
            block == cfg@[b as int],
            b < cfg@.len(),
            cfg_wf(cfg@, instructions@),
            constants_encoded(instructions@),
            block.first <= k <= block.end <= instructions@.len(),
            whole == scan_block(
                cfg@,
                instructions@,
                *signature,
                b as int,
                cfg@[b as int].first as int,
                Seq::empty(),
            ),
            whole == scan_behind(ops@, scan_block(cfg@, instructions@, *signature, b as int, k as int, types@)),
        decreases block.end - k,
    {
        let instruction = &instructions[k];
        assert(instruction == instructions@[k as int]);
        match take_step(instruction, signature, &mut types) {
            Err(e) => {
                return Err(e);
            },
            Ok(Found::Skip) => {},
            Ok(Found::Op(op)) => {
                proof {
                    behind_twice(
                        ops@,
                        op,
                        scan_block(cfg@, instructions@, *signature, b as int, k + 1, types@),
                    );
                }
                ops.push(op);
            },
            Ok(Found::End) => {
                let end = match find_end(cfg, b, instruction, &types) {
                    Ok(end) => end,
                    Err(e) => {
                        return Err(e);
                    },
                };
                if k + 1 < block.end {
                    return Err(CompileFailure::InvalidArtifact);
                }
                assert(ops@ + Seq::<LeafOp>::empty() =~= ops@);
                return Ok(PlannedBlock { ops, end });
            },
        }
        k = k + 1;
    }
    if types.len() > 0 || block.successors.len() != 1 {
        return Err(CompileFailure::UnsupportedOpcode);
    }
    assert(block_index(cfg@, cfg@[b as int].successors@[0]) is Some);
    match find_block(cfg, block.successors[0]) {
        Some(target) => {
            assert(ops@ + Seq::<LeafOp>::empty() =~= ops@);
            Ok(PlannedBlock { ops, end: BlockEnd::Goto(target) })
        },
        None => Err(CompileFailure::InvalidArtifact),
    }
}

pub open spec fn models_of(blocks: Seq<PlannedBlock>) -> Seq<BlockModel> {
    blocks.map_values(|b: PlannedBlock| b@)
}

fn plan_blocks(cfg: &Vec<LeafBlock>, instructions: &Vec<Instruction>, signature: &BoundedSignature) -> (r: Result<
    Vec<PlannedBlock>,
    CompileFailure,
>)
    requires
        cfg_wf(cfg@, instructions@),
        constants_encoded(instructions@),
        !leads_back(cfg@),
    ensures
        match scan_blocks(cfg@, instructions@, *signature, cfg@.len()) {
            LeafScan::Fails(e) => r == Err::<Vec<PlannedBlock>, CompileFailure>(e),
            LeafScan::Ready(models) => r matches Ok(blocks) && models_of(blocks@) == models && models.len() == cfg@.len()
                && forall|b: int|
                0 <= b < models.len() ==> #[trigger] model_ok(models, b, signature.arguments@.len() as int) && model_typed(
                    models[b],
                    passed_types(signature.arguments@),
                ),
        },
{
    let mut blocks: Vec<PlannedBlock> = Vec::new();
    let mut b: usize = 0;
    proof {
        assert(models_of(blocks@) =~= Seq::<BlockModel>::empty());
    }
    while b < cfg.len()
        invariant
            b <= cfg@.len(),
            cfg_wf(cfg@, instructions@),
            constants_encoded(instructions@),
            !leads_back(cfg@),
            blocks@.len() == b,
            scan_blocks(cfg@, instructions@, *signature, b as nat) == LeafScan::Ready(models_of(blocks@)),
            forall|i: int|
                0 <= i < b ==> {
                    let model = (#[trigger] blocks@[i])@;
                    &&& model_typed(model, passed_types(signature.arguments@))
                    &&& depth_ok(model.ops, 0, 0, signature.arguments@.len() as int, values_left(model.end))
                    &&& model.end matches BlockEnd::Goto(t) ==> i < t < cfg@.len()
                    &&& model.end matches BlockEnd::Branch { taken, otherwise } ==> i < taken < cfg@.len() && i < otherwise
                        < cfg@.len()
                },
        decreases cfg@.len() - b,
    {
        let ghost blocks0 = blocks@;
        match plan_block(cfg, instructions, signature, b) {
            Ok(block) => {
                proof {
                    scanned_blocks_are_typed(
                        cfg@,
                        instructions@,
                        *signature,
                        b as int,
                        cfg@[b as int].first as int,
                        Seq::empty(),
                    );
                    assert(passed_types(Seq::empty()) =~= Seq::<Ty>::empty());
                    scanned_blocks_are_ok(
                        cfg@,
                        instructions@,
                        *signature,
                        b as int,
                        cfg@[b as int].first as int,
                        Seq::empty(),
                    );
                }
                blocks.push(block);
                proof {
                    assert(models_of(blocks@) =~= models_of(blocks0).push(block@));
                }
            },
            Err(e) => {
                proof {
                    scan_fails_early(cfg@, instructions@, *signature, (b + 1) as nat, cfg@.len());
                }
                return Err(e);
            },
        }
        b = b + 1;
    }
    proof {
        let models = models_of(blocks@);
        assert forall|i: int| 0 <= i < models.len() implies #[trigger] model_ok(
            models,
            i,
            signature.arguments@.len() as int,
        ) && model_typed(models[i], passed_types(signature.arguments@)) by {
            assert(models[i] == blocks@[i]@);
        }
    }
    Ok(blocks)
}

/// The first failure decides.
proof fn scan_fails_early(cfg: Seq<LeafBlock>, instructions: Seq<Instruction>, signature: BoundedSignature, k: nat, n: nat)
    requires
        k <= n,
        scan_blocks(cfg, instructions, signature, k) is Fails,
    ensures
        scan_blocks(cfg, instructions, signature, n) == scan_blocks(cfg, instructions, signature, k),
    decreases n,
{
    if k < n {
        scan_fails_early(cfg, instructions, signature, k, (n - 1) as nat);
    }
}

/// Control in a world while the blocks are emitted: it is at a block that is
/// still to come and yields the same, has missed, or has answered.
spec fn on_course(
    models: Seq<BlockModel>,
    natives: Seq<usize>,
    args: Seq<usize>,
    output: usize,
    miss: usize,
    b: int,
    st: Status,
    w: World,
) -> bool {
    let values = leaf_arguments(w, args.len());
    let expected = bool_value(models, values, 0, w);
    match st {
        Status::Wait { block, args: incoming, state } => {
            &&& state.trace.len() == 0
            &&& state.get(args) == values
            &&& state.vals[output as int] == w.params[0]
            &&& {
                ||| block == miss && expected is None
                ||| exists|j: int|
                    b <= j < models.len() && block == #[trigger] natives[j] && bool_value(models, values, j, w) == expected
            }
        },
        Status::Done { .. } => expected matches Some(x) && answered(st, Ty::I32, w.params[0], x),
        _ => false,
    }
}

/// Inside a block: control that waited for it is behind its first `k` operations.
spec fn inside(
    ops: Seq<LeafOp>,
    native: usize,
    args: Seq<usize>,
    stack: Seq<usize>,
    output: usize,
    miss: usize,
    k: nat,
    before: Status,
    st: Status,
    w: World,
) -> bool {
    let values = leaf_arguments(w, args.len());
    match before {
        Status::Wait { block, args: incoming, state } => if block == native {
            match leaf_fold(ops, values, k, w) {
                Some(expected) => {
                    &&& st matches Status::Run(s)
                    &&& s.trace.len() == 0
                    &&& s.get(args) == values
                    &&& s.get(stack) == expected
                    &&& s.vals[output as int] == w.params[0]
                },
                None => {
                    &&& st matches Status::Wait { block: to, args: passed, state: s }
                    &&& to == miss
                    &&& s.trace.len() == 0
                    &&& s.get(args) == values
                    &&& s.vals[output as int] == w.params[0]
                },
            }
        } else {
            st == before
        },
        _ => st == before,
    }
}

spec fn distinct(natives: Seq<usize>, miss: usize) -> bool {
    &&& forall|i: int, j: int| 0 <= i < j < natives.len() ==> #[trigger] natives[i] != #[trigger] natives[j]
    &&& forall|i: int| 0 <= i < natives.len() ==> #[trigger] natives[i] != miss
}

/// The blocks from `b` on wait for their code.
spec fn natives_wait(natives: Seq<usize>, b: int, code: Code) -> bool {
    &&& forall|i: int| 0 <= i < natives.len() ==> code.blocked(#[trigger] natives[i])
    &&& forall|i: int| b <= i < natives.len() ==> code.unstarted(#[trigger] natives[i] as int)
}

fn emit_block(
    code: &mut Code,
    blocks: &Vec<PlannedBlock>,
    natives: &Vec<usize>,
    args: &Vec<usize>,
    output: usize,
    miss: usize,
    b: usize,
    Ghost(types): Ghost<Seq<Ty>>,
)
    requires
        b < blocks@.len(),
        shut(*old(code), plain(types)),
        model_typed(blocks@[b as int]@, types.skip(1)),
        values_typed(args@, types.skip(1), *old(code)),
        old(code).holds(output, Ty::I64),
        old(code).blocked(miss),
        old(code).unstarted(miss as int),
        natives_wait(natives@, b as int, *old(code)),
        natives@.len() == blocks@.len(),
        distinct(natives@, miss),
        known(natives@, old(code).len()),
        known(args@, old(code).len()),
        output < old(code).len(),
        miss < old(code).len(),
        model_ok(models_of(blocks@), b as int, args@.len() as int),
        forall|w: World|
            on_course(models_of(blocks@), natives@, args@, output, miss, b as int, #[trigger] old(code).at(w), w),
    ensures
        kept(*old(code), *final(code)),
        old(code).len() < final(code).len(),
        shut(*final(code), plain(types)),
        values_typed(args@, types.skip(1), *final(code)),
        final(code).unstarted(miss as int),
        natives_wait(natives@, b + 1, *final(code)),
        forall|w: World|
            on_course(models_of(blocks@), natives@, args@, output, miss, b + 1, #[trigger] final(code).at(w), w),
{
    let ghost models = models_of(blocks@);
    let ghost c0 = *code;
    let block = &blocks[b];
    let ops = &block.ops;
    assert(models[b as int] == block@);
    let ghost own = types.skip(1);
    let ghost mut kinds: Seq<Ty> = Seq::empty();
    assert(code.unstarted(natives@[b as int] as int));
    let _ = code.switch_to(natives[b]);
    let mut stack: Vec<usize> = Vec::new();
    let mut k: usize = 0;
    proof {
        reveal(appended);
        assert forall|i: int| 0 <= i < args@.len() implies code.holds(#[trigger] args@[i], own[i]) by {
            assert(c0.holds(args@[i], own[i]));
        }
    }
    proof {
        assert forall|w: World| !(#[trigger] c0.at(w) is Run) by {
            assert(on_course(models, natives@, args@, output, miss, b as int, c0.at(w), w));
        }
        assert forall|w: World|
            inside(ops@, natives@[b as int], args@, stack@, output, miss, 0, c0.at(w), #[trigger] code.at(w), w) by {
            let a = c0.at(w);
            assert(on_course(models, natives@, args@, output, miss, b as int, a, w));
            if let Status::Wait { block: at, args: incoming, state } = a {
                if at == natives@[b as int] {
                    let s = code.at(w)->Run_0;
                    assert(s.get(args@) =~= state.get(args@));
                    assert(s.get(stack@) =~= Seq::<int>::empty());
                }
            }
        }
    }
    while k < ops.len()
        invariant
            kept(*old(code), *code),
            k <= ops@.len(),
            b < natives@.len(),
            c0.len() <= code.len(),
            miss < code.len(),
            output < code.len(),
            known(args@, code.len()),
            known(stack@, code.len()),
            depth_ok(ops@, k as int, stack@.len() as int, args@.len() as int, values_left(block.end)),
            typed_from(ops@, k as int, kinds, own, types_left(block.end)),
            values_typed(stack@, kinds, *code),
            values_typed(args@, own, *code),
            live(*code, plain(types)),
            code.holds(output, Ty::I64),
            code.blocked(miss),
            code.unstarted(miss as int),
            natives_wait(natives@, b + 1, *code),
            forall|w: World| !(#[trigger] c0.at(w) is Run),
            forall|w: World|
                inside(
                    ops@,
                    natives@[b as int],
                    args@,
                    stack@,
                    output,
                    miss,
                    k as nat,
                    c0.at(w),
                    #[trigger] code.at(w),
                    w,
                ),
        decreases ops@.len() - k,
    {
        let ghost before = *code;
        let ghost stack0 = stack@;
        emit_leaf(code, ops[k], args, &mut stack, miss);
        proof {
            typed_on(ops@[k as int], args@, stack0, stack@, own, kinds, before, *code);
            kinds = typed_step(ops@[k as int], own, kinds)->Some_0;
            assert(natives_wait(natives@, b + 1, *code)) by {
                assert forall|i: int| 0 <= i < natives@.len() implies code.blocked(#[trigger] natives@[i]) by {
                    assert(before.blocked(natives@[i]));
                }
                assert forall|i: int| b + 1 <= i < natives@.len() implies code.unstarted(#[trigger] natives@[i] as int) by {
                    assert(before.blocked(natives@[i]));
                    assert(before.unstarted(natives@[i] as int));
                }
            }
            assert forall|w: World|
                inside(
                    ops@,
                    natives@[b as int],
                    args@,
                    stack@,
                    output,
                    miss,
                    (k + 1) as nat,
                    c0.at(w),
                    #[trigger] code.at(w),
                    w,
                ) by {
                let a = before.at(w);
                assert(inside(ops@, natives@[b as int], args@, stack0, output, miss, k as nat, c0.at(w), a, w));
                if let Status::Run(s) = a {
                    if let Status::Run(t) = code.at(w) {
                        gets_agree(s, t, before.len(), args@);
                    }
                    if let Status::Wait { block, args: passed, state: t } = code.at(w) {
                        gets_agree(s, t, before.len(), args@);
                    }
                }
            }
        }
        k = k + 1;
    }
    let ghost ready = *code;
    proof {
        if !(block.end is Goto) {
            assert(ready.holds(stack@[0], kinds[0]));
        }
        assert forall|i: int| 0 <= i < natives@.len() implies ready.blocked(#[trigger] natives@[i]) by {}
    }
    match block.end {
        BlockEnd::Return => {
            emit_answer(code, Ty::I32, output, stack[0]);
        },
        BlockEnd::Goto(target) => {
            code.jump(natives[target]);
        },
        BlockEnd::Branch { taken, otherwise } => {
            let condition = code.compare_imm(IntCc::NotEqual, Ty::I32, stack[0], 0);
            code.branch(condition, natives[taken], natives[otherwise]);
        },
    }
    proof {
        reveal(branched);
        reveal(went);
        assert forall|i: int| 0 <= i < args@.len() implies code.holds(#[trigger] args@[i], own[i]) by {
            assert(ready.holds(args@[i], own[i]));
        }
        assert(natives_wait(natives@, b + 1, *code)) by {
            assert forall|i: int| 0 <= i < natives@.len() implies code.blocked(#[trigger] natives@[i]) by {
                assert(ready.blocked(natives@[i]));
            }
            assert forall|i: int| b + 1 <= i < natives@.len() implies code.unstarted(#[trigger] natives@[i] as int) by {
                assert(ready.blocked(natives@[i]));
                assert(ready.unstarted(natives@[i] as int));
            }
        }
        assert(code.unstarted(miss as int));
        assert(shut(*code, plain(types)));
        assert forall|w: World|
            on_course(models, natives@, args@, output, miss, b + 1, #[trigger] code.at(w), w) by {
            let a = c0.at(w);
            let r = ready.at(w);
            let st = code.at(w);
            let values = leaf_arguments(w, args@.len());
            assert(on_course(models, natives@, args@, output, miss, b as int, a, w));
            assert(inside(ops@, natives@[b as int], args@, stack@, output, miss, ops@.len(), a, r, w));
            if let Status::Wait { block: at, args: incoming, state } = a {
                if at == natives@[b as int] {
                    assert(at != miss);
                    let j = choose|j: int|
                        b <= j < models.len() && at == #[trigger] natives@[j] && bool_value(models, values, j, w)
                            == bool_value(models, values, 0, w);
                    assert(j == b);
                    if let Status::Run(s) = r {
                        if block.end is Return {
                            assert(s.get(stack@).last() == s.vals[stack@[0] as int]);
                            let store = Event::Store {
                                ty: Ty::I32,
                                address: wrap(Ty::I64, w.params[0]),
                                value: s.vals[stack@[0] as int],
                            };
                            assert(s.trace =~= Seq::<Event>::empty());
                            assert(s.trace.push(store) =~= seq![store]);
                        }
                        if let BlockEnd::Goto(target) = block.end {
                            assert(natives@[target as int] == st->Wait_block);
                        }
                        if let BlockEnd::Branch { taken, otherwise } = block.end {
                            assert(s.get(stack@).last() == s.vals[stack@[0] as int]);
                            gets_agree(s, st->Wait_state, ready.len(), args@);
                            let next = if s.vals[stack@[0] as int] != 0 {
                                taken
                            } else {
                                otherwise
                            };
                            assert(natives@[next as int] == st->Wait_block);
                        }
                    }
                } else if at != miss {
                    let j = choose|j: int|
                        b <= j < models.len() && at == #[trigger] natives@[j] && bool_value(models, values, j, w)
                            == bool_value(models, values, 0, w);
                    assert(j != b);
                    assert(natives@[j] == at);
                }
            }
        }
    }
}

/// Emits the blocks of a function whose branches lead forward.
fn emit_blocks(blocks: &Vec<PlannedBlock>, types: Vec<Ty>) -> (r: LeafEntry)
    requires
        types@.len() > 0,
        blocks@.len() > 0,
        types@[0] == Ty::I64,
        forall|b: int|
            0 <= b < blocks@.len() ==> #[trigger] model_ok(models_of(blocks@), b, types@.len() - 1) && model_typed(
                models_of(blocks@)[b],
                types@.skip(1),
            ),
    ensures
        r.params@ == types@,
        assembles(r.code.insts@, plain(types@)),
        forall|w: World| #[trigger] bool_outcome(models_of(blocks@), (types@.len() - 1) as nat, r.code.at(w), w),
{
    let ghost models = models_of(blocks@);
    let begun = begin_entry(&types);
    let BegunEntry { mut code, miss, output, args } = begun;
    let mut natives: Vec<usize> = Vec::new();
    while natives.len() < blocks.len()
        invariant
            natives@.len() <= blocks@.len(),
            miss < code.len(),
            output < code.len(),
            known(args@, code.len()),
            known(natives@, code.len()),
            distinct(natives@, miss),
            live(code, plain(types@)),
            code.holds(output, Ty::I64),
            values_typed(args@, types@.skip(1), code),
            code.blocked(miss),
            code.unstarted(miss as int),
            natives_wait(natives@, 0, code),
            forall|w: World| #[trigger]
                code.at(w) matches Status::Run(s) && s.trace.len() == 0 && s.get(args@) == leaf_arguments(w, args@.len())
                    && s.vals[output as int] == w.params[0],
        decreases blocks@.len() - natives@.len(),
    {
        let ghost c0 = code;
        let native = code.new_block();
        natives.push(native);
        proof {
            reveal(appended);
            assert forall|i: int| 0 <= i < args@.len() implies code.holds(#[trigger] args@[i], types@.skip(1)[i]) by {
                assert(c0.holds(args@[i], types@.skip(1)[i]));
            }
            assert forall|i: int| 0 <= i < natives@.len() implies code.blocked(#[trigger] natives@[i]) && code.unstarted(
                natives@[i] as int,
            ) by {
                if i < natives@.len() - 1 {
                    assert(c0.blocked(natives@[i]));
                    assert(c0.unstarted(natives@[i] as int));
                }
            }
        }
    }
    let ghost before = code;
    assert(before.blocked(natives@[0]));
    code.jump(natives[0]);
    proof {
        reveal(went);
        assert forall|i: int| 0 <= i < args@.len() implies code.holds(#[trigger] args@[i], types@.skip(1)[i]) by {
            assert(before.holds(args@[i], types@.skip(1)[i]));
        }
        assert forall|i: int| 0 <= i < natives@.len() implies code.blocked(#[trigger] natives@[i]) && code.unstarted(
            natives@[i] as int,
        ) by {
            assert(before.blocked(natives@[i]));
            assert(before.unstarted(natives@[i] as int));
        }
        assert forall|w: World| on_course(models, natives@, args@, output, miss, 0, #[trigger] code.at(w), w) by {
            let a = before.at(w);
            assert(natives@[0] == code.at(w)->Wait_block);
        }
    }
    let mut b: usize = 0;
    while b < blocks.len()
        invariant
            b <= blocks@.len(),
            models == models_of(blocks@),
            natives@.len() == blocks@.len(),
            args@.len() == types@.len() - 1,
            distinct(natives@, miss),
            known(natives@, code.len()),
            known(args@, code.len()),
            output < code.len(),
            miss < code.len(),
            forall|b: int|
                0 <= b < blocks@.len() ==> #[trigger] model_ok(models, b, types@.len() - 1) && model_typed(
                    models[b],
                    types@.skip(1),
                ),
            shut(code, plain(types@)),
            values_typed(args@, types@.skip(1), code),
            code.holds(output, Ty::I64),
            code.blocked(miss),
            code.unstarted(miss as int),
            natives_wait(natives@, b as int, code),
            forall|w: World| on_course(models, natives@, args@, output, miss, b as int, #[trigger] code.at(w), w),
        decreases blocks@.len() - b,
    {
        assert(model_ok(models, b as int, types@.len() - 1));
        assert(models[b as int] == blocks@[b as int]@);
        emit_block(&mut code, blocks, &natives, &args, output, miss, b, Ghost(types@));
        b = b + 1;
    }
    let ghost ready = code;
    emit_miss(&mut code, miss);
    proof {
        assert(shut(code, plain(types@)));
        reveal(shut);
        assert forall|w: World| #[trigger] bool_outcome(models, (types@.len() - 1) as nat, code.at(w), w) by {
            let c = code.at(w);
            assert(on_course(models, natives@, args@, output, miss, blocks@.len() as int, ready.at(w), w));
        }
    }
    LeafEntry { code, params: types }
}

/// The entry takes what the signature says, and answers what the blocks yield.
/// The assembler takes its code with these parameters.
pub open spec fn bool_entry(entry: LeafEntry, signature: BoundedSignature, models: Seq<BlockModel>) -> bool {
    &&& entry.params@ == seq![Ty::I64] + signature.arguments@.map_values(|a: FeedbackRepresentation| passed_type(a))
    &&& assembles(entry.code.insts@, plain(entry.params@))
    &&& forall|w: World| #[trigger] bool_outcome(models, signature.arguments@.len(), entry.code.at(w), w)
}

fn refused(function: &VerifiedFunction, cfg: &Vec<LeafBlock>, signature: &BoundedSignature) -> (r: Option<CompileFailure>)
    ensures
        r == bool_refusal(*function, cfg@, *signature),
{
    if signature.result != FeedbackRepresentation::Int32 {
        return Some(CompileFailure::UnsupportedOpcode);
    }
    let mut i: usize = 0;
    while i < signature.arguments.len()
        invariant
            i <= signature.arguments@.len(),
            signature.result == FeedbackRepresentation::Int32,
            forall|k: int|
                0 <= k < i ==> #[trigger] signature.arguments@[k] == FeedbackRepresentation::Int32
                    || signature.arguments@[k] == FeedbackRepresentation::Bool,
        decreases signature.arguments@.len() - i,
    {
        if signature.arguments[i] != FeedbackRepresentation::Int32 && signature.arguments[i]
            != FeedbackRepresentation::Bool {
            return Some(CompileFailure::UnsupportedOpcode);
        }
        i = i + 1;
    }
    if function.has_exceptions {
        return Some(CompileFailure::UnsupportedOpcode);
    }
    let mut b: usize = 0;
    while b < cfg.len()
        invariant
            b <= cfg@.len(),
            forall|k: int|
                0 <= k < signature.arguments@.len() ==> #[trigger] signature.arguments@[k]
                    == FeedbackRepresentation::Int32 || signature.arguments@[k] == FeedbackRepresentation::Bool,
            signature.result == FeedbackRepresentation::Int32,
            !function.has_exceptions,
            forall|c: int, k: int|
                0 <= c < b && 0 <= k < cfg@[c].successors@.len() ==> #[trigger] cfg@[c].successors@[k]
                    > cfg@[c].start_pc,
        decreases cfg@.len() - b,
    {
        let mut k: usize = 0;
        while k < cfg[b].successors.len()
            invariant
                b < cfg@.len(),
                k <= cfg@[b as int].successors@.len(),
                forall|i: int| 0 <= i < k ==> #[trigger] cfg@[b as int].successors@[i] > cfg@[b as int].start_pc,
            decreases cfg@[b as int].successors@.len() - k,
        {
            if cfg[b].successors[k] <= cfg[b].start_pc {
                proof {
                    assert(cfg@[b as int].successors@[k as int] <= cfg@[b as int].start_pc);
                    assert(leads_back(cfg@));
                }
                return Some(CompileFailure::UnsupportedOpcode);
            }
            k = k + 1;
        }
        b = b + 1;
    }
    if cfg.len() == 0 || cfg[0].start_pc != 0 {
        Some(CompileFailure::InvalidArtifact)
    } else {
        None
    }
}

/// Lowers a function with truth values among its arguments. Those serve as
/// conditions only, and every branch leads forward with nothing on the stack.
pub fn lower_direct_bool_leaf(function: &VerifiedFunction, cfg: &Vec<LeafBlock>, signature: &BoundedSignature) -> (r: Result<
    LeafEntry,
    CompileFailure,
>)
    requires
        cfg_wf(cfg@, function.instructions@),
        constants_encoded(function.instructions@),
    ensures
        match bool_plan(*function, cfg@, *signature) {
            LeafScan::Fails(e) => r == Err::<LeafEntry, CompileFailure>(e),
            LeafScan::Ready(models) => r matches Ok(entry) && bool_entry(entry, *signature, models),
        },
{
    if let Some(e) = refused(function, cfg, signature) {
        return Err(e);
    }
    let blocks = match plan_blocks(cfg, &function.instructions, signature) {
        Ok(blocks) => blocks,
        Err(e) => {
            return Err(e);
        },
    };
    let types = entry_types(&signature.arguments);
    let ghost arity = (types@.len() - 1) as nat;
    assert(types@.skip(1) =~= passed_types(signature.arguments@));
    let entry = emit_blocks(&blocks, types);
    proof {
        assert(arity == signature.arguments@.len());
        assert forall|w: World| #[trigger]
            bool_outcome(models_of(blocks@), signature.arguments@.len(), entry.code.at(w), w) by {
            assert(bool_outcome(models_of(blocks@), arity, entry.code.at(w), w));
        }
    }
    Ok(entry)
}

/// An entry over several blocks answers exactly where every operation on its
/// path succeeds, and leaves without a trace where one misses.
pub proof fn branching_misses_leave_no_trace(entry: LeafEntry, signature: BoundedSignature, models: Seq<BlockModel>, w: World)
    requires
        bool_entry(entry, signature, models),
    ensures
        bool_value(models, leaf_arguments(w, signature.arguments@.len()), 0, w) is None <==> untouched(entry.code.at(w)),
{
    assert(bool_outcome(models, signature.arguments@.len(), entry.code.at(w), w));
}

} // verus!
