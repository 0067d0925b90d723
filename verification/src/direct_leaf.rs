//! Entries for direct calls: arguments and result are unboxed, and there is no
//! frame. An entry answers with status zero and stores its result, or with
//! status one and has done nothing.
use crate::assemble::assembles;
use crate::assemble::passed_ty;
use crate::assemble::Known;
use crate::clif::Passed;
use crate::code::kept;
use crate::code::wrap;
use crate::code::Code;
use crate::code::Event;
use crate::code::Status;
use crate::code::Ty;
use crate::code::World;
use crate::control::CompileControl;
use crate::control::CompileFailure;
use crate::inline_frames::InlineOp;
use crate::leaf::answered;
use crate::leaf::emit_answer;
use crate::leaf::emit_leaf;
use crate::leaf::emit_miss;
use crate::leaf::gets_agree;
use crate::leaf::known;
use crate::leaf::leaf_fits;
use crate::leaf::leaf_kind;
use crate::leaf::leaf_operands;
use crate::leaf::leaf_pops;
use crate::leaf::leaf_pushes;
use crate::leaf::leaf_step;
use crate::leaf::missed;
use crate::leaf::LeafOp;
use crate::lower_values::FrameBinaryOp;
use crate::names::constant_encoded;
use crate::names::name_is;
use crate::names::opt_constant;
use crate::names::opt_index;
use crate::names::pushed_constant;
use crate::names::spec_index;
use crate::qjs::JS_TAG_FLOAT64;
use crate::qjs::JS_TAG_INT;
use crate::runtime::BoundedSignature;
use crate::runtime::FeedbackRepresentation;
use crate::runtime::Instruction;
use crate::runtime::VerifiedFunction;
use crate::specialized_calls::passed_type;
use crate::typing::appended;
use crate::typing::closing;
use crate::typing::live;
use crate::typing::nothing_written;
use crate::typing::opened;
use crate::typing::opening;
use crate::typing::shut;
use crate::typing::steady;
use vstd::prelude::*;

verus! {

broadcast use crate::typing::group_typing;

/// Code of an entry, and how it is called.
#[derive(Debug)]
pub struct LeafEntry {
    pub code: Code,
    pub params: Vec<Ty>,
}

/// What comes of planning an entry.
pub enum LeafPlan {
    Fails(CompileFailure),
    Ready(Seq<LeafOp>),
    /// The instructions end without a return, or go on behind it.
    Malformed,
}

/// Operations before a plan.
pub open spec fn prepend(ops: Seq<LeafOp>, plan: LeafPlan) -> LeafPlan {
    match plan {
        LeafPlan::Ready(rest) => LeafPlan::Ready(ops + rest),
        other => other,
    }
}

/// The operations always find their operands, and leave one value.
pub open spec fn valid_from(ops: Seq<LeafOp>, k: int, depth: int, arity: int) -> bool
    decreases ops.len() - k,
{
    if k >= ops.len() {
        depth == 1
    } else {
        &&& leaf_pops(ops[k]) <= depth
        &&& ops[k] matches LeafOp::Argument(index) ==> index < arity
        &&& valid_from(ops, k + 1, depth - leaf_pops(ops[k]) + leaf_pushes(ops[k]), arity)
    }
}

/// Parameters that are passed as they are.
pub open spec fn plain(types: Seq<Ty>) -> Seq<Passed> {
    types.map_values(|ty: Ty| Passed::Plain(ty))
}

/// The types of the stack behind an operation, where its operands have the types
/// that it takes.
pub open spec fn typed_step(op: LeafOp, args: Seq<Ty>, stack: Seq<Ty>) -> Option<Seq<Ty>> {
    let n = stack.len();
    match op {
        LeafOp::IntConst(_) => Some(stack.push(Ty::I32)),
        LeafOp::FloatConst(_) | LeafOp::FloatOfInt(_) => Some(stack.push(Ty::F64)),
        LeafOp::Argument(index) => if index < args.len() {
            Some(stack.push(args[index as int]))
        } else {
            None
        },
        LeafOp::Drop => if n > 0 {
            Some(stack.take(n - 1))
        } else {
            None
        },
        LeafOp::IntNeg => if n > 0 && stack[n - 1] == Ty::I32 {
            Some(stack.take(n - 1).push(Ty::I32))
        } else {
            None
        },
        LeafOp::FloatNeg => if n > 0 && stack[n - 1] == Ty::F64 {
            Some(stack.take(n - 1).push(Ty::F64))
        } else {
            None
        },
        LeafOp::IntAdd | LeafOp::IntSub | LeafOp::IntMul | LeafOp::IntMod => if n > 1 && stack[n - 2] == Ty::I32
            && stack[n - 1] == Ty::I32 {
            Some(stack.take(n - 2).push(Ty::I32))
        } else {
            None
        },
        LeafOp::FloatAdd | LeafOp::FloatSub | LeafOp::FloatMul | LeafOp::FloatDiv => if n > 1 && stack[n - 2] == Ty::F64
            && stack[n - 1] == Ty::F64 {
            Some(stack.take(n - 2).push(Ty::F64))
        } else {
            None
        },
    }
}

/// The operations from `k` on take the types that are there, and leave these.
pub open spec fn typed_from(ops: Seq<LeafOp>, k: int, stack: Seq<Ty>, args: Seq<Ty>, left: Seq<Ty>) -> bool
    decreases ops.len() - k,
{
    if k >= ops.len() {
        stack == left
    } else {
        typed_step(ops[k], args, stack) matches Some(after) && typed_from(ops, k + 1, after, args, left)
    }
}

/// The values at the positions have the types.
pub open spec fn values_typed(ids: Seq<usize>, types: Seq<Ty>, code: Code) -> bool {
    ids.len() == types.len() && forall|k: int| 0 <= k < ids.len() ==> code.holds(#[trigger] ids[k], types[k])
}

/// An operation that takes the types that are there is emitted in order, and
/// leaves the types that it says.
pub(crate) proof fn typed_on(
    op: LeafOp,
    args: Seq<usize>,
    before: Seq<usize>,
    after: Seq<usize>,
    arg_types: Seq<Ty>,
    types: Seq<Ty>,
    a: Code,
    b: Code,
)
    requires
        typed_step(op, arg_types, types) is Some,
        values_typed(args, arg_types, a),
        values_typed(before, types, a),
        kept(a, b),
        known(after, b.len()),
        after == before.take(before.len() - leaf_pops(op)) + (if op == LeafOp::Drop {
            Seq::<usize>::empty()
        } else {
            seq![after.last()]
        }),
        op != LeafOp::Drop ==> b.kind(after.last() as int) == leaf_kind(op, args, a),
    ensures
        leaf_fits(op, before, a),
        values_typed(args, arg_types, b),
        values_typed(after, typed_step(op, arg_types, types)->Some_0, b),
{
    let n = before.len();
    let out = typed_step(op, arg_types, types)->Some_0;
    if n > 0 {
        assert(a.holds(before[n - 1], types[n - 1]));
    }
    if n > 1 {
        assert(a.holds(before[n - 2], types[n - 2]));
    }
    assert forall|k: int| 0 <= k < after.len() implies b.holds(#[trigger] after[k], out[k]) by {
        if k < n - leaf_pops(op) {
            assert(after[k] == before[k]);
            assert(a.holds(before[k], types[k]));
        } else {
            assert(after[k] == after.last());
            if let LeafOp::Argument(index) = op {
                assert(a.holds(args[index as int], arg_types[index as int]));
            }
        }
    }
}

/// Types of a sequence with one more operation in front.
pub(crate) proof fn typed_shift(a: Seq<LeafOp>, b: Seq<LeafOp>, shift: int, k: int, stack: Seq<Ty>, args: Seq<Ty>, left: Seq<Ty>)
    requires
        shift >= 0,
        k >= 0,
        b.len() == a.len() + shift,
        forall|i: int| 0 <= i < a.len() ==> #[trigger] a[i] == b[i + shift],
        typed_from(a, k, stack, args, left),
    ensures
        typed_from(b, k + shift, stack, args, left),
    decreases a.len() - k,
{
    if k < a.len() {
        assert(a[k] == b[k + shift]);
        typed_shift(a, b, shift, k + 1, typed_step(a[k], args, stack)->Some_0, args, left);
    }
}

/// The stack after the first `k` operations, or nothing where one missed.
pub open spec fn leaf_fold(ops: Seq<LeafOp>, args: Seq<int>, k: nat, w: World) -> Option<Seq<int>>
    decreases k,
{
    if k == 0 {
        Some(Seq::empty())
    } else {
        match leaf_fold(ops, args, (k - 1) as nat, w) {
            Some(stack) => leaf_step(ops[k - 1], args, stack, w),
            None => None,
        }
    }
}

/// The arguments behind the address of the output.
pub open spec fn leaf_arguments(w: World, arity: nat) -> Seq<int> {
    Seq::new(arity, |i: int| w.params[i + 1])
}

/// What an entry does: it answers what its operations yield, or it misses.
pub open spec fn leaf_outcome(ops: Seq<LeafOp>, arity: nat, ty: Ty, st: Status, w: World) -> bool {
    match leaf_fold(ops, leaf_arguments(w, arity), ops.len(), w) {
        Some(stack) => answered(st, ty, w.params[0], stack.last()),
        None => missed(st),
    }
}

/// Control is in the middle of an entry.
spec fn leaf_running(ops: Seq<LeafOp>, args: Seq<usize>, stack: Seq<usize>, output: usize, miss: usize, k: nat, st: Status, w: World) -> bool {
    let values = leaf_arguments(w, args.len());
    match leaf_fold(ops, values, k, w) {
        Some(expected) => st matches Status::Run(s) && s.trace.len() == 0 && s.get(args) == values && s.get(stack)
            == expected && s.vals[output as int] == w.params[0],
        None => st matches Status::Wait { block, args, state } && block == miss && state.trace.len() == 0,
    }
}

/// An entry whose parameters have been taken.
pub struct BegunEntry {
    pub code: Code,
    pub miss: usize,
    pub output: usize,
    pub args: Vec<usize>,
}

impl BegunEntry {
    pub open spec fn wf(&self) -> bool {
        &&& self.miss < self.code.len()
        &&& self.output < self.code.len()
        &&& known(self.args@, self.code.len())
    }
}

/// Takes the address of the output and the arguments.
pub fn begin_entry(types: &Vec<Ty>) -> (r: BegunEntry)
    requires
        types@.len() > 0,
    ensures
        r.wf(),
        r.args@.len() == types@.len() - 1,
        live(r.code, plain(types@)),
        r.code.holds(r.output, types@[0]),
        values_typed(r.args@, types@.skip(1), r.code),
        r.code.blocked(r.miss),
        r.code.unstarted(r.miss as int),
        forall|w: World| #[trigger]
            r.code.at(w) matches Status::Run(s) && s.trace.len() == 0 && s.get(r.args@) == leaf_arguments(w, r.args@.len())
                && s.vals[r.output as int] == w.params[0],
{
    let mut code = Code::new();
    proof {
        reveal(appended);
        nothing_written(code, plain(types@));
    }
    let miss = code.new_block();
    let output = code.param(0, types[0]);
    let mut args: Vec<usize> = Vec::new();
    let mut i: usize = 1;
    while i < types.len()
        invariant
            1 <= i <= types@.len(),
            args@.len() == i - 1,
            miss < code.len(),
            output < code.len(),
            known(args@, code.len()),
            opening(code, plain(types@)),
            code.holds(output, types@[0]),
            values_typed(args@, types@.subrange(1, i as int), code),
            code.blocked(miss),
            code.unstarted(miss as int),
            forall|w: World| #[trigger]
                code.at(w) matches Status::Run(s) && s.trace.len() == 0 && s.incoming == w.params && s.get(args@)
                    == leaf_arguments(w, args@.len()) && s.vals[output as int] == w.params[0],
        decreases types@.len() - i,
    {
        let ghost before = code;
        let ghost args0 = args@;
        let arg = code.param(i, types[i]);
        args.push(arg);
        proof {
            reveal(appended);
            assert forall|k: int| 0 <= k < args@.len() implies code.holds(
                #[trigger] args@[k],
                types@.subrange(1, i + 1)[k],
            ) by {
                if k < args0.len() {
                    assert(before.holds(args0[k], types@.subrange(1, i as int)[k]));
                }
            }
            assert forall|w: World| #[trigger]
                code.at(w) matches Status::Run(s) && s.trace.len() == 0 && s.incoming == w.params && s.get(args@)
                    == leaf_arguments(w, args@.len()) && s.vals[output as int] == w.params[0] by {
                let b = before.at(w);
                let s = b->Run_0;
                let t = code.at(w)->Run_0;
                gets_agree(s, t, before.len(), args0);
                assert(t.get(args@) =~= leaf_arguments(w, args@.len())) by {
                    assert forall|k: int| 0 <= k < args@.len() implies t.get(args@)[k] == leaf_arguments(
                        w,
                        args@.len(),
                    )[k] by {
                        if k < args0.len() {
                            assert(t.get(args0)[k] == leaf_arguments(w, args0.len())[k]);
                        }
                    }
                }
            }
        }
        i = i + 1;
    }
    proof {
        opened(code, plain(types@));
        assert(types@.subrange(1, types@.len() as int) =~= types@.skip(1));
    }
    BegunEntry { code, miss, output, args }
}

/// Emits an entry's operations.
pub fn emit_entry(ops: &Vec<LeafOp>, types: Vec<Ty>, ty: Ty) -> (r: LeafEntry)
    requires
        types@.len() > 0,
        types@[0] == Ty::I64,
        valid_from(ops@, 0, 0, types@.len() - 1),
        typed_from(ops@, 0, Seq::empty(), types@.skip(1), seq![ty]),
    ensures
        r.params@ == types@,
        assembles(r.code.insts@, plain(types@)),
        forall|w: World| #[trigger] leaf_outcome(ops@, (types@.len() - 1) as nat, ty, r.code.at(w), w),
{
    let begun = begin_entry(&types);
    let BegunEntry { mut code, miss, output, args } = begun;
    let mut stack: Vec<usize> = Vec::new();
    let mut k: usize = 0;
    let ghost own = types@.skip(1);
    let ghost mut kinds: Seq<Ty> = Seq::empty();
    proof {
        assert forall|w: World| #[trigger]
            code.at(w) is Run implies leaf_running(ops@, args@, stack@, output, miss, 0, code.at(w), w) by {
            let s = code.at(w)->Run_0;
            assert(s.get(stack@) =~= Seq::<int>::empty());
        }
    }
    while k < ops.len()
        invariant
            k <= ops@.len(),
            args@.len() == types@.len() - 1,
            miss < code.len(),
            output < code.len(),
            known(args@, code.len()),
            known(stack@, code.len()),
            valid_from(ops@, k as int, stack@.len() as int, args@.len() as int),
            typed_from(ops@, k as int, kinds, own, seq![ty]),
            values_typed(stack@, kinds, code),
            values_typed(args@, own, code),
            code.holds(output, Ty::I64),
            code.blocked(miss),
            code.unstarted(miss as int),
            live(code, plain(types@)),
            forall|w: World| leaf_running(ops@, args@, stack@, output, miss, k as nat, #[trigger] code.at(w), w),
        decreases ops@.len() - k,
    {
        let ghost before = code;
        let ghost stack0 = stack@;
        emit_leaf(&mut code, ops[k], &args, &mut stack, miss);
        proof {
            typed_on(ops@[k as int], args@, stack0, stack@, own, kinds, before, code);
            kinds = typed_step(ops@[k as int], own, kinds)->Some_0;
            assert forall|w: World|
                leaf_running(ops@, args@, stack@, output, miss, (k + 1) as nat, #[trigger] code.at(w), w) by {
                let b = before.at(w);
                assert(leaf_running(ops@, args@, stack0, output, miss, k as nat, b, w));
                if let Status::Run(s) = b {
                    if let Status::Run(t) = code.at(w) {
                        gets_agree(s, t, before.len(), args@);
                    }
                }
            }
        }
        k = k + 1;
    }
    let ghost ready = code;
    assert(ready.holds(stack@[0], kinds[0]));
    emit_answer(&mut code, ty, output, stack[0]);
    let ghost answering = code;
    emit_miss(&mut code, miss);
    proof {
        assert(shut(code, plain(types@)));
        reveal(shut);
        assert forall|w: World| #[trigger] leaf_outcome(ops@, (types@.len() - 1) as nat, ty, code.at(w), w) by {
            let a = ready.at(w);
            let b = answering.at(w);
            let c = code.at(w);
            assert(leaf_running(ops@, args@, stack@, output, miss, ops@.len(), a, w));
            if let Status::Run(s) = a {
                assert(s.get(stack@).last() == s.vals[stack@[0] as int]);
                let store = Event::Store { ty, address: wrap(Ty::I64, w.params[0]), value: s.vals[stack@[0] as int] };
                assert(s.trace =~= Seq::<Event>::empty());
                assert(s.trace.push(store) =~= seq![store]);
            }
        }
    }
    LeafEntry { code, params: types }
}

#[derive(Clone, Copy, Debug, PartialEq, Eq, Structural)]
pub enum DirectStep {
    Skip,
    Op(LeafOp),
    /// An operation on two operands that has no unboxed form.
    Refuse,
    Return,
}

/// What an instruction means where all values are doubles, or all Int32.
pub open spec fn direct_step(name: Seq<char>, bytes: Seq<u8>, float: bool, arity: int) -> Result<DirectStep, CompileFailure> {
    if name == "nop"@ {
        Ok(DirectStep::Skip)
    } else {
        match pushed_constant(name, bytes) {
            Some(x) => Ok(
                DirectStep::Op(
                    if float {
                        LeafOp::FloatOfInt(x as i32)
                    } else {
                        LeafOp::IntConst(x as i32)
                    },
                ),
            ),
            None => match spec_index(name, bytes, "get_arg"@) {
                Err(e) => Err(e),
                Ok(Some(index)) => if index < arity {
                    Ok(DirectStep::Op(LeafOp::Argument(index)))
                } else {
                    Err(CompileFailure::UnsupportedOpcode)
                },
                Ok(None) => named_step(name, float),
            },
        }
    }
}

pub open spec fn named_step(name: Seq<char>, float: bool) -> Result<DirectStep, CompileFailure> {
    if name == "add"@ {
        Ok(DirectStep::Op(if float { LeafOp::FloatAdd } else { LeafOp::IntAdd }))
    } else if name == "sub"@ {
        Ok(DirectStep::Op(if float { LeafOp::FloatSub } else { LeafOp::IntSub }))
    } else if name == "mul"@ {
        Ok(DirectStep::Op(if float { LeafOp::FloatMul } else { LeafOp::IntMul }))
    } else if name == "div"@ {
        if float {
            Ok(DirectStep::Op(LeafOp::FloatDiv))
        } else {
            Ok(DirectStep::Refuse)
        }
    } else if name == "neg"@ {
        Ok(DirectStep::Op(if float { LeafOp::FloatNeg } else { LeafOp::IntNeg }))
    } else if name == "mod"@ {
        if float {
            Err(CompileFailure::UnsupportedOpcode)
        } else {
            Ok(DirectStep::Op(LeafOp::IntMod))
        }
    } else if name == "return"@ {
        Ok(DirectStep::Return)
    } else {
        Err(CompileFailure::UnsupportedOpcode)
    }
}

fn find_named_step(name: &str, float: bool) -> (r: Result<DirectStep, CompileFailure>)
    ensures
        r == named_step(name@, float),
{
    if name_is(name, "add") {
        Ok(
            DirectStep::Op(
                if float {
                    LeafOp::FloatAdd
                } else {
                    LeafOp::IntAdd
                },
            ),
        )
    } else if name_is(name, "sub") {
        Ok(
            DirectStep::Op(
                if float {
                    LeafOp::FloatSub
                } else {
                    LeafOp::IntSub
                },
            ),
        )
    } else if name_is(name, "mul") {
        Ok(
            DirectStep::Op(
                if float {
                    LeafOp::FloatMul
                } else {
                    LeafOp::IntMul
                },
            ),
        )
    } else if name_is(name, "div") {
        if float {
            Ok(DirectStep::Op(LeafOp::FloatDiv))
        } else {
            Ok(DirectStep::Refuse)
        }
    } else if name_is(name, "neg") {
        Ok(
            DirectStep::Op(
                if float {
                    LeafOp::FloatNeg
                } else {
                    LeafOp::IntNeg
                },
            ),
        )
    } else if name_is(name, "mod") {
        if float {
            Err(CompileFailure::UnsupportedOpcode)
        } else {
            Ok(DirectStep::Op(LeafOp::IntMod))
        }
    } else if name_is(name, "return") {
        Ok(DirectStep::Return)
    } else {
        Err(CompileFailure::UnsupportedOpcode)
    }
}

fn find_direct_step(name: &str, bytes: &[u8], float: bool, arity: usize) -> (r: Result<DirectStep, CompileFailure>)
    requires
        constant_encoded(name@, bytes@),
    ensures
        r == direct_step(name@, bytes@, float, arity as int),
{
    if name_is(name, "nop") {
        return Ok(DirectStep::Skip);
    }
    if let Some(x) = opt_constant(name, bytes) {
        return Ok(
            DirectStep::Op(
                if float {
                    LeafOp::FloatOfInt(x)
                } else {
                    LeafOp::IntConst(x)
                },
            ),
        );
    }
    match opt_index(name, bytes, "get_arg") {
        Err(e) => Err(e),
        Ok(Some(index)) => if index < arity {
            Ok(DirectStep::Op(LeafOp::Argument(index)))
        } else {
            Err(CompileFailure::UnsupportedOpcode)
        },
        Ok(None) => find_named_step(name, float),
    }
}

/// What follows a return must neither compute nor be unsupported.
pub open spec fn direct_tail(instructions: Seq<Instruction>, float: bool, arity: int, k: int) -> LeafPlan
    decreases instructions.len() - k,
{
    if k >= instructions.len() {
        LeafPlan::Ready(Seq::empty())
    } else {
        match direct_step(instructions[k].name@, instructions[k].bytes@, float, arity) {
            Err(e) => LeafPlan::Fails(e),
            Ok(DirectStep::Skip) => direct_tail(instructions, float, arity, k + 1),
            Ok(DirectStep::Op(op)) => if leaf_pops(op) == 0 {
                LeafPlan::Malformed
            } else {
                LeafPlan::Fails(CompileFailure::InvalidArtifact)
            },
            Ok(_) => LeafPlan::Fails(CompileFailure::InvalidArtifact),
        }
    }
}

fn check_tail(instructions: &Vec<Instruction>, float: bool, arity: usize, from: usize) -> (r: Result<(), CompileFailure>)
    requires
        constants_encoded(instructions@),
        from <= instructions@.len(),
        direct_tail(instructions@, float, arity as int, from as int) != LeafPlan::Malformed,
    ensures
        match direct_tail(instructions@, float, arity as int, from as int) {
            LeafPlan::Fails(e) => r == Err::<(), CompileFailure>(e),
            LeafPlan::Ready(ops) => r is Ok && ops.len() == 0,
            LeafPlan::Malformed => true,
        },
{
    let mut k: usize = from;
    while k < instructions.len()
        invariant
            from <= k <= instructions@.len(),
            constants_encoded(instructions@),
            direct_tail(instructions@, float, arity as int, from as int) != LeafPlan::Malformed,
            direct_tail(instructions@, float, arity as int, from as int) == direct_tail(
                instructions@,
                float,
                arity as int,
                k as int,
            ),
        decreases instructions@.len() - k,
    {
        let instruction = &instructions[k];
        assert(instruction == instructions@[k as int]);
        match find_direct_step(instruction.name.as_str(), instruction.bytes.as_slice(), float, arity) {
            Err(e) => {
                return Err(e);
            },
            Ok(DirectStep::Skip) => {},
            Ok(_) => {
                return Err(CompileFailure::InvalidArtifact);
            },
        }
        k = k + 1;
    }
    Ok(())
}

/// The plan for the instructions from `k` on, on a stack of the depth.
pub open spec fn direct_plan(instructions: Seq<Instruction>, float: bool, arity: int, k: int, depth: int) -> LeafPlan
    decreases instructions.len() - k,
{
    if k >= instructions.len() {
        LeafPlan::Malformed
    } else {
        match direct_step(instructions[k].name@, instructions[k].bytes@, float, arity) {
            Err(e) => LeafPlan::Fails(e),
            Ok(DirectStep::Skip) => direct_plan(instructions, float, arity, k + 1, depth),
            Ok(DirectStep::Return) => if depth != 1 {
                LeafPlan::Fails(CompileFailure::InvalidArtifact)
            } else {
                direct_tail(instructions, float, arity, k + 1)
            },
            Ok(DirectStep::Refuse) => LeafPlan::Fails(
                if depth < 2 {
                    CompileFailure::InvalidArtifact
                } else {
                    CompileFailure::UnsupportedOpcode
                },
            ),
            Ok(DirectStep::Op(op)) => if depth < leaf_pops(op) {
                LeafPlan::Fails(CompileFailure::InvalidArtifact)
            } else {
                prepend(
                    seq![op],
                    direct_plan(instructions, float, arity, k + 1, depth - leaf_pops(op) + leaf_pushes(op)),
                )
            },
        }
    }
}

pub open spec fn constants_encoded(instructions: Seq<Instruction>) -> bool {
    forall|k: int|
        0 <= k < instructions.len() ==> constant_encoded((#[trigger] instructions[k]).name@, instructions[k].bytes@)
}

fn encoded(name: &str, bytes: &[u8]) -> (r: bool)
    ensures
        r == constant_encoded(name@, bytes@),
{
    let n = bytes.len();
    (n >= 2 || !name_is(name, "push_i8")) && (n >= 3 || !name_is(name, "push_i16")) && (n >= 5 || !name_is(name, "push_i32"))
}

/// Whether every constant has its bytes.
pub fn constants_fit(instructions: &Vec<Instruction>) -> (r: bool)
    ensures
        r == constants_encoded(instructions@),
{
    let mut k: usize = 0;
    while k < instructions.len()
        invariant
            k <= instructions@.len(),
            forall|i: int|
                0 <= i < k ==> constant_encoded((#[trigger] instructions@[i]).name@, instructions@[i].bytes@),
        decreases instructions@.len() - k,
    {
        let instruction = &instructions[k];
        if !encoded(instruction.name.as_str(), instruction.bytes.as_slice()) {
            assert(!constant_encoded(instructions@[k as int].name@, instructions@[k as int].bytes@));
            return false;
        }
        k = k + 1;
    }
    true
}

fn tail_ends(instructions: &Vec<Instruction>, float: bool, arity: usize, from: usize) -> (r: bool)
    requires
        constants_encoded(instructions@),
        from <= instructions@.len(),
    ensures
        r == (direct_tail(instructions@, float, arity as int, from as int) != LeafPlan::Malformed),
{
    let mut k: usize = from;
    while k < instructions.len()
        invariant
            from <= k <= instructions@.len(),
            constants_encoded(instructions@),
            direct_tail(instructions@, float, arity as int, from as int) == direct_tail(
                instructions@,
                float,
                arity as int,
                k as int,
            ),
        decreases instructions@.len() - k,
    {
        let instruction = &instructions[k];
        assert(instruction == instructions@[k as int]);
        match find_direct_step(instruction.name.as_str(), instruction.bytes.as_slice(), float, arity) {
            Ok(DirectStep::Skip) => {},
            Ok(DirectStep::Op(op)) => {
                return leaf_operands(op) != 0;
            },
            _ => {
                return true;
            },
        }
        k = k + 1;
    }
    true
}

/// Whether the instructions of a function on one kind of number end at its
/// return, as far as they are planned.
pub fn plan_ends(instructions: &Vec<Instruction>, float: bool, arity: usize) -> (r: bool)
    requires
        constants_encoded(instructions@),
    ensures
        r == (direct_plan(instructions@, float, arity as int, 0, 0) != LeafPlan::Malformed),
{
    let mut depth: usize = 0;
    let mut k: usize = 0;
    while k < instructions.len()
        invariant
            k <= instructions@.len(),
            depth <= k,
            constants_encoded(instructions@),
            (direct_plan(instructions@, float, arity as int, 0, 0) == LeafPlan::Malformed) == (direct_plan(
                instructions@,
                float,
                arity as int,
                k as int,
                depth as int,
            ) == LeafPlan::Malformed),
        decreases instructions@.len() - k,
    {
        let instruction = &instructions[k];
        assert(instruction == instructions@[k as int]);
        match find_direct_step(instruction.name.as_str(), instruction.bytes.as_slice(), float, arity) {
            Err(_) => {
                return true;
            },
            Ok(DirectStep::Skip) => {},
            Ok(DirectStep::Return) => {
                return depth != 1 || tail_ends(instructions, float, arity, k + 1);
            },
            Ok(DirectStep::Refuse) => {
                return true;
            },
            Ok(DirectStep::Op(op)) => {
                let pops = leaf_operands(op);
                if depth < pops {
                    return true;
                }
                depth = depth - pops + if matches!(op, LeafOp::Drop) {
                    0
                } else {
                    1
                };
            },
        }
        k = k + 1;
    }
    false
}

proof fn prepend_twice(a: Seq<LeafOp>, op: LeafOp, plan: LeafPlan)
    ensures
        prepend(a, prepend(seq![op], plan)) == prepend(a.push(op), plan),
{
    if let LeafPlan::Ready(rest) = plan {
        assert(a + (seq![op] + rest) =~= a.push(op) + rest);
    }
}

proof fn prepend_nothing(plan: LeafPlan)
    ensures
        prepend(Seq::empty(), plan) == plan,
{
    if let LeafPlan::Ready(rest) = plan {
        assert(Seq::<LeafOp>::empty() + rest =~= rest);
    }
}

/// Validity of a sequence with one more operation in front.
proof fn valid_shift(a: Seq<LeafOp>, b: Seq<LeafOp>, shift: int, k: int, depth: int, arity: int)
    requires
        shift >= 0,
        k >= 0,
        b.len() == a.len() + shift,
        forall|i: int| 0 <= i < a.len() ==> #[trigger] a[i] == b[i + shift],
        valid_from(a, k, depth, arity),
    ensures
        valid_from(b, k + shift, depth, arity),
    decreases a.len() - k,
{
    if k < a.len() {
        assert(a[k] == b[k + shift]);
        valid_shift(a, b, shift, k + 1, depth - leaf_pops(a[k]) + leaf_pushes(a[k]), arity);
    }
}

proof fn tails_are_empty(instructions: Seq<Instruction>, float: bool, arity: int, k: int)
    ensures
        direct_tail(instructions, float, arity, k) matches LeafPlan::Ready(ops) ==> ops.len() == 0,
    decreases instructions.len() - k,
{
    if k < instructions.len() {
        tails_are_empty(instructions, float, arity, k + 1);
    }
}

/// What is planned is valid.
pub proof fn direct_plans_are_valid(instructions: Seq<Instruction>, float: bool, arity: int, k: int, depth: int)
    requires
        k >= 0,
    ensures
        direct_plan(instructions, float, arity, k, depth) matches LeafPlan::Ready(ops) ==> valid_from(ops, 0, depth, arity),
    decreases instructions.len() - k,
{
    if k < instructions.len() {
        match direct_step(instructions[k].name@, instructions[k].bytes@, float, arity) {
            Ok(DirectStep::Skip) => {
                direct_plans_are_valid(instructions, float, arity, k + 1, depth);
            },
            Ok(DirectStep::Return) => {
                tails_are_empty(instructions, float, arity, k + 1);
            },
            Ok(DirectStep::Op(op)) => {
                let below = depth - leaf_pops(op) + leaf_pushes(op);
                direct_plans_are_valid(instructions, float, arity, k + 1, below);
                if let LeafPlan::Ready(rest) = direct_plan(instructions, float, arity, k + 1, below) {
                    let ops = seq![op] + rest;
                    if depth >= leaf_pops(op) {
                        valid_shift(rest, ops, 1, 0, below, arity);
                        assert(ops[0] == op);
                    }
                }
            },
            _ => {},
        }
    }
}

pub open spec fn number_type(float: bool) -> Ty {
    if float {
        Ty::F64
    } else {
        Ty::I32
    }
}

/// What is planned is on one kind of number.
proof fn direct_plans_are_typed(instructions: Seq<Instruction>, float: bool, arity: nat, k: int, depth: nat)
    requires
        k >= 0,
    ensures
        direct_plan(instructions, float, arity as int, k, depth as int) matches LeafPlan::Ready(ops) ==> typed_from(
            ops,
            0,
            Seq::new(depth, |i: int| number_type(float)),
            Seq::new(arity, |i: int| number_type(float)),
            seq![number_type(float)],
        ),
    decreases instructions.len() - k,
{
    let ty = number_type(float);
    let args = Seq::new(arity, |i: int| ty);
    if k < instructions.len() {
        match direct_step(instructions[k].name@, instructions[k].bytes@, float, arity as int) {
            Ok(DirectStep::Skip) => {
                direct_plans_are_typed(instructions, float, arity, k + 1, depth);
            },
            Ok(DirectStep::Return) => {
                tails_are_empty(instructions, float, arity as int, k + 1);
                if depth == 1 {
                    assert(Seq::new(depth, |i: int| ty) =~= seq![ty]);
                }
            },
            Ok(DirectStep::Op(op)) => {
                if depth >= leaf_pops(op) {
                    let below = (depth - leaf_pops(op) + leaf_pushes(op)) as nat;
                    direct_plans_are_typed(instructions, float, arity, k + 1, below);
                    if let LeafPlan::Ready(rest) = direct_plan(instructions, float, arity as int, k + 1, below as int) {
                        let ops = seq![op] + rest;
                        typed_shift(rest, ops, 1, 0, Seq::new(below, |i: int| ty), args, seq![ty]);
                        assert(ops[0] == op);
                        let stack = Seq::new(depth, |i: int| ty);
                        assert(typed_step(op, args, stack) is Some);
                        assert(typed_step(op, args, stack)->Some_0 =~= Seq::new(below, |i: int| ty));
                    }
                }
            },
            _ => {},
        }
    }
}

/// Plans an entry on one kind of number.
pub fn plan_direct(instructions: &Vec<Instruction>, float: bool, arity: usize) -> (r: Result<Vec<LeafOp>, CompileFailure>)
    requires
        constants_encoded(instructions@),
        direct_plan(instructions@, float, arity as int, 0, 0) != LeafPlan::Malformed,
    ensures
        match direct_plan(instructions@, float, arity as int, 0, 0) {
            LeafPlan::Fails(e) => r == Err::<Vec<LeafOp>, CompileFailure>(e),
            LeafPlan::Ready(ops) => r matches Ok(planned) && planned@ == ops && valid_from(ops, 0, 0, arity as int)
                && typed_from(
                ops,
                0,
                Seq::empty(),
                Seq::new(arity as nat, |i: int| number_type(float)),
                seq![number_type(float)],
            ),
            LeafPlan::Malformed => true,
        },
{
    let mut ops: Vec<LeafOp> = Vec::new();
    let mut depth: usize = 0;
    let mut k: usize = 0;
    let ghost whole = direct_plan(instructions@, float, arity as int, 0, 0);
    proof {
        prepend_nothing(whole);
        direct_plans_are_valid(instructions@, float, arity as int, 0, 0);
        direct_plans_are_typed(instructions@, float, arity as nat, 0, 0);
        assert(Seq::new(0, |i: int| number_type(float)) =~= Seq::<Ty>::empty());
        assert(ops@ =~= Seq::<LeafOp>::empty());
    }
    while k < instructions.len()
        invariant
            k <= instructions@.len(),
            depth <= k,
            constants_encoded(instructions@),
            whole != LeafPlan::Malformed,
            whole == direct_plan(instructions@, float, arity as int, 0, 0),
            whole == prepend(ops@, direct_plan(instructions@, float, arity as int, k as int, depth as int)),
            whole matches LeafPlan::Ready(planned) ==> valid_from(planned, 0, 0, arity as int) && typed_from(
                planned,
                0,
                Seq::empty(),
                Seq::new(arity as nat, |i: int| number_type(float)),
                seq![number_type(float)],
            ),
        decreases instructions@.len() - k,
    {
        let instruction = &instructions[k];
        assert(instruction == instructions@[k as int]);
        let step = match find_direct_step(instruction.name.as_str(), instruction.bytes.as_slice(), float, arity) {
            Ok(step) => step,
            Err(e) => {
                return Err(e);
            },
        };
        match step {
            DirectStep::Skip => {},
            DirectStep::Return => {
                if depth != 1 {
                    return Err(CompileFailure::InvalidArtifact);
                }
                if let Err(e) = check_tail(instructions, float, arity, k + 1) {
                    return Err(e);
                }
                assert(ops@ + Seq::<LeafOp>::empty() =~= ops@);
                return Ok(ops);
            },
            DirectStep::Refuse => {
                return Err(
                    if depth < 2 {
                        CompileFailure::InvalidArtifact
                    } else {
                        CompileFailure::UnsupportedOpcode
                    },
                );
            },
            DirectStep::Op(op) => {
                let pops = leaf_operands(op);
                if depth < pops {
                    return Err(CompileFailure::InvalidArtifact);
                }
                proof {
                    prepend_twice(
                        ops@,
                        op,
                        direct_plan(
                            instructions@,
                            float,
                            arity as int,
                            k + 1,
                            depth - leaf_pops(op) + leaf_pushes(op),
                        ),
                    );
                }
                depth = depth - pops + 1;
                ops.push(op);
            },
        }
        k = k + 1;
    }
    Err(CompileFailure::InvalidArtifact)
}

pub fn entry_types(arguments: &Vec<FeedbackRepresentation>) -> (r: Vec<Ty>)
    ensures
        r@ == seq![Ty::I64] + arguments@.map_values(|a: FeedbackRepresentation| passed_type(a)),
        r@.len() == arguments@.len() + 1,
{
    let mut types: Vec<Ty> = Vec::new();
    types.push(Ty::I64);
    let mut i: usize = 0;
    while i < arguments.len()
        invariant
            i <= arguments@.len(),
            types@ == seq![Ty::I64] + arguments@.take(i as int).map_values(|a: FeedbackRepresentation| passed_type(a)),
        decreases arguments@.len() - i,
    {
        types.push(
            match arguments[i] {
                FeedbackRepresentation::Int32 | FeedbackRepresentation::Bool => Ty::I32,
                FeedbackRepresentation::Float64 => Ty::F64,
                FeedbackRepresentation::HeapRef => Ty::I64,
            },
        );
        i = i + 1;
    }
    assert(arguments@.take(arguments@.len() as int) =~= arguments@);
    types
}

/// What an operation of a leaf with mixed arguments means, on a typed stack.
pub enum LinkedStep {
    Skip,
    Fails(CompileFailure),
    Op(LeafOp, Seq<FeedbackRepresentation>),
    Return,
}

pub open spec fn linked_binary(op: FrameBinaryOp, types: Seq<FeedbackRepresentation>) -> LinkedStep {
    let n = types.len();
    if n < 2 {
        LinkedStep::Fails(CompileFailure::InvalidArtifact)
    } else if types[n - 2] != types[n - 1] || types[n - 1] != FeedbackRepresentation::Int32 && types[n - 1]
        != FeedbackRepresentation::Float64 {
        LinkedStep::Fails(CompileFailure::UnsupportedOpcode)
    } else {
        let float = types[n - 1] == FeedbackRepresentation::Float64;
        LinkedStep::Op(
            match op {
                FrameBinaryOp::Add => if float {
                    LeafOp::FloatAdd
                } else {
                    LeafOp::IntAdd
                },
                FrameBinaryOp::Sub => if float {
                    LeafOp::FloatSub
                } else {
                    LeafOp::IntSub
                },
                _ => if float {
                    LeafOp::FloatMul
                } else {
                    LeafOp::IntMul
                },
            },
            types.take(n - 1),
        )
    }
}

pub open spec fn linked_step(op: InlineOp, signature: BoundedSignature, types: Seq<FeedbackRepresentation>) -> LinkedStep {
    let n = types.len();
    match op {
        InlineOp::Poll { .. } | InlineOp::OsrLabel | InlineOp::Nop => LinkedStep::Skip,
        InlineOp::Push(value) => if value.tag == JS_TAG_INT {
            LinkedStep::Op(
                LeafOp::IntConst(#[verifier::truncate] (value.payload as i32)),
                types.push(FeedbackRepresentation::Int32),
            )
        } else if value.tag == JS_TAG_FLOAT64 {
            LinkedStep::Op(
                LeafOp::FloatConst(#[verifier::truncate] (value.payload as i64)),
                types.push(FeedbackRepresentation::Float64),
            )
        } else {
            LinkedStep::Fails(CompileFailure::UnsupportedOpcode)
        },
        InlineOp::GetArgument(index) => if index < signature.arguments@.len() {
            LinkedStep::Op(LeafOp::Argument(index as usize), types.push(signature.arguments@[index as int]))
        } else {
            LinkedStep::Fails(CompileFailure::InvalidArtifact)
        },
        InlineOp::Drop => if n > 0 {
            LinkedStep::Op(LeafOp::Drop, types.take(n - 1))
        } else {
            LinkedStep::Fails(CompileFailure::InvalidArtifact)
        },
        InlineOp::Binary(op) => if op == FrameBinaryOp::Add || op == FrameBinaryOp::Sub || op == FrameBinaryOp::Mul {
            linked_binary(op, types)
        } else {
            LinkedStep::Fails(CompileFailure::UnsupportedOpcode)
        },
        InlineOp::Return => if n == 0 {
            LinkedStep::Fails(CompileFailure::InvalidArtifact)
        } else if n > 1 || types[0] != signature.result {
            LinkedStep::Fails(CompileFailure::UnsupportedOpcode)
        } else {
            LinkedStep::Return
        },
        _ => LinkedStep::Fails(CompileFailure::UnsupportedOpcode),
    }
}

/// The plan for the operations from `k` on, on a stack of the types. Nothing
/// may follow a return, and there must be one.
pub open spec fn linked_plan(ops: Seq<InlineOp>, signature: BoundedSignature, k: int, types: Seq<FeedbackRepresentation>) -> LeafPlan
    decreases ops.len() - k,
{
    if k >= ops.len() {
        LeafPlan::Fails(CompileFailure::UnsupportedOpcode)
    } else {
        match linked_step(ops[k], signature, types) {
            LinkedStep::Skip => linked_plan(ops, signature, k + 1, types),
            LinkedStep::Fails(e) => LeafPlan::Fails(e),
            LinkedStep::Return => if k + 1 == ops.len() {
                LeafPlan::Ready(Seq::empty())
            } else {
                LeafPlan::Fails(CompileFailure::InvalidArtifact)
            },
            LinkedStep::Op(op, after) => prepend(seq![op], linked_plan(ops, signature, k + 1, after)),
        }
    }
}

proof fn linked_plans_are_valid(ops: Seq<InlineOp>, signature: BoundedSignature, k: int, types: Seq<FeedbackRepresentation>)
    requires
        k >= 0,
    ensures
        linked_plan(ops, signature, k, types) matches LeafPlan::Ready(planned) ==> valid_from(
            planned,
            0,
            types.len() as int,
            signature.arguments@.len() as int,
        ),
    decreases ops.len() - k,
{
    if k < ops.len() {
        match linked_step(ops[k], signature, types) {
            LinkedStep::Skip => {
                linked_plans_are_valid(ops, signature, k + 1, types);
            },
            LinkedStep::Op(op, after) => {
                linked_plans_are_valid(ops, signature, k + 1, after);
                if let LeafPlan::Ready(rest) = linked_plan(ops, signature, k + 1, after) {
                    let planned = seq![op] + rest;
                    valid_shift(rest, planned, 1, 0, after.len() as int, signature.arguments@.len() as int);
                    assert(planned[0] == op);
                    assert(after.len() == types.len() - leaf_pops(op) + leaf_pushes(op));
                }
            },
            _ => {},
        }
    }
}

/// The types in which values are passed.
pub open spec fn passed_types(kinds: Seq<FeedbackRepresentation>) -> Seq<Ty> {
    kinds.map_values(|a: FeedbackRepresentation| passed_type(a))
}

proof fn linked_plans_are_typed(ops: Seq<InlineOp>, signature: BoundedSignature, k: int, types: Seq<FeedbackRepresentation>)
    requires
        k >= 0,
    ensures
        linked_plan(ops, signature, k, types) matches LeafPlan::Ready(planned) ==> typed_from(
            planned,
            0,
            passed_types(types),
            passed_types(signature.arguments@),
            seq![passed_type(signature.result)],
        ),
    decreases ops.len() - k,
{
    let args = passed_types(signature.arguments@);
    let left = seq![passed_type(signature.result)];
    if k < ops.len() {
        match linked_step(ops[k], signature, types) {
            LinkedStep::Skip => {
                linked_plans_are_typed(ops, signature, k + 1, types);
            },
            LinkedStep::Return => {
                assert(passed_types(types) =~= left);
            },
            LinkedStep::Op(op, after) => {
                linked_plans_are_typed(ops, signature, k + 1, after);
                if let LeafPlan::Ready(rest) = linked_plan(ops, signature, k + 1, after) {
                    let planned = seq![op] + rest;
                    typed_shift(rest, planned, 1, 0, passed_types(after), args, left);
                    assert(planned[0] == op);
                    assert(typed_step(op, args, passed_types(types)) is Some);
                    assert(typed_step(op, args, passed_types(types))->Some_0 =~= passed_types(after));
                }
            },
            _ => {},
        }
    }
}

/// Takes one operation's effect on the typed stack; answers the operation.
fn take_linked_step(op: InlineOp, signature: &BoundedSignature, types: &mut Vec<FeedbackRepresentation>) -> (r: Result<
    Option<LeafOp>,
    CompileFailure,
>)
    requires
        !(op is Return),
    ensures
        match linked_step(op, *signature, old(types)@) {
            LinkedStep::Skip => r == Ok::<Option<LeafOp>, CompileFailure>(None) && final(types)@ == old(types)@,
            LinkedStep::Fails(e) => r == Err::<Option<LeafOp>, CompileFailure>(e),
            LinkedStep::Op(leaf, after) => r == Ok::<Option<LeafOp>, CompileFailure>(Some(leaf)) && final(types)@ == after,
            LinkedStep::Return => true,
        },
{
    let ghost before = types@;
    match op {
        InlineOp::Poll { .. } | InlineOp::OsrLabel | InlineOp::Nop => Ok(None),
        InlineOp::Push(value) => {
            if value.tag == JS_TAG_INT as i64 {
                types.push(FeedbackRepresentation::Int32);
                Ok(Some(LeafOp::IntConst(value.payload as i32)))
            } else if value.tag == JS_TAG_FLOAT64 as i64 {
                types.push(FeedbackRepresentation::Float64);
                Ok(Some(LeafOp::FloatConst(value.payload as i64)))
            } else {
                Err(CompileFailure::UnsupportedOpcode)
            }
        },
        InlineOp::GetArgument(index) => {
            if (index as usize) < signature.arguments.len() {
                types.push(signature.arguments[index as usize]);
                Ok(Some(LeafOp::Argument(index as usize)))
            } else {
                Err(CompileFailure::InvalidArtifact)
            }
        },
        InlineOp::Drop => {
            if types.len() > 0 {
                let _ = types.pop();
                assert(types@ =~= before.take(before.len() - 1));
                Ok(Some(LeafOp::Drop))
            } else {
                Err(CompileFailure::InvalidArtifact)
            }
        },
        InlineOp::Binary(operation) => {
            if !matches!(operation, FrameBinaryOp::Add | FrameBinaryOp::Sub | FrameBinaryOp::Mul) {
                return Err(CompileFailure::UnsupportedOpcode);
            }
            if types.len() < 2 {
                return Err(CompileFailure::InvalidArtifact);
            }
            let rhs = types[types.len() - 1];
            let lhs = types[types.len() - 2];
            if lhs != rhs || !matches!(rhs, FeedbackRepresentation::Int32 | FeedbackRepresentation::Float64) {
                return Err(CompileFailure::UnsupportedOpcode);
            }
            let _ = types.pop();
            assert(types@ =~= before.take(before.len() - 1));
            let float = matches!(rhs, FeedbackRepresentation::Float64);
            Ok(
                Some(
                    match operation {
                        FrameBinaryOp::Add => if float {
                            LeafOp::FloatAdd
                        } else {
                            LeafOp::IntAdd
                        },
                        FrameBinaryOp::Sub => if float {
                            LeafOp::FloatSub
                        } else {
                            LeafOp::IntSub
                        },
                        _ => if float {
                            LeafOp::FloatMul
                        } else {
                            LeafOp::IntMul
                        },
                    },
                ),
            )
        },
        _ => Err(CompileFailure::UnsupportedOpcode),
    }
}

/// Plans a leaf with mixed arguments.
pub fn plan_linked(ops: &Vec<InlineOp>, signature: &BoundedSignature) -> (r: Result<Vec<LeafOp>, CompileFailure>)
    ensures
        match linked_plan(ops@, *signature, 0, Seq::empty()) {
            LeafPlan::Fails(e) => r == Err::<Vec<LeafOp>, CompileFailure>(e),
            LeafPlan::Ready(planned) => r matches Ok(list) && list@ == planned && valid_from(
                planned,
                0,
                0,
                signature.arguments@.len() as int,
            ) && typed_from(
                planned,
                0,
                Seq::empty(),
                passed_types(signature.arguments@),
                seq![passed_type(signature.result)],
            ),
            LeafPlan::Malformed => false,
        },
{
    let mut planned: Vec<LeafOp> = Vec::new();
    let mut types: Vec<FeedbackRepresentation> = Vec::new();
    let mut k: usize = 0;
    let ghost whole = linked_plan(ops@, *signature, 0, Seq::empty());
    proof {
        prepend_nothing(whole);
        linked_plans_are_valid(ops@, *signature, 0, Seq::empty());
        linked_plans_are_typed(ops@, *signature, 0, Seq::empty());
        assert(passed_types(Seq::empty()) =~= Seq::<Ty>::empty());
        assert(planned@ =~= Seq::<LeafOp>::empty());
        assert(types@ =~= Seq::<FeedbackRepresentation>::empty());
    }
    while k < ops.len()
        invariant
            k <= ops@.len(),
            whole == linked_plan(ops@, *signature, 0, Seq::empty()),
            whole == prepend(planned@, linked_plan(ops@, *signature, k as int, types@)),
            whole matches LeafPlan::Ready(list) ==> valid_from(list, 0, 0, signature.arguments@.len() as int) && typed_from(
                list,
                0,
                Seq::empty(),
                passed_types(signature.arguments@),
                seq![passed_type(signature.result)],
            ),
        decreases ops@.len() - k,
    {
        let op = ops[k];
        if matches!(op, InlineOp::Return) {
            if types.len() == 0 {
                return Err(CompileFailure::InvalidArtifact);
            }
            if types.len() > 1 || types[0] != signature.result {
                return Err(CompileFailure::UnsupportedOpcode);
            }
            if k + 1 < ops.len() {
                return Err(CompileFailure::InvalidArtifact);
            }
            assert(planned@ + Seq::<LeafOp>::empty() =~= planned@);
            return Ok(planned);
        }
        match take_linked_step(op, signature, &mut types) {
            Err(e) => {
                return Err(e);
            },
            Ok(None) => {},
            Ok(Some(leaf)) => {
                proof {
                    prepend_twice(planned@, leaf, linked_plan(ops@, *signature, k + 1, types@));
                }
                planned.push(leaf);
            },
        }
        k = k + 1;
    }
    Err(CompileFailure::UnsupportedOpcode)
}

/// Limits of a linked leaf.
pub const MAX_LINKED_INSTRUCTIONS: usize = 128;

pub const MAX_LINKED_SLOTS: usize = 64;

pub const MAX_LINKED_BYTES: usize = 16 * 1024;

/// Where a leaf with mixed arguments is refused before anything is planned.
/// The signature must be that of the function, its one block must not catch
/// exceptions, and one argument at least is a reference.
pub open spec fn linked_refusal(function: VerifiedFunction, signature: BoundedSignature, blocks: int) -> Option<CompileFailure> {
    if function.instructions@.len() > MAX_LINKED_INSTRUCTIONS || function.arg_count + function.local_count
        + function.stack_size > MAX_LINKED_SLOTS || function.retained_bytes > MAX_LINKED_BYTES {
        Some(CompileFailure::ResourceLimit)
    } else if signature.function != function.key || signature.arguments@.len() != function.arg_count
        || function.has_exceptions || blocks != 1 || signature.result == FeedbackRepresentation::HeapRef
        || !signature.arguments@.contains(FeedbackRepresentation::HeapRef) {
        Some(CompileFailure::UnsupportedOpcode)
    } else {
        None
    }
}

pub fn has_argument(signature: &BoundedSignature, representation: FeedbackRepresentation) -> (r: bool)
    ensures
        r == signature.arguments@.contains(representation),
{
    let mut i: usize = 0;
    while i < signature.arguments.len()
        invariant
            i <= signature.arguments@.len(),
            forall|k: int| 0 <= k < i ==> #[trigger] signature.arguments@[k] != representation,
        decreases signature.arguments@.len() - i,
    {
        if signature.arguments[i] == representation {
            assert(signature.arguments@[i as int] == representation);
            return true;
        }
        i = i + 1;
    }
    false
}

/// Lowers a leaf whose arguments are guarded at the call site and borrowed:
/// it allocates nothing, owns nothing and calls nothing. `ops` are the
/// operations of its one block.
pub fn lower_target_only_linked_leaf(
    function: &VerifiedFunction,
    signature: &BoundedSignature,
    blocks: usize,
    ops: &Vec<InlineOp>,
    control: Option<&CompileControl>,
) -> (r: Result<LeafEntry, CompileFailure>)
    ensures
        match linked_refusal(*function, *signature, blocks as int) {
            Some(e) => r == Err::<LeafEntry, CompileFailure>(e),
            None => {
                ||| control is Some && r is Err && crate::control::is_interruption(r->Err_0)
                ||| match linked_plan(ops@, *signature, 0, Seq::empty()) {
                    LeafPlan::Ready(planned) => r matches Ok(entry) && linked_entry(entry, *signature, planned),
                    LeafPlan::Fails(e) => r == Err::<LeafEntry, CompileFailure>(e),
                    LeafPlan::Malformed => false,
                }
            },
        },
{
    let slots: u32 = function.arg_count as u32 + function.local_count as u32 + function.stack_size as u32;
    if function.instructions.len() > MAX_LINKED_INSTRUCTIONS || slots as usize > MAX_LINKED_SLOTS
        || function.retained_bytes > MAX_LINKED_BYTES {
        return Err(CompileFailure::ResourceLimit);
    }
    if signature.function != function.key || signature.arguments.len() != function.arg_count as usize
        || function.has_exceptions || blocks != 1 || signature.result == FeedbackRepresentation::HeapRef || !has_argument(
        signature,
        FeedbackRepresentation::HeapRef,
    ) {
        return Err(CompileFailure::UnsupportedOpcode);
    }
    if let Some(control) = control {
        if let Err(e) = control.check() {
            return Err(e);
        }
    }
    let planned = match plan_linked(ops, signature) {
        Ok(planned) => planned,
        Err(e) => {
            return Err(e);
        },
    };
    let ty = match signature.result {
        FeedbackRepresentation::Float64 => Ty::F64,
        _ => Ty::I32,
    };
    let types = entry_types(&signature.arguments);
    let ghost arity = (types@.len() - 1) as nat;
    assert(types@.skip(1) =~= passed_types(signature.arguments@));
    let entry = emit_entry(&planned, types, ty);
    proof {
        assert(arity == signature.arguments@.len());
        assert forall|w: World| #[trigger]
            leaf_outcome(
                planned@,
                signature.arguments@.len(),
                passed_type(signature.result),
                entry.code.at(w),
                w,
            ) by {
            assert(leaf_outcome(planned@, arity, ty, entry.code.at(w), w));
        }
    }
    Ok(entry)
}

/// The entry takes what the signature says, and answers what the operations
/// yield. The assembler takes its code with these parameters.
pub open spec fn linked_entry(entry: LeafEntry, signature: BoundedSignature, ops: Seq<LeafOp>) -> bool {
    &&& entry.params@ == seq![Ty::I64] + signature.arguments@.map_values(|a: FeedbackRepresentation| passed_type(a))
    &&& assembles(entry.code.insts@, plain(entry.params@))
    &&& forall|w: World| #[trigger]
        leaf_outcome(ops, signature.arguments@.len(), passed_type(signature.result), entry.code.at(w), w)
}

/// Nothing was written, read or called.
pub open spec fn untouched(st: Status) -> bool {
    st matches Status::Done { values, state } && state.trace.len() == 0
}

/// A direct entry answers exactly where every operation succeeds. Where one
/// misses, the entry leaves without a trace: the caller can still make the call
/// as if the entry had never been tried.
pub proof fn misses_leave_no_trace(entry: LeafEntry, signature: BoundedSignature, ops: Seq<LeafOp>, w: World)
    requires
        linked_entry(entry, signature, ops),
    ensures
        leaf_fold(ops, leaf_arguments(w, signature.arguments@.len()), ops.len(), w) is None <==> untouched(entry.code.at(w)),
{
    assert(leaf_outcome(ops, signature.arguments@.len(), passed_type(signature.result), entry.code.at(w), w));
}

} // verus!
