//! What the lowered code of an opcode does, by the opcode's name.
use crate::arithmetic::ScalarBitwiseOp;
use crate::arithmetic::bitwise_result;
use crate::code::Code;
use crate::code::Event;
use crate::code::FloatCc;
use crate::code::FloatOp;
use crate::code::State;
use crate::code::Status;
use crate::code::Ty;
use crate::code::World;
use crate::elements::GuardedElementSource;
use crate::inline_laws::writes;
use crate::ir::OptimizedNode;
use crate::lower_moves::Destination;
use crate::lower_moves::slot_pushed;
use crate::lower_moves::stored;
use crate::lower_node::op_lowered;
use crate::lower_numbers::integer_result;
use crate::lower_values::OptVars;
use crate::lowering::Lowered;
use crate::machine::Machine;
use crate::names::constant_encoded;
use crate::names::has_prefix;
use crate::names::pushed_constant;
use crate::number_laws::arithmetic_is_exact;
use crate::number_laws::bits_add_up;
use crate::number_laws::is_int32;
use crate::number_laws::is_negative_zero;
use crate::number_laws::remainders_are_those_of_division;
use crate::number_laws::shifts_scale_by_powers_of_two;
use crate::number_laws::unary_operations_on_integers;
use crate::opcodes::MoveKind;
use crate::opcodes::NumberKind;
use crate::opcodes::OpKind;
use crate::opcodes::op_kind;
use crate::provenance::OptProvenance;
use crate::runtime::first_at_is;
use crate::scalar::OperandMode;
use crate::scalar::ScalarBinaryOp;
use crate::scalar::ScalarCompareOp;
use crate::scalar::ScalarOperation;
use crate::spelling::spelling;
use vstd::prelude::*;

verus! {

/// The payload and tag that a frame slot holds.
pub open spec fn held(s: State, slot: OptVars) -> (int, int) {
    (s.vars[slot.payload as int], s.vars[slot.tag as int])
}

/// No other variable has changed.
pub open spec fn only_slot_changed(s: State, t: State, slot: OptVars) -> bool {
    forall|v: int| v != slot.payload && v != slot.tag ==> #[trigger] t.vars[v] == s.vars[v]
}

/// One node, and what its lowering was given and left.
pub struct NodeStep<'a> {
    pub mx: Machine<'a>,
    pub node: OptimizedNode,
    pub block: u32,
    pub source: Option<GuardedElementSource>,
    pub a: Code,
    pub m: Lowered,
    pub b: Code,
    pub m2: Lowered,
}

impl<'a> NodeStep<'a> {
    /// The node is an opcode that was lowered.
    pub open spec fn lowers(self) -> bool {
        &&& self.node.kind is Bytecode
        &&& self.mx.wf(self.a.len())
        &&& self.m.wf(*self.mx.env, self.a.len())
        &&& self.m.depth < self.mx.env.stack@.len()
        &&& op_lowered(self.mx, self.node, self.block, self.source, self.a, self.m, self.b, self.m2)
    }

    pub open spec fn named(self, name: Seq<char>) -> bool {
        self.node.name() == name
    }

    /// The slot at a place of the operand stack, counted from below.
    pub open spec fn stack(self, k: int) -> OptVars {
        self.mx.env.stack@[k]
    }

    /// Control goes on with the value on top of the operand stack, with nothing
    /// observed and no other slot changed.
    pub open spec fn pushes(self, w: World, payload: int, tag: int) -> bool {
        &&& self.m2.depth == self.m.depth + 1
        &&& self.b.at(w) matches Status::Run(t)
        &&& t.trace == self.a.at(w)->Run_0.trace
        &&& held(t, self.stack(self.m.depth)) == (payload, tag)
        &&& only_slot_changed(self.a.at(w)->Run_0, t, self.stack(self.m.depth))
    }
}

proof fn not_a_prefix(name: Seq<char>, prefix: Seq<char>, k: int)
    requires
        0 <= k < prefix.len(),
        k < name.len(),
        name[k] != prefix[k],
    ensures
        !has_prefix(name, prefix),
{
    if has_prefix(name, prefix) {
        assert(name.take(prefix.len() as int)[k] == name[k]);
    }
}

/// The literals push the values of JavaScript that they are named after:
/// `true`, `false`, `null` and `undefined` are told apart by payload and tag.
#[verifier::spinoff_prover]
#[verifier::rlimit(100)]
pub proof fn literals_push_their_value(x: NodeStep<'_>, w: World)
    requires
        x.lowers(),
        x.a.at(w) is Run,
    ensures
        x.named("push_true"@) ==> x.pushes(w, 1, 1),
        x.named("push_false"@) ==> x.pushes(w, 0, 1),
        x.named("null"@) ==> x.pushes(w, 0, 2),
        x.named("undefined"@) ==> x.pushes(w, 0, 3),
{
    spelling();
}

/// The small integers are part of the opcode's name.
#[verifier::spinoff_prover]
#[verifier::rlimit(100)]
pub proof fn small_integers_push_their_value(x: NodeStep<'_>, w: World)
    requires
        x.lowers(),
        x.a.at(w) is Run,
    ensures
        x.named("push_minus1"@) ==> x.pushes(w, -1, 0),
        x.named("push_0"@) ==> x.pushes(w, 0, 0),
        x.named("push_1"@) ==> x.pushes(w, 1, 0),
        x.named("push_2"@) ==> x.pushes(w, 2, 0),
        x.named("push_3"@) ==> x.pushes(w, 3, 0),
        x.named("push_4"@) ==> x.pushes(w, 4, 0),
        x.named("push_5"@) ==> x.pushes(w, 5, 0),
        x.named("push_6"@) ==> x.pushes(w, 6, 0),
        x.named("push_7"@) ==> x.pushes(w, 7, 0),
{
    spelling();
}

/// Other integers stand behind the opcode in two's complement: what is pushed has
/// the range of the operand and its bits.
#[verifier::spinoff_prover]
#[verifier::rlimit(100)]
pub proof fn wide_integers_push_their_value(x: NodeStep<'_>, w: World)
    requires
        x.lowers(),
        x.a.at(w) is Run,
    ensures
        x.named("push_i8"@) ==> {
            let v = held(x.b.at(w)->Run_0, x.stack(x.m.depth)).0;
            &&& x.pushes(w, v, 0)
            &&& -0x80 <= v < 0x80
            &&& v == x.node.bytes@[1] || v + 0x100 == x.node.bytes@[1]
        },
        x.named("push_i16"@) ==> {
            let v = held(x.b.at(w)->Run_0, x.stack(x.m.depth)).0;
            let bits = x.node.bytes@[1] + 0x100 * x.node.bytes@[2];
            &&& x.pushes(w, v, 0)
            &&& -0x8000 <= v < 0x8000
            &&& v == bits || v + 0x1_0000 == bits
        },
        x.named("push_i32"@) ==> {
            let v = held(x.b.at(w)->Run_0, x.stack(x.m.depth)).0;
            let bits = x.node.bytes@[1] + 0x100 * x.node.bytes@[2] + 0x1_0000 * x.node.bytes@[3] + 0x100_0000
                * x.node.bytes@[4];
            &&& x.pushes(w, v, 0)
            &&& -0x8000_0000 <= v < 0x8000_0000
            &&& v == bits || v + 0x1_0000_0000 == bits
        },
{
    wide_kind(x.node);
    let named = x.named("push_i8"@) || x.named("push_i16"@) || x.named("push_i32"@);
    if named {
        let kind = op_kind(x.node);
        assert(kind is Move);
    }
}

#[verifier::spinoff_prover]
#[verifier::rlimit(60)]
proof fn wide_kind(node: OptimizedNode)
    requires
        node.kind is Bytecode,
    ensures
        ({
            let bytes = node.bytes@;
            let v = pushed_constant(node.name(), bytes)->Some_0;
            &&& node.name() == "push_i8"@ && bytes.len() >= 2 ==> -0x80 <= v < 0x80 && (v == bytes[1] || v + 0x100 == bytes[1])
            &&& node.name() == "push_i16"@ && bytes.len() >= 3 ==> -0x8000 <= v < 0x8000 && (v == bytes[1] + 0x100 * bytes[2]
                || v + 0x1_0000 == bytes[1] + 0x100 * bytes[2])
            &&& node.name() == "push_i32"@ && bytes.len() >= 5 ==> -0x8000_0000 <= v < 0x8000_0000 && (v == bytes[1] + 0x100
                * bytes[2] + 0x1_0000 * bytes[3] + 0x100_0000 * bytes[4] || v + 0x1_0000_0000 == bytes[1] + 0x100 * bytes[2]
                + 0x1_0000 * bytes[3] + 0x100_0000 * bytes[4])
            &&& node.name() == "push_i8"@ || node.name() == "push_i16"@ || node.name() == "push_i32"@ ==> {
                ||| op_kind(node) is Malformed
                ||| constant_encoded(node.name(), bytes) && (op_kind(node) matches OpKind::Move(MoveKind::Immediate {
                    payload,
                    tag,
                    ..
                }) && payload == v as i32 && tag == 0)
            }
        }),
{
    spelling();
}

/// The number that stands behind the opcode, in so many bytes, the lowest first.
pub open spec fn operand(node: OptimizedNode, bytes: int) -> int {
    if bytes == 1 {
        node.bytes@[1] as int
    } else {
        node.bytes@[1] + 0x100 * node.bytes@[2]
    }
}

impl<'a> NodeStep<'a> {
    /// The opcode is one of a family: one of the first four slots is part of the
    /// name, another stands behind the opcode.
    pub open spec fn names(self, name: Seq<char>, n0: Seq<char>, n1: Seq<char>, n2: Seq<char>, n3: Seq<char>, slot: int) -> bool {
        ||| self.named(n0) && slot == 0
        ||| self.named(n1) && slot == 1
        ||| self.named(n2) && slot == 2
        ||| self.named(n3) && slot == 3
        ||| self.named(name) && slot == operand(self.node, 2)
    }

    pub open spec fn reads_argument(self, slot: int) -> bool {
        self.names("get_arg"@, "get_arg0"@, "get_arg1"@, "get_arg2"@, "get_arg3"@, slot)
    }

    pub open spec fn reads_local(self, slot: int) -> bool {
        self.names("get_loc"@, "get_loc0"@, "get_loc1"@, "get_loc2"@, "get_loc3"@, slot) || self.named("get_loc8"@) && slot
            == operand(self.node, 1)
    }

    pub open spec fn puts_argument(self, slot: int) -> bool {
        self.names("put_arg"@, "put_arg0"@, "put_arg1"@, "put_arg2"@, "put_arg3"@, slot)
    }

    pub open spec fn sets_argument(self, slot: int) -> bool {
        self.names("set_arg"@, "set_arg0"@, "set_arg1"@, "set_arg2"@, "set_arg3"@, slot)
    }

    pub open spec fn puts_local(self, slot: int) -> bool {
        self.names("put_loc"@, "put_loc0"@, "put_loc1"@, "put_loc2"@, "put_loc3"@, slot) || self.named("put_loc8"@) && slot
            == operand(self.node, 1)
    }

    pub open spec fn sets_local(self, slot: int) -> bool {
        self.names("set_loc"@, "set_loc0"@, "set_loc1"@, "set_loc2"@, "set_loc3"@, slot) || self.named("set_loc8"@) && slot
            == operand(self.node, 1)
    }
}

/// A name that begins with the seven characters of a prefix.
pub proof fn begins(name: Seq<char>, prefix: Seq<char>)
    requires
        prefix.len() == 7 <= name.len(),
        name[0] == prefix[0],
        name[1] == prefix[1],
        name[2] == prefix[2],
        name[3] == prefix[3],
        name[4] == prefix[4],
        name[5] == prefix[5],
        name[6] == prefix[6],
    ensures
        has_prefix(name, prefix),
{
    let start = name.take(7);
    assert forall|k: int| 0 <= k < 7 implies start[k] == prefix[k] by {
        if k == 0 || k == 1 || k == 2 || k == 3 || k == 4 || k == 5 {
        } else {
            assert(k == 6);
        }
    }
    assert(start =~= prefix);
}

/// A read pushes what the slot holds, and the slot that the opcode names.
#[verifier::spinoff_prover]
#[verifier::rlimit(100)]
pub proof fn reads_push_what_the_slot_holds(x: NodeStep<'_>, w: World, slot: int)
    requires
        x.lowers(),
        x.a.at(w) is Run,
    ensures
        x.reads_argument(slot) ==> {
            let v = held(x.a.at(w)->Run_0, x.mx.env.arguments@[slot]);
            x.pushes(w, v.0, v.1)
        },
        x.reads_local(slot) ==> {
            let v = held(x.a.at(w)->Run_0, x.mx.env.locals@[slot]);
            x.pushes(w, v.0, v.1)
        },
{
    spelling();
    if x.reads_argument(slot) {
        begins(x.node.name(), "get_arg"@);
        assert(op_kind(x.node) == OpKind::Move(MoveKind::GetArgument(slot as usize)) || op_kind(x.node) is Malformed);
    }
    if x.reads_local(slot) {
        begins(x.node.name(), "get_loc"@);
        assert(op_kind(x.node) == OpKind::Move(MoveKind::GetLocal(slot as usize)) || op_kind(x.node) is Malformed);
    }
}

impl<'a> NodeStep<'a> {
    /// No variable stands for two slots of the frame.
    pub open spec fn slots_apart(self) -> bool {
        let env = *self.mx.env;
        let top = self.stack(self.m.depth - 1);
        &&& forall|i: int|
            0 <= i < env.locals@.len() ==> {
                let slot = #[trigger] env.locals@[i];
                slot.payload != slot.tag && apart(slot, top)
            }
        &&& forall|i: int|
            0 <= i < env.arguments@.len() ==> {
                let slot = #[trigger] env.arguments@[i];
                slot.payload != slot.tag && apart(slot, top)
            }
    }
}

pub open spec fn apart(a: OptVars, b: OptVars) -> bool {
    a.payload != b.payload && a.payload != b.tag && a.tag != b.payload && a.tag != b.tag
}

/// A store leaves in the slot that the opcode names what was on top of the stack.
/// `put` takes it from the stack, `set` leaves it there.
#[verifier::spinoff_prover]
#[verifier::rlimit(100)]
pub proof fn stores_move_the_top_into_the_slot(x: NodeStep<'_>, w: World, slot: int)
    requires
        x.lowers(),
        x.m.depth > 0,
        x.slots_apart(),
        x.a.at(w) is Run,
        x.b.at(w) is Run,
    ensures
        ({
            let before = held(x.a.at(w)->Run_0, x.stack(x.m.depth - 1));
            let t = x.b.at(w)->Run_0;
            let env = *x.mx.env;
            &&& x.puts_local(slot) && 0 <= slot < env.locals@.len() ==> held(t, env.locals@[slot]) == before && x.m2.depth
                == x.m.depth - 1
            &&& x.sets_local(slot) && 0 <= slot < env.locals@.len() ==> held(t, env.locals@[slot]) == before && x.m2.depth
                == x.m.depth
            &&& x.puts_argument(slot) && 0 <= slot < env.arguments@.len() ==> held(t, env.arguments@[slot]) == before
                && x.m2.depth == x.m.depth - 1
            &&& x.sets_argument(slot) && 0 <= slot < env.arguments@.len() ==> held(t, env.arguments@[slot]) == before
                && x.m2.depth == x.m.depth
        }),
{
    spelling();
    if x.puts_local(slot) {
        begins(x.node.name(), "put_loc"@);
        assert(op_kind(x.node) == OpKind::Move(MoveKind::PutLocal(slot as usize)) || op_kind(x.node) is Malformed);
    } else if x.sets_local(slot) {
        begins(x.node.name(), "set_loc"@);
        assert(op_kind(x.node) == OpKind::Move(MoveKind::SetLocal(slot as usize)) || op_kind(x.node) is Malformed);
    } else if x.puts_argument(slot) {
        begins(x.node.name(), "put_arg"@);
        assert(op_kind(x.node) == OpKind::Move(MoveKind::PutArgument(slot as usize)) || op_kind(x.node) is Malformed);
    } else if x.sets_argument(slot) {
        begins(x.node.name(), "set_arg"@);
        assert(op_kind(x.node) == OpKind::Move(MoveKind::SetArgument(slot as usize)) || op_kind(x.node) is Malformed);
    }
}

impl<'a> NodeStep<'a> {
    /// Control goes on with the value in place of the one on top, with nothing
    /// observed and no other slot changed.
    pub open spec fn replaces_top(self, w: World, payload: int, tag: int) -> bool {
        let top = self.stack(self.m.depth - 1);
        &&& self.m2.depth == self.m.depth
        &&& self.b.at(w) matches Status::Run(t)
        &&& t.trace == self.a.at(w)->Run_0.trace
        &&& held(t, top) == (payload, tag)
        &&& only_slot_changed(self.a.at(w)->Run_0, t, top)
    }
}

/// The tests for `undefined` and `null` answer by the tag of the value on top, and
/// the test for either is the two together.
#[verifier::spinoff_prover]
#[verifier::rlimit(100)]
pub proof fn tag_tests_answer_by_the_tag(x: NodeStep<'_>, w: World)
    requires
        x.lowers(),
        x.m.depth > 0,
        x.a.at(w) is Run,
    ensures
        ({
            let tag = held(x.a.at(w)->Run_0, x.stack(x.m.depth - 1)).1;
            &&& x.named("is_undefined"@) ==> x.replaces_top(w, if tag == 3 { 1int } else { 0 }, 1)
            &&& x.named("is_null"@) ==> x.replaces_top(w, if tag == 2 { 1int } else { 0 }, 1)
            &&& x.named("is_undefined_or_null"@) ==> x.replaces_top(w, if tag == 2 || tag == 3 { 1int } else { 0 }, 1)
        }),
{
    spelling();
}

/// `drop` takes a value from the stack and `nop` does nothing; neither emits code.
#[verifier::spinoff_prover]
#[verifier::rlimit(100)]
pub proof fn drop_and_nop_emit_nothing(x: NodeStep<'_>)
    requires
        x.lowers(),
    ensures
        x.named("drop"@) ==> x.b.insts@ == x.a.insts@ && x.m2.depth == x.m.depth - 1,
        x.named("nop"@) ==> x.b.insts@ == x.a.insts@ && x.m2.depth == x.m.depth,
{
    spelling();
}

/// Whether JavaScript takes a value for true; references are left to the runtime.
pub open spec fn truthy(payload: int, tag: int) -> Option<bool> {
    if tag == 0 || tag == 1 {
        Some(payload != 0)
    } else if tag == 2 || tag == 3 {
        Some(false)
    } else if tag == 8 {
        Some(!(payload == 0 || payload == -0x8000_0000_0000_0000 || payload > 0x7ff0_0000_0000_0000 || -0x10_0000_0000_0000
            < payload < 0))
    } else {
        None
    }
}

impl<'a> NodeStep<'a> {
    /// Control goes to a block with everything as it was.
    pub open spec fn goes_to(self, w: World, block: usize) -> bool {
        let s = self.a.at(w)->Run_0;
        self.b.at(w) matches Status::Wait { block: at, args, state } && at == block && args.len() == 0 && state.vars == s.vars
            && state.trace == s.trace
    }

    /// Control leaves the function.
    pub open spec fn leaves(self, w: World) -> bool {
        self.b.at(w) is Done
    }
}

/// A conditional branch goes to its target where the value on top is true, or
/// false, as its name says, and to the block behind otherwise. A reference leaves
/// the function.
#[verifier::spinoff_prover]
#[verifier::rlimit(100)]
pub proof fn branches_go_by_truth(x: NodeStep<'_>, w: World, i: int)
    requires
        x.lowers(),
        x.m.depth > 0,
        x.a.at(w) is Run,
        0 <= i < x.mx.ir.blocks@.len() - 1,
        x.mx.ir.blocks@[i].start_pc == x.block,
        forall|j: int| 0 <= j < i ==> (#[trigger] x.mx.ir.blocks@[j]).start_pc != x.block,
        x.node.branch_target is Some,
        x.mx.blocks@.contains_key(x.node.branch_target->Some_0),
        x.mx.blocks@.contains_key(x.mx.ir.blocks@[i + 1].start_pc),
        ({
            let v = held(x.a.at(w)->Run_0, x.stack(x.m.depth - 1));
            &&& v.1 == 0 || v.1 == 1 ==> -0x8000_0000 <= v.0 <= 0x7fff_ffff
            &&& -0x8000_0000_0000_0000 <= v.0 <= 0x7fff_ffff_ffff_ffff
            &&& x.mx.env.int32_loop ==> v.1 == 0 || v.1 == 1
        }),
    ensures
        ({
            let v = held(x.a.at(w)->Run_0, x.stack(x.m.depth - 1));
            let target = x.mx.blocks@[x.node.branch_target->Some_0];
            let next = x.mx.blocks@[x.mx.ir.blocks@[i + 1].start_pc];
            &&& x.named("if_true"@) || x.named("if_true8"@) ==> match truthy(v.0, v.1) {
                Some(holds) => x.goes_to(w, if holds { target } else { next }) && x.m2.depth == x.m.depth - 1,
                None => x.leaves(w),
            }
            &&& x.named("if_false"@) || x.named("if_false8"@) ==> match truthy(v.0, v.1) {
                Some(holds) => x.goes_to(w, if holds { next } else { target }) && x.m2.depth == x.m.depth - 1,
                None => x.leaves(w),
            }
        }),
{
    spelling();
    let v = held(x.a.at(w)->Run_0, x.stack(x.m.depth - 1));
    let bits = v.0 as i64;
    assert(bits >= 0 ==> bits & 0x7fff_ffff_ffff_ffff == bits) by (bit_vector);
    assert(bits < 0 ==> (bits & 0x7fff_ffff_ffff_ffff) == bits + 0x8000_0000_0000_0000) by (bit_vector);
    first_at_is(|k: int| x.mx.ir.blocks@[k].start_pc == x.block, x.mx.ir.blocks@.len(), i);
}

/// `goto` goes to its target.
#[verifier::spinoff_prover]
#[verifier::rlimit(100)]
pub proof fn jumps_go_to_their_target(x: NodeStep<'_>, w: World)
    requires
        x.lowers(),
        x.a.at(w) is Run,
        x.named("goto"@) || x.named("goto8"@) || x.named("goto16"@),
        x.node.branch_target is Some,
        x.mx.blocks@.contains_key(x.node.branch_target->Some_0),
    ensures
        x.goes_to(w, x.mx.blocks@[x.node.branch_target->Some_0]),
        x.m2.depth == x.m.depth,
{
    spelling();
}

/// A store of a word at an address.
pub open spec fn stores(event: Event, ty: Ty, address: int, value: int) -> bool {
    event matches Event::Store { ty: stored, address: at, value: written } && stored == ty && written == value && (at - address)
        % 0x1_0000_0000_0000_0000 == 0
}

impl<'a> NodeStep<'a> {
    /// Control leaves the function with the value as its result: it is written to
    /// the frame's result, payload first, and the exit says that the function is
    /// done.
    pub open spec fn leaves_with(self, w: World, payload: int, tag: int, records: int) -> bool {
        let s = self.a.at(w)->Run_0;
        let env = *self.mx.env;
        let result = s.vals[env.frame as int] + env.abi.result;
        &&& self.b.at(w) matches Status::Done { values, state }
        &&& values.len() == 0
        &&& state.trace.len() == s.trace.len() + records
        &&& forall|k: int| 0 <= k < s.trace.len() ==> #[trigger] state.trace[k] == s.trace[k]
        &&& {
            let n = state.trace.len() as int;
            let first = n - if self.m2.depth < self.m.depth { 7int } else { 6 };
            &&& stores(state.trace[first], Ty::I64, result, payload)
            &&& stores(state.trace[first + 1], Ty::I64, result + 8, tag)
            &&& stores(
                state.trace[n - 4],
                Ty::I32,
                s.vals[env.sret as int],
                crate::code::wrap(Ty::I32, env.abi.exit_done as int),
            )
        }
    }
}

/// `return` of a value that the stack owns, or that is no reference, leaves with
/// that value; `return_undef` leaves with `undefined`.
#[verifier::spinoff_prover]
#[verifier::rlimit(100)]
pub proof fn returns_leave_with_their_value(x: NodeStep<'_>, w: World)
    requires
        x.lowers(),
        x.a.at(w) is Run,
        x.mx.env.abi.exit_done != x.mx.env.abi.exit_deopt,
    ensures
        x.named("return"@) && x.m.depth > 0 && !(x.m.provenance[x.m.depth - 1] is Argument) && !(x.m.provenance[x.m.depth - 1] is Local)
            ==> {
            let v = held(x.a.at(w)->Run_0, x.stack(x.m.depth - 1));
            x.leaves_with(w, v.0, v.1, 7) && x.m2.depth == x.m.depth - 1
        },
        x.named("return_undef"@) ==> x.leaves_with(w, 0, 3, 6) && x.m2.depth == x.m.depth,
{
    spelling();
}

impl<'a> NodeStep<'a> {
    /// The payload and tag of a scalar value at hand.
    pub open spec fn scalar(self, w: World, id: usize) -> (int, int) {
        let s = self.a.at(w)->Run_0;
        let pair = self.m.values[id];
        (s.vals[pair.payload as int], s.vals[pair.tag as int])
    }

    pub open spec fn operation(self) -> Option<ScalarOperation> {
        self.mx.scalar_nodes@[self.node.id as int].operation
    }

    /// Control goes on with the value in place of the two operands on top.
    pub open spec fn folds_to(self, w: World, payload: int, tag: int) -> bool {
        &&& self.m2.depth == self.m.depth - 1
        &&& self.b.at(w) matches Status::Run(t)
        &&& t.trace == self.a.at(w)->Run_0.trace
        &&& held(t, self.stack(self.m.depth - 2)) == (payload, tag)
    }

    pub open spec fn is_arithmetic(self) -> bool {
        self.named("add"@) || self.named("sub"@) || self.named("mul"@) || self.named("div"@)
    }

    pub open spec fn is_comparison(self) -> bool {
        self.named("lt"@) || self.named("lte"@) || self.named("gt"@) || self.named("gte"@)
    }

    pub open spec fn is_bitwise(self) -> bool {
        self.named("and"@) || self.named("or"@) || self.named("xor"@) || self.named("shl"@) || self.named("sar"@) || self.named(
            "shr"@,
        )
    }
}

/// Arithmetic on Int32 operands goes on with the exact result of the left and the
/// right operand, in this order, in place of the two, or leaves the function: it
/// leaves where the result is no Int32.
#[verifier::spinoff_prover]
#[verifier::rlimit(100)]
pub proof fn integer_arithmetic_folds_its_operands(x: NodeStep<'_>, w: World, op: ScalarBinaryOp, lhs: usize, rhs: usize)
    requires
        x.lowers(),
        x.m.depth >= 2,
        x.is_arithmetic(),
        x.a.at(w) is Run,
        x.operation() == Some(ScalarOperation::Binary { op, mode: OperandMode::Int32, lhs, rhs }),
        is_int32(x.scalar(w, lhs).0),
        is_int32(x.scalar(w, rhs).0),
    ensures
        ({
            let l = x.scalar(w, lhs).0;
            let r = x.scalar(w, rhs).0;
            let v = held(x.b.at(w)->Run_0, x.stack(x.m.depth - 2)).0;
            &&& x.b.at(w) is Run || x.leaves(w)
            &&& x.b.at(w) is Run ==> x.folds_to(w, v, 0) && is_int32(v)
            &&& x.b.at(w) is Run && op == ScalarBinaryOp::Add ==> v == l + r
            &&& x.b.at(w) is Run && op == ScalarBinaryOp::Sub ==> v == l - r
            &&& x.b.at(w) is Run && op == ScalarBinaryOp::Mul ==> v == l * r && !is_negative_zero(l, r)
            &&& x.b.at(w) is Run && op == ScalarBinaryOp::Div ==> v * r == l && r != 0 && !(l == 0 && r < 0)
        }),
{
    spelling();
    let l = x.scalar(w, lhs).0;
    let r = x.scalar(w, rhs).0;
    assert(op_kind(x.node) == OpKind::Number(NumberKind::Arithmetic));
    if let Some(v) = integer_result(op, l, r) {
        arithmetic_is_exact(l, r, v);
    }
}

/// Arithmetic on doubles goes on with the double of the operation of the same
/// name on the left and the right operand, in this order.
#[verifier::spinoff_prover]
#[verifier::rlimit(100)]
pub proof fn double_arithmetic_folds_its_operands(x: NodeStep<'_>, w: World, op: ScalarBinaryOp, lhs: usize, rhs: usize)
    requires
        x.lowers(),
        x.m.depth >= 2,
        x.is_arithmetic(),
        x.a.at(w) is Run,
        x.operation() == Some(ScalarOperation::Binary { op, mode: OperandMode::Float64, lhs, rhs }),
    ensures
        ({
            let l = x.scalar(w, lhs).0;
            let r = x.scalar(w, rhs).0;
            &&& x.b.at(w) is Run || x.leaves(w)
            &&& x.b.at(w) is Run && op == ScalarBinaryOp::Add ==> x.folds_to(w, (w.float_binary)(FloatOp::Add, l, r), 8)
            &&& x.b.at(w) is Run && op == ScalarBinaryOp::Sub ==> x.folds_to(w, (w.float_binary)(FloatOp::Sub, l, r), 8)
            &&& x.b.at(w) is Run && op == ScalarBinaryOp::Mul ==> x.folds_to(w, (w.float_binary)(FloatOp::Mul, l, r), 8)
            &&& x.b.at(w) is Run && op == ScalarBinaryOp::Div ==> x.folds_to(w, (w.float_binary)(FloatOp::Div, l, r), 8)
        }),
{
    spelling();
}

/// A comparison of Int32 goes on with whether it holds of the left and the right
/// operand, in this order.
#[verifier::spinoff_prover]
#[verifier::rlimit(100)]
pub proof fn integer_comparisons_fold_their_operands(x: NodeStep<'_>, w: World, op: ScalarCompareOp, lhs: usize, rhs: usize)
    requires
        x.lowers(),
        x.m.depth >= 2,
        x.is_comparison(),
        x.a.at(w) is Run,
        x.operation() == Some(ScalarOperation::Compare { op, lhs, rhs }),
        is_int32(x.scalar(w, lhs).0),
        is_int32(x.scalar(w, rhs).0),
        x.mx.env.int32_loop || lhs < x.mx.proven@.len() && x.mx.proven@[lhs as int] == Some(OperandMode::Int32) && rhs
            < x.mx.proven@.len() && x.mx.proven@[rhs as int] == Some(OperandMode::Int32),
    ensures
        ({
            let l = x.scalar(w, lhs).0;
            let r = x.scalar(w, rhs).0;
            let answers = |holds: bool| x.folds_to(w, if holds { 1int } else { 0 }, 1);
            &&& x.b.at(w) is Run || x.leaves(w)
            &&& x.b.at(w) is Run && op == ScalarCompareOp::LessThan ==> answers(l < r)
            &&& x.b.at(w) is Run && op == ScalarCompareOp::LessEqual ==> answers(!(r < l))
            &&& x.b.at(w) is Run && op == ScalarCompareOp::GreaterThan ==> answers(r < l)
            &&& x.b.at(w) is Run && op == ScalarCompareOp::GreaterEqual ==> answers(!(l < r))
        }),
{
    spelling();
}

/// A remainder of Int32 goes on with a number between zero and the divisor that
/// differs from the dividend by a multiple of the divisor, and leaves where the
/// dividend is negative, the divisor zero, or an operand no Int32.
#[verifier::spinoff_prover]
#[verifier::rlimit(100)]
pub proof fn remainders_fold_their_operands(x: NodeStep<'_>, w: World)
    requires
        x.lowers(),
        x.m.depth >= 2,
        x.named("mod"@),
        x.a.at(w) is Run,
        is_int32(held(x.a.at(w)->Run_0, x.stack(x.m.depth - 2)).0),
        is_int32(held(x.a.at(w)->Run_0, x.stack(x.m.depth - 1)).0),
    ensures
        ({
            let l = held(x.a.at(w)->Run_0, x.stack(x.m.depth - 2));
            let r = held(x.a.at(w)->Run_0, x.stack(x.m.depth - 1));
            let v = held(x.b.at(w)->Run_0, x.stack(x.m.depth - 2)).0;
            &&& x.b.at(w) is Run <==> l.1 == 0 && r.1 == 0 && l.0 >= 0 && r.0 != 0
            &&& x.b.at(w) is Run ==> x.folds_to(w, v, 0) && 0 <= v && (v < r.0 || v < -r.0) && exists|q: int|
                l.0 == #[trigger] (q * r.0) + v
            &&& !(x.b.at(w) is Run) ==> x.leaves(w)
        }),
{
    spelling();
    let l = held(x.a.at(w)->Run_0, x.stack(x.m.depth - 2));
    let r = held(x.a.at(w)->Run_0, x.stack(x.m.depth - 1));
    assert(op_kind(x.node) == OpKind::Number(NumberKind::Remainder));
    remainders_are_those_of_division(x.mx.env.int32_loop, l.0, l.1, r.0, r.1);
}

/// The equalities answer by the two values on top: of two truth values whether
/// they are the same, of `null` and `undefined` whether they are the same or the
/// comparison is loose. The negated ones answer the opposite of the others.
#[verifier::spinoff_prover]
#[verifier::rlimit(100)]
pub proof fn equalities_fold_their_operands(x: NodeStep<'_>, w: World)
    requires
        x.lowers(),
        x.m.depth >= 2,
        x.a.at(w) is Run,
        ({
            let l = held(x.a.at(w)->Run_0, x.stack(x.m.depth - 2));
            let r = held(x.a.at(w)->Run_0, x.stack(x.m.depth - 1));
            is_int32(l.0) && is_int32(r.0) && 1 <= l.1 <= 3 && 1 <= r.1 <= 3
        }),
    ensures
        ({
            let l = held(x.a.at(w)->Run_0, x.stack(x.m.depth - 2));
            let r = held(x.a.at(w)->Run_0, x.stack(x.m.depth - 1));
            let same = l.1 == r.1 && (l.1 == 1 ==> l.0 == r.0);
            let alike = same || l.1 > 1 && r.1 > 1;
            let answers = |holds: bool| x.folds_to(w, if holds { 1int } else { 0 }, 1);
            &&& x.named("strict_eq"@) ==> answers(same)
            &&& x.named("strict_neq"@) ==> answers(!same)
            &&& x.named("eq"@) ==> answers(alike)
            &&& x.named("neq"@) ==> answers(!alike)
        }),
{
    spelling();
    let l = held(x.a.at(w)->Run_0, x.stack(x.m.depth - 2));
    let r = held(x.a.at(w)->Run_0, x.stack(x.m.depth - 1));
    if x.named("strict_eq"@) || x.named("strict_neq"@) || x.named("eq"@) || x.named("neq"@) {
        assert(op_kind(x.node) == OpKind::Number(NumberKind::Equality));
    }
}

/// Of numbers, the equalities answer as doubles compare, or by the Int32 in a raw
/// loop; strict and loose ones agree there.
#[verifier::spinoff_prover]
#[verifier::rlimit(100)]
pub proof fn equalities_of_numbers_fold_their_operands(x: NodeStep<'_>, w: World)
    requires
        x.lowers(),
        x.m.depth >= 2,
        x.a.at(w) is Run,
        ({
            let l = held(x.a.at(w)->Run_0, x.stack(x.m.depth - 2));
            let r = held(x.a.at(w)->Run_0, x.stack(x.m.depth - 1));
            is_int32(l.0) && is_int32(r.0) && l.1 == 0 && r.1 == 0
        }),
    ensures
        ({
            let l = held(x.a.at(w)->Run_0, x.stack(x.m.depth - 2)).0;
            let r = held(x.a.at(w)->Run_0, x.stack(x.m.depth - 1)).0;
            let equal = if x.mx.env.int32_loop {
                l == r
            } else {
                (w.float_holds)(FloatCc::Equal, (w.float_of)(l), (w.float_of)(r))
            };
            let answers = |holds: bool| x.folds_to(w, if holds { 1int } else { 0 }, 1);
            &&& x.named("strict_eq"@) || x.named("eq"@) ==> answers(equal)
            &&& x.named("strict_neq"@) || x.named("neq"@) ==> answers(!equal)
        }),
{
    spelling();
    if x.named("strict_eq"@) || x.named("strict_neq"@) || x.named("eq"@) || x.named("neq"@) {
        assert(op_kind(x.node) == OpKind::Number(NumberKind::Equality));
    }
}

/// The operations on one Int32 put in its place: itself, the number that adds up
/// with it to zero, the number that adds up with it to minus one, and whether it
/// is zero.
#[verifier::spinoff_prover]
#[verifier::rlimit(100)]
pub proof fn unary_operations_replace_their_operand(x: NodeStep<'_>, w: World)
    requires
        x.lowers(),
        x.m.depth > 0,
        x.a.at(w) is Run,
        is_int32(held(x.a.at(w)->Run_0, x.stack(x.m.depth - 1)).0),
        held(x.a.at(w)->Run_0, x.stack(x.m.depth - 1)).1 == 0,
    ensures
        ({
            let v = held(x.a.at(w)->Run_0, x.stack(x.m.depth - 1)).0;
            &&& x.named("plus"@) ==> x.replaces_top(w, v, 0)
            &&& x.named("neg"@) && v != 0 && is_int32(-v) ==> x.replaces_top(w, -v, 0)
            &&& x.named("not"@) ==> x.replaces_top(w, -1 - v, 0)
            &&& x.named("lnot"@) ==> x.replaces_top(w, if v == 0 { 1int } else { 0 }, 1)
        }),
{
    spelling();
    let v = held(x.a.at(w)->Run_0, x.stack(x.m.depth - 1)).0;
    unary_operations_on_integers(x.mx.env.int32_loop, v, w);
    if x.named("plus"@) || x.named("neg"@) || x.named("not"@) || x.named("lnot"@) {
        assert(op_kind(x.node) == OpKind::Number(NumberKind::Unary));
    }
}

/// The updates step an Int32 as the node says: the ones before use in place of the
/// operand, the ones after use above it, so that the old value stays below.
#[verifier::spinoff_prover]
#[verifier::rlimit(100)]
pub proof fn updates_step_their_operand(x: NodeStep<'_>, w: World, input: usize, delta: i32)
    requires
        x.lowers(),
        x.m.depth > 0,
        x.a.at(w) is Run,
        x.b.at(w) is Run,
        x.operation() == Some(ScalarOperation::Update { mode: OperandMode::Int32, input, delta }),
        is_int32(x.scalar(w, input).0),
        is_int32(x.scalar(w, input).0 + delta),
        x.scalar(w, input).1 == 0,
    ensures
        ({
            let v = x.scalar(w, input).0 + delta;
            let t = x.b.at(w)->Run_0;
            &&& x.named("inc"@) || x.named("dec"@) ==> held(t, x.stack(x.m.depth - 1)) == (v, 0int) && x.m2.depth == x.m.depth
            &&& x.named("post_inc"@) || x.named("post_dec"@) ==> held(t, x.stack(x.m.depth)) == (v, 0int) && x.m2.depth
                == x.m.depth + 1
            &&& (x.named("inc_loc"@) || x.named("dec_loc"@)) && x.node.bytes@[1] < x.mx.env.locals@.len() && x.mx.env.locals@[x.node.bytes@[1] as int].payload
                != x.mx.env.locals@[x.node.bytes@[1] as int].tag ==> held(t, x.mx.env.locals@[x.node.bytes@[1] as int]) == (
                v,
                0int,
            ) && x.m2.depth == x.m.depth
        }),
{
    spelling();
}

/// `add_loc` adds the value on top to the local that stands behind the opcode.
#[verifier::spinoff_prover]
#[verifier::rlimit(100)]
pub proof fn local_sums_add_the_top(x: NodeStep<'_>, w: World)
    requires
        x.lowers(),
        x.m.depth > 0,
        x.named("add_loc"@),
        x.a.at(w) is Run,
        x.node.bytes@[1] < x.mx.env.locals@.len(),
        x.mx.env.locals@[x.node.bytes@[1] as int].payload != x.mx.env.locals@[x.node.bytes@[1] as int].tag,
        ({
            let l = held(x.a.at(w)->Run_0, x.mx.env.locals@[x.node.bytes@[1] as int]);
            let r = held(x.a.at(w)->Run_0, x.stack(x.m.depth - 1));
            l.1 == 0 && r.1 == 0 && is_int32(l.0) && is_int32(r.0) && is_int32(l.0 + r.0)
        }),
    ensures
        ({
            let slot = x.mx.env.locals@[x.node.bytes@[1] as int];
            let sum = held(x.a.at(w)->Run_0, slot).0 + held(x.a.at(w)->Run_0, x.stack(x.m.depth - 1)).0;
            &&& x.b.at(w) is Run
            &&& held(x.b.at(w)->Run_0, slot) == (sum, 0int)
            &&& x.m2.depth == x.m.depth - 1
        }),
{
    spelling();
}

/// `set_loc_uninitialized` empties the local that stands behind the opcode.
#[verifier::spinoff_prover]
#[verifier::rlimit(60)]
pub proof fn uninitialized_locals_are_undefined(x: NodeStep<'_>, w: World)
    requires
        x.lowers(),
        x.named("set_loc_uninitialized"@),
        x.a.at(w) is Run,
        x.b.at(w) is Run,
        operand(x.node, 2) < x.mx.env.locals@.len(),
        x.mx.env.locals@[operand(x.node, 2)].payload != x.mx.env.locals@[operand(x.node, 2)].tag,
    ensures
        held(x.b.at(w)->Run_0, x.mx.env.locals@[operand(x.node, 2)]) == (0int, 3int),
        x.m2.depth == x.m.depth,
{
    spelling();
    assert(op_kind(x.node) == OpKind::Move(MoveKind::Uninitialized(operand(x.node, 2) as usize)) || op_kind(x.node) is Malformed);
}

/// `get_loc0_loc1` pushes the first local and then the second.
#[verifier::spinoff_prover]
#[verifier::rlimit(60)]
pub proof fn first_locals_are_pushed_in_order(x: NodeStep<'_>, w: World)
    requires
        x.lowers(),
        x.named("get_loc0_loc1"@),
        x.m.depth + 1 < x.mx.env.stack@.len(),
        x.mx.env.locals@.len() >= 2,
        x.a.at(w) is Run,
        apart(x.stack(x.m.depth), x.stack(x.m.depth + 1)),
        apart(x.stack(x.m.depth), x.mx.env.locals@[1]),
    ensures
        ({
            let s = x.a.at(w)->Run_0;
            &&& x.b.at(w) matches Status::Run(t)
            &&& t.trace == s.trace
            &&& held(t, x.stack(x.m.depth)) == held(s, x.mx.env.locals@[0])
            &&& held(t, x.stack(x.m.depth + 1)) == held(s, x.mx.env.locals@[1])
            &&& x.m2.depth == x.m.depth + 2
        }),
{
    spelling();
    assert(op_kind(x.node) == OpKind::Move(MoveKind::GetFirstLocals));
    let env = *x.mx.env;
    let m1 = x.m.push(OptProvenance::Local(0));
    let mid = choose|mid: Code| #[trigger]
        slot_pushed(env, env.locals@[0], OptProvenance::Local(0), x.a, x.m, mid, m1) && slot_pushed(
            env,
            env.locals@[1],
            OptProvenance::Local(1),
            mid,
            m1,
            x.b,
            x.m2,
        );
    let between = mid.at(w);
    assert(x.stack(x.m.depth).payload != x.stack(x.m.depth).tag);
    assert(x.stack(x.m.depth + 1).payload != x.stack(x.m.depth + 1).tag);
}

/// A constant of the function is pushed by the number that stands behind the
/// opcode, with its own payload and tag.
#[verifier::spinoff_prover]
#[verifier::rlimit(60)]
pub proof fn constants_push_their_value(x: NodeStep<'_>, w: World, constant: u32)
    requires
        x.lowers(),
        x.a.at(w) is Run,
        x.named("push_const8"@) && constant == x.node.bytes@[1] || x.named("push_const"@) && constant == x.node.bytes@[1] + 0x100
            * x.node.bytes@[2] + 0x1_0000 * x.node.bytes@[3] + 0x100_0000 * x.node.bytes@[4],
        x.mx.specialization.numeric_constants@[constant].payload < 0x8000_0000_0000_0000,
    ensures
        x.pushes(
            w,
            x.mx.specialization.numeric_constants@[constant].payload as int,
            x.mx.specialization.numeric_constants@[constant].tag as int,
        ),
{
    spelling();
    let c = x.mx.specialization.numeric_constants@[constant];
    assert(op_kind(x.node) == OpKind::Move(MoveKind::Constant(constant)) || op_kind(x.node) is Malformed);
    assert((c.payload as i64) as int == c.payload as int);
}

/// A store into an argument reaches the frame at once, at the argument's place, and
/// so does one into a local wherever locals are not published late.
#[verifier::spinoff_prover]
#[verifier::rlimit(100)]
pub proof fn stores_reach_the_frame(x: NodeStep<'_>, w: World, slot: int)
    requires
        x.lowers(),
        x.m.depth > 0,
        x.m.provenance[x.m.depth - 1] != OptProvenance::OwnedSlot,
        x.a.at(w) is Run,
        x.b.at(w) is Run,
    ensures
        ({
            let s = x.a.at(w)->Run_0;
            let v = held(s, x.stack(x.m.depth - 1));
            let t = x.b.at(w)->Run_0.trace;
            let n = t.len() as int;
            let env = *x.mx.env;
            &&& (x.puts_argument(slot) || x.sets_argument(slot)) && 0 <= slot < env.arguments@.len() ==> {
                &&& n == s.trace.len() + 2
                &&& writes(t[n - 2], s.vals[env.arg_buf as int] + 16 * slot, v.0)
                &&& writes(t[n - 1], s.vals[env.arg_buf as int] + 16 * slot + 8, v.1)
            }
            &&& (x.puts_local(slot) || x.sets_local(slot)) && 0 <= slot < env.locals@.len() && !env.int32_loop && !x.mx.defer_locals
                && !x.mx.owned_locals@[slot] ==> {
                &&& n == s.trace.len() + 2
                &&& writes(t[n - 2], s.vals[env.var_buf as int] + 16 * slot, v.0)
                &&& writes(t[n - 1], s.vals[env.var_buf as int] + 16 * slot + 8, v.1)
            }
        }),
{
    spelling();
    let env = *x.mx.env;
    if (x.puts_local(slot) || x.sets_local(slot)) && 0 <= slot < env.locals@.len() {
        if x.puts_local(slot) {
            begins(x.node.name(), "put_loc"@);
            assert(op_kind(x.node) == OpKind::Move(MoveKind::PutLocal(slot as usize)) || op_kind(x.node) is Malformed);
            published_store(x, x.mx.local(slot as usize, true), false, w);
        } else {
            begins(x.node.name(), "set_loc"@);
            assert(op_kind(x.node) == OpKind::Move(MoveKind::SetLocal(slot as usize)) || op_kind(x.node) is Malformed);
            published_store(x, x.mx.local(slot as usize, false), true, w);
        }
    } else if (x.puts_argument(slot) || x.sets_argument(slot)) && 0 <= slot < env.arguments@.len() {
        if x.puts_argument(slot) {
            begins(x.node.name(), "put_arg"@);
            assert(op_kind(x.node) == OpKind::Move(MoveKind::PutArgument(slot as usize)) || op_kind(x.node) is Malformed);
            published_store(x, x.mx.argument(slot as usize), false, w);
        } else {
            begins(x.node.name(), "set_arg"@);
            assert(op_kind(x.node) == OpKind::Move(MoveKind::SetArgument(slot as usize)) || op_kind(x.node) is Malformed);
            published_store(x, x.mx.argument(slot as usize), true, w);
        }
    }
}

#[verifier::spinoff_prover]
#[verifier::rlimit(60)]
proof fn published_store(x: NodeStep<'_>, to: Destination, keep: bool, w: World)
    requires
        stored(
            *x.mx.env,
            *x.mx.specialization,
            to,
            keep,
            x.node.pc,
            x.node.deopt_guard,
            x.a,
            x.m,
            x.b,
            x.m2,
        ),
        x.a.at(w) is Run,
        x.b.at(w) is Run,
        x.m.provenance[x.m.depth - 1] != OptProvenance::OwnedSlot,
    ensures
        to.publish && !to.release ==> {
            let s = x.a.at(w)->Run_0;
            let v = held(s, x.stack(x.m.depth - 1));
            let t = x.b.at(w)->Run_0.trace;
            let n = t.len() as int;
            &&& n == s.trace.len() + 2
            &&& writes(t[n - 2], s.vals[to.buffer as int] + 16 * to.index, v.0)
            &&& writes(t[n - 1], s.vals[to.buffer as int] + 16 * to.index + 8, v.1)
        },
{
}

/// What a slot is known to be after a node: what was read is borrowed from the slot
/// that the opcode names, and what was computed is a primitive.
#[verifier::spinoff_prover]
#[verifier::rlimit(100)]
pub proof fn reads_are_borrowed_from_their_slot(x: NodeStep<'_>, slot: int)
    requires
        x.lowers(),
        x.m.depth < x.m.provenance.len(),
    ensures
        x.reads_argument(slot) ==> x.m2.provenance[x.m.depth] == OptProvenance::Argument(slot as usize),
        x.reads_local(slot) ==> x.m2.provenance[x.m.depth] == OptProvenance::Local(slot as usize),
        x.named("push_true"@) || x.named("null"@) || x.named("push_0"@) ==> x.m2.provenance[x.m.depth]
            == OptProvenance::ImmediatePrimitive,
{
    spelling();
    if x.reads_argument(slot) {
        begins(x.node.name(), "get_arg"@);
        assert(op_kind(x.node) == OpKind::Move(MoveKind::GetArgument(slot as usize)) || op_kind(x.node) is Malformed);
    }
    if x.reads_local(slot) {
        begins(x.node.name(), "get_loc"@);
        assert(op_kind(x.node) == OpKind::Move(MoveKind::GetLocal(slot as usize)) || op_kind(x.node) is Malformed);
    }
}

/// An operation on bits goes on with its result on the left and the right operand,
/// in this order: both, either, one alone, or the left one shifted by the right.
#[verifier::spinoff_prover]
#[verifier::rlimit(100)]
pub proof fn bitwise_operations_fold_their_operands(x: NodeStep<'_>, w: World, op: ScalarBitwiseOp, lhs: usize, rhs: usize)
    requires
        x.lowers(),
        x.m.depth >= 2,
        x.is_bitwise(),
        x.a.at(w) is Run,
        x.b.at(w) is Run,
        x.operation() == Some(ScalarOperation::Bitwise { op, lhs, rhs }),
        is_int32(x.scalar(w, lhs).0),
        is_int32(x.scalar(w, rhs).0),
    ensures
        ({
            let l = x.scalar(w, lhs).0;
            let r = x.scalar(w, rhs).0;
            let v = held(x.b.at(w)->Run_0, x.stack(x.m.depth - 2));
            &&& x.folds_to(w, v.0, v.1)
            &&& bitwise_result(op, x.mx.env.int32_loop, l, r, w) == Some(v)
            &&& op == ScalarBitwiseOp::And && r == 0 ==> v == (0int, 0int)
            &&& op == ScalarBitwiseOp::Or && r == 0 ==> v == (l, 0int)
            &&& op == ScalarBitwiseOp::Sar && l >= 0 ==> v.0 >= 0 && v.1 == 0
        }),
{
    spelling();
    let l = x.scalar(w, lhs).0;
    let r = x.scalar(w, rhs).0;
    bits_add_up(x.mx.env.int32_loop, l, r, w);
    shifts_scale_by_powers_of_two(x.mx.env.int32_loop, l, r, w);
    if op == ScalarBitwiseOp::Sar && l >= 0 {
        let v = bitwise_result(op, x.mx.env.int32_loop, l, r, w)->Some_0.0;
        let power = crate::code::two_to(r % 32);
        assert(v >= 0) by (nonlinear_arith)
            requires
                l >= 0,
                l < (v + 1) * power,
                power >= 1 || power <= 0 && v * power <= l,
                v * power <= l,
        ;
    }
}

} // verus!
