//! Scalar values in emitted code: where each value of the graph is held, and how
//! the frame's variables are restored from them.
use crate::arithmetic::ScalarBitwiseOp;
use crate::checks::require;
use crate::checks::steers;
use crate::code::truth;
use crate::code::value;
use crate::code::BinaryOp;
use crate::code::kept;
use crate::code::Code;
use crate::code::State;
use crate::code::Status;
use crate::code::Ty;
use crate::code::World;
use crate::control::CompileFailure;
use crate::frame::runs_on;
use crate::frame::OptEnv;
use crate::ir::FrameSlot;
use crate::ir::OptimizedBlock;
use crate::ir::OptimizedIr;
use crate::lower_values::group_truths;
use crate::lower_values::opt_define;
use crate::lower_values::opt_tag_is;
use crate::lower_values::opt_use;
use crate::lower_values::vars_after;
use crate::lower_values::OptPair;
use crate::lower_values::OptVars;
use crate::qjs::JS_TAG_FLOAT64;
use crate::qjs::JS_TAG_INT;
use crate::runtime::first_at;
use crate::runtime::first_at_is;
use crate::runtime::first_at_none;
use std::collections::BTreeMap;
use crate::typing::steady;
use crate::typing::closing;
use crate::typing::calm;
use crate::assemble::Known;
use crate::frame_typing::pair_held;
use crate::frame_typing::slot_named;
use crate::frame_typing::slots_named;
use crate::frame_typing::cached_named;
use crate::frame_typing::cache_named;
use crate::frame_typing::phis_named;
use crate::frame_typing::values_held;
use vstd::prelude::*;

verus! {

broadcast use {
    crate::typing::group_typing,
    crate::frame_typing::group_frame,
    vstd::std_specs::btree::group_btree_axioms,
};

/// What an operation takes its operands for.
#[derive(Clone, Copy, Debug, PartialEq, Eq, Structural)]
pub enum OperandMode {
    Int32,
    Float64,
    Number,
}

/// A check of an operand before an operation.
#[derive(Clone, Copy, Debug, PartialEq, Eq, Structural)]
pub struct ScalarCheck {
    pub frame_state_node: u32,
    pub mode: OperandMode,
    pub value: usize,
    pub eliminated: bool,
}

/// The frame before a node, as scalar values.
#[derive(Debug)]
pub struct ScalarFrame {
    pub pc: u32,
    pub arguments: Vec<usize>,
    pub locals: Vec<usize>,
    pub stack: Vec<usize>,
}

#[derive(Clone, Copy, Debug, PartialEq, Eq, Structural)]
pub enum ScalarBinaryOp {
    Add,
    Sub,
    Mul,
    Div,
}

#[derive(Clone, Copy, Debug, PartialEq, Eq, Structural)]
pub enum ScalarCompareOp {
    LessThan,
    LessEqual,
    GreaterThan,
    GreaterEqual,
}

/// What a node computes on scalar values.
#[derive(Clone, Copy, Debug, PartialEq, Eq, Structural)]
pub enum ScalarOperation {
    Update { mode: OperandMode, input: usize, delta: i32 },
    Bitwise { op: ScalarBitwiseOp, lhs: usize, rhs: usize },
    Binary { op: ScalarBinaryOp, mode: OperandMode, lhs: usize, rhs: usize },
    Compare { op: ScalarCompareOp, lhs: usize, rhs: usize },
}

/// The incoming edge of a phi.
#[derive(Clone, Copy, Debug, PartialEq, Eq, Structural)]
pub struct PhiEdge {
    pub target: usize,
    /// The block that the value comes from; none for the function's entry.
    pub predecessor: Option<u32>,
    pub source: usize,
}

/// Where scalar values are held.
pub open spec fn pairs_known(values: Map<usize, OptPair>, n: int) -> bool {
    forall|id: usize| #[trigger] values.contains_key(id) ==> values[id].payload < n && values[id].tag < n
}

pub open spec fn all_held(values: Map<usize, OptPair>, ids: Seq<usize>) -> bool {
    forall|k: int| 0 <= k < ids.len() ==> values.contains_key(#[trigger] ids[k])
}

/// The first `k` slots set to the scalar values.
pub open spec fn assigned(
    vars: Map<int, int>,
    vals: Map<int, int>,
    slots: Seq<OptVars>,
    ids: Seq<usize>,
    values: Map<usize, OptPair>,
    k: nat,
) -> Map<int, int>
    decreases k,
{
    if k == 0 {
        vars
    } else {
        let pair = values[ids[k - 1]];
        vars_after(
            assigned(vars, vals, slots, ids, values, (k - 1) as nat),
            slots[k - 1],
            vals[pair.payload as int],
            vals[pair.tag as int],
        )
    }
}

fn assign(code: &mut Code, slots: &Vec<OptVars>, ids: &Vec<usize>, values: &BTreeMap<usize, OptPair>) -> (r: Result<
    (),
    CompileFailure,
>)
    requires
        ids@.len() <= slots@.len(),
    ensures
        kept(*old(code), *final(code)),
        r is Ok && slots_named(*old(code), slots@, Ty::I64) && values_held(*old(code), values@)
            ==> steady(*old(code), *final(code)),
        final(code).len() >= old(code).len(),
        r is Ok <==> all_held(values@, ids@),
        r is Err ==> r == Err::<(), CompileFailure>(CompileFailure::InvalidArtifact),
        r is Ok ==> forall|w: World| #[trigger]
            final(code).at(w) == (match old(code).at(w) {
                Status::Run(s) => Status::Run(
                    State { vars: assigned(s.vars, s.vals, slots@, ids@, values@, ids@.len()), ..s },
                ),
                st => st,
            }),
{
    let mut k: usize = 0;
    while k < ids.len()
        invariant
            kept(*old(code), *code),
            slots_named(*old(code), slots@, Ty::I64) && values_held(*old(code), values@) ==> steady(*old(code), *code),
            k <= ids@.len() <= slots@.len(),
            old(code).len() <= code.len(),
            forall|j: int| 0 <= j < k ==> values@.contains_key(#[trigger] ids@[j]),
            forall|w: World| #[trigger]
                code.at(w) == (match old(code).at(w) {
                    Status::Run(s) => Status::Run(
                        State { vars: assigned(s.vars, s.vals, slots@, ids@, values@, k as nat), ..s },
                    ),
                    st => st,
                }),
        decreases ids@.len() - k,
    {
        let pair = match values.get(&ids[k]) {
            Some(pair) => *pair,
            None => {
                assert(!values@.contains_key(ids@[k as int]));
                return Err(CompileFailure::InvalidArtifact);
            },
        };
        let ghost before = *code;
        opt_define(code, slots[k], pair);
        proof {
            assert forall|w: World| #[trigger]
                code.at(w) == (match old(code).at(w) {
                    Status::Run(s) => Status::Run(
                        State { vars: assigned(s.vars, s.vals, slots@, ids@, values@, (k + 1) as nat), ..s },
                    ),
                    st => st,
                }) by {
                let a = before.at(w);
            }
        }
        k = k + 1;
    }
    Ok(())
}

/// The frame belongs to the instruction and has the shape of the function's.
pub open spec fn frame_fits(env: OptEnv<'_>, frame: Option<ScalarFrame>, pc: u32, depth: int, values: Map<usize, OptPair>) -> bool {
    frame matches Some(f) && f.pc == pc && f.stack@.len() == depth && f.arguments@.len() == env.arguments@.len()
        && f.locals@.len() == env.locals@.len() && depth <= env.stack@.len() && all_held(values, f.arguments@) && all_held(
        values,
        f.locals@,
    ) && all_held(values, f.stack@)
}

/// The variables of the whole frame, set to the scalar values.
pub open spec fn frame_vars(
    env: OptEnv<'_>,
    frame: ScalarFrame,
    values: Map<usize, OptPair>,
    vars: Map<int, int>,
    vals: Map<int, int>,
) -> Map<int, int> {
    let arguments = assigned(vars, vals, env.arguments@, frame.arguments@, values, frame.arguments@.len());
    let locals = assigned(arguments, vals, env.locals@, frame.locals@, values, frame.locals@.len());
    assigned(locals, vals, env.stack@, frame.stack@, values, frame.stack@.len())
}

/// Restores the frame's variables from the scalar values before a node, without
/// writing to memory.
pub fn opt_restore_scalar_frame(
    code: &mut Code,
    env: &OptEnv<'_>,
    frame: Option<&ScalarFrame>,
    pc: u32,
    depth: usize,
    values: &BTreeMap<usize, OptPair>,
) -> (r: Result<(), CompileFailure>)
    ensures
        kept(*old(code), *final(code)),
        r is Ok && env.typed(*old(code)) && values_held(*old(code), values@) ==> steady(*old(code), *final(code)),
        final(code).len() >= old(code).len(),
        r is Ok <==> frame_fits(
            *env,
            if frame is Some {
                Some(*frame->Some_0)
            } else {
                None
            },
            pc,
            depth as int,
            values@,
        ),
        r is Err ==> r == Err::<(), CompileFailure>(CompileFailure::InvalidArtifact),
        r is Ok ==> forall|w: World| #[trigger]
            final(code).at(w) == (match old(code).at(w) {
                Status::Run(s) => Status::Run(
                    State { vars: frame_vars(*env, *frame->Some_0, values@, s.vars, s.vals), ..s },
                ),
                st => st,
            }),
{
    let frame = match frame {
        Some(frame) => frame,
        None => {
            return Err(CompileFailure::InvalidArtifact);
        },
    };
    if frame.pc != pc || frame.stack.len() != depth || frame.arguments.len() != env.arguments.len() || frame.locals.len()
        != env.locals.len() || depth > env.stack.len() {
        return Err(CompileFailure::InvalidArtifact);
    }
    let ghost c0 = *code;
    if let Err(e) = assign(code, env.arguments, &frame.arguments, values) {
        return Err(e);
    }
    let ghost c1 = *code;
    if let Err(e) = assign(code, env.locals, &frame.locals, values) {
        return Err(e);
    }
    let ghost c2 = *code;
    if let Err(e) = assign(code, env.stack, &frame.stack, values) {
        return Err(e);
    }
    proof {
        assert forall|w: World| #[trigger]
            code.at(w) == (match c0.at(w) {
                Status::Run(s) => Status::Run(State { vars: frame_vars(*env, *frame, values@, s.vars, s.vals), ..s }),
                st => st,
            }) by {
            let a = c1.at(w);
            let b = c2.at(w);
        }
    }
    Ok(())
}

/// A value and the slot that holds it.
#[derive(Clone, Copy, Debug, PartialEq, Eq, Structural)]
pub struct Bind {
    pub value: usize,
    pub slot: OptVars,
}

pub open spec fn slot_vars(env: OptEnv<'_>, slot: FrameSlot) -> Option<OptVars> {
    match slot {
        FrameSlot::Argument(index) => if index < env.arguments@.len() {
            Some(env.arguments@[index as int])
        } else {
            None
        },
        FrameSlot::Local(index) => if index < env.locals@.len() {
            Some(env.locals@[index as int])
        } else {
            None
        },
        FrameSlot::Stack(_) => None,
    }
}

/// The values that a node defines: its outputs lie on top of the stack, and
/// others in arguments and locals.
pub open spec fn binds_of(env: OptEnv<'_>, outputs: Seq<usize>, definitions: Seq<(FrameSlot, usize)>, depth: int) -> Seq<Bind> {
    Seq::new(outputs.len(), |k: int| Bind { value: outputs[k], slot: env.stack@[depth - outputs.len() + k] })
        + definitions.map_values(|d: (FrameSlot, usize)| Bind { value: d.1, slot: slot_vars(env, d.0)->Some_0 })
}

pub open spec fn binds_fit(env: OptEnv<'_>, outputs: Seq<usize>, definitions: Seq<(FrameSlot, usize)>, depth: int) -> bool {
    &&& outputs.len() <= depth
    &&& forall|k: int| 0 <= k < definitions.len() ==> slot_vars(env, (#[trigger] definitions[k]).0) is Some
}

/// The slot that the first `n` binds leave a value in.
pub open spec fn bound_to(binds: Seq<Bind>, id: usize, n: nat) -> Option<OptVars>
    decreases n,
{
    if n == 0 {
        None
    } else if binds[n - 1].value == id {
        Some(binds[n - 1].slot)
    } else {
        bound_to(binds, id, (n - 1) as nat)
    }
}

/// The values behind the first `n` binds: a bound value is held where its slot
/// was read, and others stay where they are.
pub open spec fn rebound(before: Map<usize, OptPair>, after: Map<usize, OptPair>, binds: Seq<Bind>, n: nat) -> bool {
    &&& forall|id: usize|
        #![trigger after.contains_key(id)]
        after.contains_key(id) <==> before.contains_key(id) || bound_to(binds, id, n) is Some
    &&& forall|id: usize|
        #![trigger after[id]]
        before.contains_key(id) && bound_to(binds, id, n) is None ==> after[id] == before[id]
}

/// The bound values are those of their slots.
pub open spec fn binds_hold(after: Map<usize, OptPair>, binds: Seq<Bind>, n: nat, st: Status, s: State) -> bool {
    forall|id: usize|
        #![trigger bound_to(binds, id, n)]
        bound_to(binds, id, n) matches Some(slot) ==> value(st, after[id].payload) == s.vars[slot.payload as int] && value(
            st,
            after[id].tag,
        ) == s.vars[slot.tag as int]
}

fn bind(code: &mut Code, env: &OptEnv<'_>, binds: &Vec<Bind>, values: &mut BTreeMap<usize, OptPair>)
    requires
        pairs_known(old(values)@, old(code).len()),
    ensures
        kept(*old(code), *final(code)),
        env.typed(*old(code))
            && (forall|k: int| 0 <= k < binds@.len() ==> slot_named(*old(code), (#[trigger] binds@[k]).slot, Ty::I64))
            && values_held(*old(code), old(values)@)
            ==> steady(*old(code), *final(code)),
        env.typed(*old(code))
            && (forall|k: int| 0 <= k < binds@.len() ==> slot_named(*old(code), (#[trigger] binds@[k]).slot, Ty::I64))
            && values_held(*old(code), old(values)@)
            ==> values_held(*final(code), final(values)@),
        final(code).len() >= old(code).len(),
        pairs_known(final(values)@, final(code).len()),
        rebound(old(values)@, final(values)@, binds@, binds@.len()),
        forall|w: World|
            #![trigger final(code).at(w)]
            match old(code).at(w) {
                Status::Run(s) => runs_on(final(code).at(w), s, old(code).len(), s.vars, s.trace) && binds_hold(
                    final(values)@,
                    binds@,
                    binds@.len(),
                    final(code).at(w),
                    s,
                ),
                st => final(code).at(w) == st,
            },
{
    let mut k: usize = 0;
    while k < binds.len()
        invariant
            kept(*old(code), *code),
            env.typed(*old(code))
                && (forall|k: int| 0 <= k < binds@.len() ==> slot_named(*old(code), (#[trigger] binds@[k]).slot, Ty::I64))
                && values_held(*old(code), old(values)@)
                ==> steady(*old(code), *code),
            env.typed(*old(code))
                && (forall|k: int| 0 <= k < binds@.len() ==> slot_named(*old(code), (#[trigger] binds@[k]).slot, Ty::I64))
                && values_held(*old(code), old(values)@)
                ==> values_held(*code, values@),
            k <= binds@.len(),
            old(code).len() <= code.len(),
            pairs_known(values@, code.len()),
            rebound(old(values)@, values@, binds@, k as nat),
            forall|w: World|
                #![trigger code.at(w)]
                match old(code).at(w) {
                    Status::Run(s) => runs_on(code.at(w), s, old(code).len(), s.vars, s.trace) && binds_hold(
                        values@,
                        binds@,
                        k as nat,
                        code.at(w),
                        s,
                    ),
                    st => code.at(w) == st,
                },
        decreases binds@.len() - k,
    {
        let ghost before = *code;
        let ghost values0 = values@;
        let b = binds[k];
        let pair = opt_use(code, b.slot, env.payload_type);
        values.insert(b.value, pair);
        proof {
            assert forall|w: World|
                #![trigger code.at(w)]
                match old(code).at(w) {
                    Status::Run(s) => runs_on(code.at(w), s, old(code).len(), s.vars, s.trace) && binds_hold(
                        values@,
                        binds@,
                        (k + 1) as nat,
                        code.at(w),
                        s,
                    ),
                    st => code.at(w) == st,
                } by {
                let a = before.at(w);
                if let Status::Run(s) = old(code).at(w) {
                    let st = code.at(w);
                    assert forall|id: usize|
                        #![trigger bound_to(binds@, id, (k + 1) as nat)]
                        bound_to(binds@, id, (k + 1) as nat) matches Some(slot) ==> value(st, values@[id].payload)
                            == s.vars[slot.payload as int] && value(st, values@[id].tag) == s.vars[slot.tag as int] by {
                        if id != b.value {
                            let earlier = bound_to(binds@, id, k as nat);
                            if earlier is Some {
                                assert(values0.contains_key(id));
                            }
                        }
                    }
                }
            }
        }
        k = k + 1;
    }
}

/// Remembers where a completed node left the values that it defines.
pub fn opt_bind_scalar_node(
    code: &mut Code,
    env: &OptEnv<'_>,
    outputs: &Vec<usize>,
    definitions: &Vec<(FrameSlot, usize)>,
    depth: usize,
    values: &mut BTreeMap<usize, OptPair>,
) -> (r: Result<(), CompileFailure>)
    requires
        depth <= env.stack@.len(),
        pairs_known(old(values)@, old(code).len()),
    ensures
        kept(*old(code), *final(code)),
        r is Ok && env.typed(*old(code)) && values_held(*old(code), old(values)@) ==> steady(*old(code), *final(code)),
        r is Ok && env.typed(*old(code)) && values_held(*old(code), old(values)@)
            ==> values_held(*final(code), final(values)@),
        final(code).len() >= old(code).len(),
        r is Ok <==> binds_fit(*env, outputs@, definitions@, depth as int),
        r is Err ==> r == Err::<(), CompileFailure>(CompileFailure::InvalidArtifact),
        r is Ok ==> {
            let binds = binds_of(*env, outputs@, definitions@, depth as int);
            &&& pairs_known(final(values)@, final(code).len())
            &&& rebound(old(values)@, final(values)@, binds, binds.len())
            &&& forall|w: World|
                #![trigger final(code).at(w)]
                match old(code).at(w) {
                    Status::Run(s) => runs_on(final(code).at(w), s, old(code).len(), s.vars, s.trace) && binds_hold(
                        final(values)@,
                        binds,
                        binds.len(),
                        final(code).at(w),
                        s,
                    ),
                    st => final(code).at(w) == st,
                }
        },
{
    if outputs.len() > depth {
        return Err(CompileFailure::InvalidArtifact);
    }
    let base: usize = depth - outputs.len();
    let mut binds: Vec<Bind> = Vec::new();
    let mut k: usize = 0;
    while k < outputs.len()
        invariant
            kept(*old(code), *code),
            k <= outputs@.len(),
            base + outputs@.len() == depth,
            depth <= env.stack@.len(),
            binds@ == binds_of(*env, outputs@, Seq::empty(), depth as int).take(k as int),
        decreases outputs@.len() - k,
    {
        binds.push(Bind { value: outputs[k], slot: env.stack[base + k] });
        assert(binds@ =~= binds_of(*env, outputs@, Seq::empty(), depth as int).take(k + 1));
        k = k + 1;
    }
    assert(binds@ =~= binds_of(*env, outputs@, definitions@.take(0), depth as int));
    let mut d: usize = 0;
    while d < definitions.len()
        invariant
            kept(*old(code), *code),
            d <= definitions@.len(),
            outputs@.len() <= depth,
            forall|j: int| 0 <= j < d ==> slot_vars(*env, (#[trigger] definitions@[j]).0) is Some,
            binds@ == binds_of(*env, outputs@, definitions@.take(d as int), depth as int),
        decreases definitions@.len() - d,
    {
        let (slot, id) = definitions[d];
        let vars = match slot {
            FrameSlot::Argument(index) => if (index as usize) < env.arguments.len() {
                Some(env.arguments[index as usize])
            } else {
                None
            },
            FrameSlot::Local(index) => if (index as usize) < env.locals.len() {
                Some(env.locals[index as usize])
            } else {
                None
            },
            FrameSlot::Stack(_) => None,
        };
        assert(vars == slot_vars(*env, definitions@[d as int].0));
        match vars {
            Some(vars) => {
                binds.push(Bind { value: id, slot: vars });
                assert(definitions@.take(d + 1) =~= definitions@.take(d as int).push(definitions@[d as int]));
                assert(binds@ =~= binds_of(*env, outputs@, definitions@.take(d + 1), depth as int));
            },
            None => {
                return Err(CompileFailure::InvalidArtifact);
            },
        }
        d = d + 1;
    }
    assert(definitions@.take(definitions@.len() as int) =~= definitions@);
    bind(code, env, &binds, values);
    Ok(())
}

/// The value that enters a phi from a block.
pub open spec fn edge_source(edges: Seq<PhiEdge>, target: usize, from: u32) -> Option<usize> {
    match first_at(|i: int| edges[i].target == target && edges[i].predecessor == Some(from), edges.len()) {
        Some(i) => Some(edges[i].source),
        None => None,
    }
}

fn find_edge(edges: &Vec<PhiEdge>, target: usize, from: u32) -> (r: Option<usize>)
    ensures
        r == edge_source(edges@, target, from),
{
    let ghost f = |i: int| edges@[i].target == target && edges@[i].predecessor == Some(from);
    let mut i: usize = 0;
    while i < edges.len()
        invariant
            i <= edges@.len(),
            f == (|i: int| edges@[i].target == target && edges@[i].predecessor == Some(from)),
            forall|k: int| 0 <= k < i ==> !#[trigger] f(k),
        decreases edges@.len() - i,
    {
        let here = edges[i];
        let matched = match here.predecessor {
            Some(pc) => here.target == target && pc == from,
            None => false,
        };
        assert(matched == f(i as int));
        if matched {
            proof {
                first_at_is(f, edges@.len(), i as int);
            }
            return Some(edges[i].source);
        }
        i = i + 1;
    }
    proof {
        first_at_none(f, edges@.len());
    }
    None
}

/// What the first `n` inputs of a block get on the edge from another one.
pub open spec fn input_moves(
    edges: Seq<PhiEdge>,
    phis: Map<usize, OptVars>,
    inputs: Seq<(FrameSlot, usize)>,
    from: u32,
    n: nat,
) -> Option<Seq<Bind>>
    decreases n,
{
    if n == 0 {
        Some(Seq::empty())
    } else {
        match input_moves(edges, phis, inputs, from, (n - 1) as nat) {
            None => None,
            Some(before) => {
                let target = inputs[n - 1].1;
                match edge_source(edges, target, from) {
                    Some(source) => if phis.contains_key(target) {
                        Some(before.push(Bind { value: source, slot: phis[target] }))
                    } else {
                        None
                    },
                    None => None,
                }
            },
        }
    }
}

pub open spec fn block_at(ir: OptimizedIr, pc: u32) -> Option<int> {
    first_at(|i: int| ir.blocks@[i].start_pc == pc, ir.blocks@.len())
}

pub fn find_block(ir: &OptimizedIr, pc: u32) -> (r: Option<usize>)
    ensures
        match r {
            Some(i) => block_at(*ir, pc) == Some(i as int) && i < ir.blocks@.len() && ir.blocks@[i as int].start_pc == pc,
            None => block_at(*ir, pc) is None,
        },
{
    let ghost f = |i: int| ir.blocks@[i].start_pc == pc;
    let mut i: usize = 0;
    while i < ir.blocks.len()
        invariant
            i <= ir.blocks@.len(),
            f == (|i: int| ir.blocks@[i].start_pc == pc),
            forall|k: int| 0 <= k < i ==> !#[trigger] f(k),
        decreases ir.blocks@.len() - i,
    {
        if ir.blocks[i].start_pc == pc {
            proof {
                first_at_is(f, ir.blocks@.len(), i as int);
            }
            return Some(i);
        }
        i = i + 1;
    }
    proof {
        first_at_none(f, ir.blocks@.len());
    }
    None
}

/// The inputs of the block at `pc`; a block that does not exist has none.
pub open spec fn inputs_at(ir: OptimizedIr, pc: u32) -> Seq<(FrameSlot, usize)> {
    match block_at(ir, pc) {
        Some(i) => ir.blocks@[i].inputs@,
        None => Seq::empty(),
    }
}

/// What the inputs of the first `n` successors get.
pub open spec fn edge_moves(
    ir: OptimizedIr,
    edges: Seq<PhiEdge>,
    phis: Map<usize, OptVars>,
    successors: Seq<u32>,
    from: u32,
    n: nat,
) -> Option<Seq<Bind>>
    decreases n,
{
    if n == 0 {
        Some(Seq::empty())
    } else {
        let inputs = inputs_at(ir, successors[n - 1]);
        match (
            edge_moves(ir, edges, phis, successors, from, (n - 1) as nat),
            input_moves(edges, phis, inputs, from, inputs.len()),
        ) {
            (Some(before), Some(moves)) => Some(before + moves),
            _ => None,
        }
    }
}

/// The variables after the first `k` moves.
pub open spec fn moved(vars: Map<int, int>, vals: Map<int, int>, moves: Seq<Bind>, values: Map<usize, OptPair>, k: nat) -> Map<
    int,
    int,
>
    decreases k,
{
    if k == 0 {
        vars
    } else {
        let pair = values[moves[k - 1].value];
        vars_after(
            moved(vars, vals, moves, values, (k - 1) as nat),
            moves[k - 1].slot,
            vals[pair.payload as int],
            vals[pair.tag as int],
        )
    }
}

pub open spec fn moves_held(values: Map<usize, OptPair>, moves: Seq<Bind>) -> bool {
    forall|k: int| 0 <= k < moves.len() ==> values.contains_key((#[trigger] moves[k]).value)
}

proof fn moves_fail(ir: OptimizedIr, edges: Seq<PhiEdge>, phis: Map<usize, OptVars>, successors: Seq<u32>, from: u32, k: nat, n: nat)
    requires
        k <= n,
        edge_moves(ir, edges, phis, successors, from, k) is None,
    ensures
        edge_moves(ir, edges, phis, successors, from, n) is None,
    decreases n,
{
    if k < n {
        moves_fail(ir, edges, phis, successors, from, k, (n - 1) as nat);
    }
}

proof fn inputs_fail(edges: Seq<PhiEdge>, phis: Map<usize, OptVars>, inputs: Seq<(FrameSlot, usize)>, from: u32, k: nat, n: nat)
    requires
        k <= n,
        input_moves(edges, phis, inputs, from, k) is None,
    ensures
        input_moves(edges, phis, inputs, from, n) is None,
    decreases n,
{
    if k < n {
        inputs_fail(edges, phis, inputs, from, k, (n - 1) as nat);
    }
}

/// The moves go to variables of phis.
spec fn from_phis(moves: Seq<Bind>, phis: Map<usize, OptVars>) -> bool {
    forall|k: int|
        0 <= k < moves.len() ==> exists|id: usize| #[trigger]
            phis.contains_key(id) && (#[trigger] moves[k]).slot == phis[id]
}

fn collect_moves(
    edges: &Vec<PhiEdge>,
    phis: &BTreeMap<usize, OptVars>,
    inputs: &Vec<(FrameSlot, usize)>,
    from: u32,
    moves: &mut Vec<Bind>,
) -> (r: bool)
    ensures
        match input_moves(edges@, phis@, inputs@, from, inputs@.len()) {
            Some(found) => r && final(moves)@ == old(moves)@ + found,
            None => !r,
        },
        r && from_phis(old(moves)@, phis@) ==> from_phis(final(moves)@, phis@),
{
    let ghost moves0 = moves@;
    let mut k: usize = 0;
    proof {
        assert(moves@ =~= moves0 + Seq::<Bind>::empty());
    }
    while k < inputs.len()
        invariant
            k <= inputs@.len(),
            moves0 == old(moves)@,
            from_phis(old(moves)@, phis@) ==> from_phis(moves@, phis@),
            input_moves(edges@, phis@, inputs@, from, k as nat) is Some,
            moves@ == moves0 + input_moves(edges@, phis@, inputs@, from, k as nat)->Some_0,
        decreases inputs@.len() - k,
    {
        let target = inputs[k].1;
        let found = match (find_edge(edges, target, from), phis.get(&target)) {
            (Some(source), Some(slot)) => Some(Bind { value: source, slot: *slot }),
            _ => None,
        };
        match found {
            Some(b) => {
                let ghost before = moves@;
                moves.push(b);
                proof {
                    if from_phis(before, phis@) {
                        assert forall|j: int| 0 <= j < moves@.len() implies exists|id: usize| #[trigger]
                            phis@.contains_key(id) && (#[trigger] moves@[j]).slot == phis@[id] by {
                            if j < before.len() {
                                assert(moves@[j] == before[j]);
                            } else {
                                assert(phis@.contains_key(target));
                            }
                        }
                    }
                }
                assert(moves@ =~= moves0 + input_moves(edges@, phis@, inputs@, from, (k + 1) as nat)->Some_0);
            },
            None => {
                proof {
                    assert(input_moves(edges@, phis@, inputs@, from, (k + 1) as nat) is None);
                    inputs_fail(edges@, phis@, inputs@, from, (k + 1) as nat, inputs@.len());
                }
                return false;
            },
        }
        k = k + 1;
    }
    true
}

/// Gives the phis of every successor the values that flow along the edge. Every
/// target has variables of its own, so both successors of a branch are served
/// before it.
pub fn opt_define_scalar_edges(
    code: &mut Code,
    ir: &OptimizedIr,
    edges: &Vec<PhiEdge>,
    phis: &BTreeMap<usize, OptVars>,
    block: &OptimizedBlock,
    values: &BTreeMap<usize, OptPair>,
) -> (r: Result<(), CompileFailure>)
    ensures
        kept(*old(code), *final(code)),
        r is Ok && phis_named(*old(code), phis@, Ty::I64) && values_held(*old(code), values@)
            ==> steady(*old(code), *final(code)),
        final(code).len() >= old(code).len(),
        r is Err ==> r == Err::<(), CompileFailure>(CompileFailure::InvalidArtifact),
        match edge_moves(*ir, edges@, phis@, block.successors@, block.start_pc, block.successors@.len()) {
            None => r is Err,
            Some(moves) => {
                &&& r is Ok <==> moves_held(values@, moves)
                &&& r is Ok ==> forall|w: World| #[trigger]
                    final(code).at(w) == (match old(code).at(w) {
                        Status::Run(s) => Status::Run(
                            State { vars: moved(s.vars, s.vals, moves, values@, moves.len()), ..s },
                        ),
                        st => st,
                    })
            },
        },
{
    let mut moves: Vec<Bind> = Vec::new();
    let mut k: usize = 0;
    assert(moves@ =~= Seq::<Bind>::empty());
    while k < block.successors.len()
        invariant
            kept(*old(code), *code),
            phis_named(*old(code), phis@, Ty::I64) && values_held(*old(code), values@) ==> steady(*old(code), *code),
            k <= block.successors@.len(),
            code.insts@ == old(code).insts@,
            from_phis(moves@, phis@),
            edge_moves(*ir, edges@, phis@, block.successors@, block.start_pc, k as nat) == Some(moves@),
        decreases block.successors@.len() - k,
    {
        let ghost moves0 = moves@;
        let ok = match find_block(ir, block.successors[k]) {
            Some(i) => collect_moves(edges, phis, &ir.blocks[i].inputs, block.start_pc, &mut moves),
            None => {
                assert(moves@ =~= moves0 + Seq::<Bind>::empty());
                true
            },
        };
        if !ok {
            proof {
                moves_fail(
                    *ir,
                    edges@,
                    phis@,
                    block.successors@,
                    block.start_pc,
                    (k + 1) as nat,
                    block.successors@.len(),
                );
            }
            return Err(CompileFailure::InvalidArtifact);
        }
        k = k + 1;
    }
    let ghost c0 = *code;
    let mut i: usize = 0;
    while i < moves.len()
        invariant
            kept(*old(code), *code),
            phis_named(*old(code), phis@, Ty::I64) && values_held(*old(code), values@) ==> steady(*old(code), *code),
            i <= moves@.len(),
            old(code).len() <= code.len(),
            c0 == *old(code),
            from_phis(moves@, phis@),
            edge_moves(*ir, edges@, phis@, block.successors@, block.start_pc, block.successors@.len()) == Some(moves@),
            forall|j: int| 0 <= j < i ==> values@.contains_key((#[trigger] moves@[j]).value),
            forall|w: World| #[trigger]
                code.at(w) == (match c0.at(w) {
                    Status::Run(s) => Status::Run(State { vars: moved(s.vars, s.vals, moves@, values@, i as nat), ..s }),
                    st => st,
                }),
        decreases moves@.len() - i,
    {
        let pair = match values.get(&moves[i].value) {
            Some(pair) => *pair,
            None => {
                assert(!values@.contains_key(moves@[i as int].value));
                return Err(CompileFailure::InvalidArtifact);
            },
        };
        let ghost before = *code;
        proof {
            let id = choose|id: usize| #[trigger] phis@.contains_key(id) && moves@[i as int].slot == phis@[id];
            assert(moves@[i as int].slot == phis@[id]);
        }
        opt_define(code, moves[i].slot, pair);
        proof {
            assert forall|w: World| #[trigger]
                code.at(w) == (match c0.at(w) {
                    Status::Run(s) => Status::Run(
                        State { vars: moved(s.vars, s.vals, moves@, values@, (i + 1) as nat), ..s },
                    ),
                    st => st,
                }) by {
                let a = before.at(w);
            }
        }
        i = i + 1;
    }
    Ok(())
}

/// What an operation takes: its operands, and what they are taken for.
pub struct Operands {
    pub mode: OperandMode,
    pub lhs: usize,
    pub rhs: Option<usize>,
}

pub open spec fn operands_of(operation: ScalarOperation) -> Operands {
    match operation {
        ScalarOperation::Update { mode, input, .. } => Operands { mode, lhs: input, rhs: None },
        ScalarOperation::Bitwise { lhs, rhs, .. } => Operands { mode: OperandMode::Int32, lhs, rhs: Some(rhs) },
        ScalarOperation::Binary { mode, lhs, rhs, .. } => Operands { mode, lhs, rhs: Some(rhs) },
        ScalarOperation::Compare { lhs, rhs, .. } => Operands { mode: OperandMode::Number, lhs, rhs: Some(rhs) },
    }
}

pub open spec fn operand_list(operands: Operands) -> Seq<usize> {
    match operands.rhs {
        Some(rhs) => seq![operands.lhs, rhs],
        None => seq![operands.lhs],
    }
}

/// What is proven of a value.
pub open spec fn proven_mode(proven: Seq<Option<OperandMode>>, id: usize) -> Option<OperandMode> {
    if id < proven.len() {
        proven[id as int]
    } else {
        None
    }
}

pub fn proven_of(proven: &Vec<Option<OperandMode>>, id: usize) -> (r: Option<OperandMode>)
    ensures
        r == proven_mode(proven@, id),
{
    if id < proven.len() {
        proven[id]
    } else {
        None
    }
}

/// The check still has to be made: it was not eliminated, and what is proven of
/// the value does not answer it.
pub open spec fn check_needed(check: ScalarCheck, proven: Seq<Option<OperandMode>>) -> bool {
    !check.eliminated && match proven_mode(proven, check.value) {
        Some(mode) => check.mode != mode && check.mode != OperandMode::Number,
        None => true,
    }
}

pub open spec fn tag_fits(mode: OperandMode, tag: int) -> bool {
    match mode {
        OperandMode::Int32 => tag == JS_TAG_INT,
        OperandMode::Float64 => tag == JS_TAG_FLOAT64,
        OperandMode::Number => tag == JS_TAG_INT || tag == JS_TAG_FLOAT64,
    }
}

/// There is one check per operand, of that operand.
pub open spec fn checks_fit(checks: Seq<ScalarCheck>, operands: Operands, node: u32) -> bool {
    let list = operand_list(operands);
    &&& checks.len() == list.len()
    &&& forall|k: int|
        0 <= k < checks.len() ==> (#[trigger] checks[k]).frame_state_node == node && checks[k].mode == operands.mode
            && checks[k].value == list[k]
}

pub open spec fn some_check(checks: Seq<ScalarCheck>, proven: Seq<Option<OperandMode>>) -> bool {
    exists|k: int| 0 <= k < checks.len() && check_needed(#[trigger] checks[k], proven)
}

/// The first `n` checks pass.
pub open spec fn checks_pass(
    checks: Seq<ScalarCheck>,
    proven: Seq<Option<OperandMode>>,
    values: Map<usize, OptPair>,
    vals: Map<int, int>,
    n: int,
) -> bool {
    forall|k: int|
        0 <= k < n && check_needed(#[trigger] checks[k], proven) ==> tag_fits(
            checks[k].mode,
            vals[values[checks[k].value].tag as int],
        )
}

fn mode_condition(code: &mut Code, mode: OperandMode, tag: usize) -> (r: usize)
    requires
        tag < old(code).len(),
    ensures
        kept(*old(code), *final(code)),
        old(code).holds(tag, Ty::I64) ==> steady(*old(code), *final(code)),
        final(code).kind(r as int) == Known::Value(Ty::I8),
        r < final(code).len(),
        old(code).len() <= final(code).len(),
        forall|w: World|
            #![trigger final(code).at(w)]
            match old(code).at(w) {
                Status::Run(s) => runs_on(final(code).at(w), s, old(code).len(), s.vars, s.trace) && value(
                    final(code).at(w),
                    r,
                ) == truth(tag_fits(mode, s.vals[tag as int])),
                st => final(code).at(w) == st,
            },
{
    broadcast use group_truths;

    match mode {
        OperandMode::Int32 => opt_tag_is(code, tag, JS_TAG_INT),
        OperandMode::Float64 => opt_tag_is(code, tag, JS_TAG_FLOAT64),
        OperandMode::Number => {
            let integer = opt_tag_is(code, tag, JS_TAG_INT);
            let double = opt_tag_is(code, tag, JS_TAG_FLOAT64);
            code.binary(BinaryOp::Or, Ty::I8, integer, double)
        },
    }
}

pub fn emit_checks(
    code: &mut Code,
    checks: &Vec<ScalarCheck>,
    proven: &Vec<Option<OperandMode>>,
    values: &BTreeMap<usize, OptPair>,
    failed: usize,
)
    requires
        failed < old(code).len(),
        pairs_known(values@, old(code).len()),
        forall|k: int| 0 <= k < checks@.len() ==> values@.contains_key((#[trigger] checks@[k]).value),
    ensures
        kept(*old(code), *final(code)),
        values_held(*old(code), values@) && old(code).blocked(failed) ==> steady(*old(code), *final(code)),
        final(code).len() >= old(code).len(),
        forall|w: World|
            #![trigger final(code).at(w)]
            match old(code).at(w) {
                Status::Run(s) => steers(
                    final(code).at(w),
                    s,
                    old(code).len(),
                    failed,
                    checks_pass(checks@, proven@, values@, s.vals, checks@.len() as int),
                    s.vars,
                    s.trace,
                ),
                st => final(code).at(w) == st,
            },
{
    let mut k: usize = 0;
    while k < checks.len()
        invariant
            kept(*old(code), *code),
            values_held(*old(code), values@) && old(code).blocked(failed) ==> steady(*old(code), *code),
            k <= checks@.len(),
            failed < old(code).len() <= code.len(),
            pairs_known(values@, old(code).len()),
            forall|k: int| 0 <= k < checks@.len() ==> values@.contains_key((#[trigger] checks@[k]).value),
            forall|w: World|
                #![trigger code.at(w)]
                match old(code).at(w) {
                    Status::Run(s) => steers(
                        code.at(w),
                        s,
                        old(code).len(),
                        failed,
                        checks_pass(checks@, proven@, values@, s.vals, k as int),
                        s.vars,
                        s.trace,
                    ),
                    st => code.at(w) == st,
                },
        decreases checks@.len() - k,
    {
        let ghost before = *code;
        let check = checks[k];
        let needed = !check.eliminated && match proven_of(proven, check.value) {
            Some(mode) => check.mode != mode && check.mode != OperandMode::Number,
            None => true,
        };
        assert(needed == check_needed(checks@[k as int], proven@));
        assert(values@.contains_key(checks@[k as int].value));
        if needed {
            if let Some(pair) = values.get(&check.value) {
                let pair = *pair;
                let condition = mode_condition(code, check.mode, pair.tag);
                let ghost ready = *code;
                require(code, condition, failed);
                proof {
                    assert forall|w: World|
                        #![trigger code.at(w)]
                        match old(code).at(w) {
                            Status::Run(s) => steers(
                                code.at(w),
                                s,
                                old(code).len(),
                                failed,
                                checks_pass(checks@, proven@, values@, s.vals, k + 1),
                                s.vars,
                                s.trace,
                            ),
                            st => code.at(w) == st,
                        } by {
                        let a = before.at(w);
                        let b = ready.at(w);
                        if let Status::Run(s) = old(code).at(w) {
                            let now = checks_pass(checks@, proven@, values@, s.vals, k + 1);
                            let then = checks_pass(checks@, proven@, values@, s.vals, k as int);
                            let last = tag_fits(check.mode, s.vals[values@[check.value].tag as int]);
                            assert(now == (then && last)) by {
                                if now {
                                    assert(check_needed(checks@[k as int], proven@));
                                }
                            }
                        }
                    }
                }
            }
        } else {
            proof {
                assert forall|w: World|
                    #![trigger code.at(w)]
                    match old(code).at(w) {
                        Status::Run(s) => steers(
                            code.at(w),
                            s,
                            old(code).len(),
                            failed,
                            checks_pass(checks@, proven@, values@, s.vals, k + 1),
                            s.vars,
                            s.trace,
                        ),
                        st => code.at(w) == st,
                    } by {
                    let a = before.at(w);
                    if let Status::Run(s) = old(code).at(w) {
                        assert(checks_pass(checks@, proven@, values@, s.vals, k + 1) == checks_pass(
                            checks@,
                            proven@,
                            values@,
                            s.vals,
                            k as int,
                        ));
                    }
                }
            }
        }
        k = k + 1;
    }
}

} // verus!
