//! Lowering of a block: the values that enter it, its nodes in order, and the
//! edge out of it.
use crate::code::value;
use crate::code::kept;
use crate::code::Code;
use crate::code::State;
use crate::code::Status;
use crate::code::Ty;
use crate::code::World;
use crate::control::CompileFailure;
use crate::element_access::emit_opt_array_loop_hoists;
use crate::element_access::hoist_mode;
use crate::element_access::hoist_on;
use crate::element_access::hoist_post;
use crate::element_access::hoist_ready;
use crate::element_access::header_guard;
use crate::element_code::storage_known;
use crate::elements::GuardedElementSource;
use crate::entry_guards::following_pc;
use crate::entry_guards::next_block_pc;
use crate::frame::runs_on;
use crate::frame::OptEnv;
use crate::ir::FrameSlot;
use crate::ir::OptimizedBlock;
use crate::lower_node::edges_defined;
use crate::lower_node::edges_ready;
use crate::lower_node::node_refusal;
use crate::lower_node::unstaged;
use crate::lower_node::node_lowered;
use crate::lower_node::node_ready;
use crate::lower_node::terminates;
use crate::lower_values::opt_define;
use crate::lower_values::opt_use;
use crate::lower_values::vars_after;
use crate::lower_values::OptPair;
use crate::lower_values::OptVars;
use crate::lowering::LowerState;
use crate::lowering::Lowered;
use crate::machine::Machine;
use crate::provenance::OptProvenance;
use crate::qjs::JS_TAG_INT;
use crate::runtime::first_at;
use crate::scalar::binds_fit;
use crate::scalar::binds_hold;
use crate::scalar::binds_of;
use crate::scalar::opt_bind_scalar_node;
use crate::scalar::opt_define_scalar_edges;
use crate::scalar::pairs_known;
use crate::scalar::proven_mode;
use crate::scalar::proven_of;
use crate::scalar::rebound;
use crate::scalar::OperandMode;
use crate::stages::Refusal;
use std::collections::BTreeMap;
use crate::element_access::hoist_placed;
use crate::exits::placed_failure;
use crate::typing::steady;
use crate::typing::closing;
use crate::typing::calm;
use crate::assemble::Known;
use crate::frame_typing::pair_held;
use crate::frame_typing::slot_named;
use crate::frame_typing::slots_named;
use crate::frame_typing::cached_named;
use crate::frame_typing::cache_named;
use crate::frame_typing::state_held;
use crate::frame_typing::source_held;
use crate::frame_typing::sources_held;
use crate::frame_typing::values_held;
use crate::frame_typing::reusable_held;
use crate::typing::begun;
use crate::typing::rewritten;
use crate::typing::live;
use crate::typing::shut;
use crate::clif::Passed;
use vstd::prelude::*;

verus! {

broadcast use {
    crate::typing::group_typing,
    crate::frame_typing::group_frame,
    vstd::std_specs::btree::group_btree_axioms,
    crate::exits::own_failures,
};

/// The variables of a slot that a value enters a block in.
pub open spec fn input_slot(env: OptEnv<'_>, slot: FrameSlot) -> Option<OptVars> {
    match slot {
        FrameSlot::Argument(index) => if index < env.arguments@.len() {
            Some(env.arguments@[index as int])
        } else {
            None
        },
        FrameSlot::Local(index) => if index < env.locals@.len() {
            Some(env.locals@[index as int])
        } else {
            None
        },
        FrameSlot::Stack(index) => if index < env.stack@.len() {
            Some(env.stack@[index as int])
        } else {
            None
        },
    }
}

fn find_slot(env: &OptEnv<'_>, slot: FrameSlot) -> (r: Option<OptVars>)
    ensures
        r == input_slot(*env, slot),
{
    match slot {
        FrameSlot::Argument(index) => if (index as usize) < env.arguments.len() {
            Some(env.arguments[index as usize])
        } else {
            None
        },
        FrameSlot::Local(index) => if (index as usize) < env.locals.len() {
            Some(env.locals[index as usize])
        } else {
            None
        },
        FrameSlot::Stack(index) => if (index as usize) < env.stack.len() {
            Some(env.stack[index as usize])
        } else {
            None
        },
    }
}

/// The tag with which a value enters: one that is proven to be an Int32 has no
/// other.
pub open spec fn entering_tag(mx: Machine<'_>, vars: Map<int, int>, id: usize) -> int {
    if proven_mode(mx.proven@, id) == Some(OperandMode::Int32) {
        JS_TAG_INT as int
    } else {
        vars[mx.phis@[id].tag as int]
    }
}

/// The variables after the first `k` values entered.
pub open spec fn entered_vars(mx: Machine<'_>, vars: Map<int, int>, inputs: Seq<(FrameSlot, usize)>, k: nat) -> Map<int, int>
    decreases k,
{
    if k == 0 {
        vars
    } else {
        let before = entered_vars(mx, vars, inputs, (k - 1) as nat);
        let id = inputs[k - 1].1;
        vars_after(
            before,
            input_slot(*mx.env, inputs[k - 1].0)->Some_0,
            before[mx.phis@[id].payload as int],
            entering_tag(mx, before, id),
        )
    }
}

/// The last of the first `k` inputs that is the value.
pub open spec fn input_index(inputs: Seq<(FrameSlot, usize)>, id: usize, k: nat) -> Option<nat>
    decreases k,
{
    if k == 0 {
        None
    } else if inputs[k - 1].1 == id {
        Some((k - 1) as nat)
    } else {
        input_index(inputs, id, (k - 1) as nat)
    }
}

pub open spec fn input_fits(mx: Machine<'_>, input: (FrameSlot, usize)) -> bool {
    input_slot(*mx.env, input.0) is Some && mx.phis@.contains_key(input.1)
}

pub open spec fn inputs_fit(mx: Machine<'_>, inputs: Seq<(FrameSlot, usize)>, k: int) -> bool {
    forall|j: int| 0 <= j < k ==> input_fits(mx, #[trigger] inputs[j])
}

/// The pairs hold the values that entered.
pub open spec fn inputs_held(
    mx: Machine<'_>,
    vars: Map<int, int>,
    inputs: Seq<(FrameSlot, usize)>,
    k: nat,
    values: Map<usize, OptPair>,
    st: Status,
) -> bool {
    forall|id: usize|
        #![trigger input_index(inputs, id, k)]
        input_index(inputs, id, k) matches Some(j) ==> value(st, values[id].payload) == entered_vars(mx, vars, inputs, j)[mx.phis@[id].payload as int]
            && value(st, values[id].tag) == entering_tag(mx, entered_vars(mx, vars, inputs, j), id)
}

pub open spec fn inputs_taken(
    mx: Machine<'_>,
    inputs: Seq<(FrameSlot, usize)>,
    k: nat,
    values: Map<usize, OptPair>,
    a: Code,
    b: Code,
) -> bool {
    &&& a.len() <= b.len()
    &&& forall|id: usize| #[trigger] values.contains_key(id) <==> input_index(inputs, id, k) is Some
    &&& forall|w: World|
        #![trigger b.at(w)]
        match a.at(w) {
            Status::Run(s) => runs_on(b.at(w), s, a.len(), entered_vars(mx, s.vars, inputs, k), s.trace) && inputs_held(
                mx,
                s.vars,
                inputs,
                k,
                values,
                b.at(w),
            ),
            st => b.at(w) == st,
        }
}

impl<'a> Machine<'a> {
    /// Takes the values that enter a block into the frame's variables.
    #[verifier::rlimit(60)]
    fn take_inputs(&self, code: &mut Code, inputs: &Vec<(FrameSlot, usize)>) -> (r: Result<
        BTreeMap<usize, OptPair>,
        CompileFailure,
    >)
        ensures
            kept(*old(code), *final(code)),
            r is Ok && self.typed(*old(code)) ==> steady(*old(code), *final(code)),
            r is Ok && self.typed(*old(code)) ==> values_held(*final(code), r->Ok_0@),
            old(code).len() <= final(code).len(),
            r is Ok <==> inputs_fit(*self, inputs@, inputs@.len() as int),
            r is Err ==> r == Err::<BTreeMap<usize, OptPair>, CompileFailure>(CompileFailure::InvalidArtifact),
            r matches Ok(values) ==> pairs_known(values@, final(code).len()) && inputs_taken(
                *self,
                inputs@,
                inputs@.len(),
                values@,
                *old(code),
                *final(code),
            ),
    {
        proof {
            reveal(values_held);
        }
        let ghost c0 = *code;
        let mut values: BTreeMap<usize, OptPair> = BTreeMap::new();
        let mut k: usize = 0;
        while k < inputs.len()
            invariant
                kept(*old(code), *code),
                self.typed(*old(code)) ==> steady(*old(code), *code),
                self.typed(*old(code)) ==> self.typed(*code) && values_held(*code, values@),
                k <= inputs@.len(),
                c0 == *old(code),
                c0.len() <= code.len(),
                pairs_known(values@, code.len()),
                inputs_fit(*self, inputs@, k as int),
                inputs_taken(*self, inputs@, k as nat, values@, c0, *code),
            decreases inputs@.len() - k,
        {
            let ghost c1 = *code;
            let ghost held = values@;
            let (slot, id) = inputs[k];
            let variables = match find_slot(self.env, slot) {
                Some(variables) => variables,
                None => {
                    assert(!input_fits(*self, inputs@[k as int]));
                    return Err(CompileFailure::InvalidArtifact);
                },
            };
            let phi = match self.phis.get(&id) {
                Some(phi) => *phi,
                None => {
                    assert(!input_fits(*self, inputs@[k as int]));
                    return Err(CompileFailure::InvalidArtifact);
                },
            };
            let entered = opt_use(code, phi, self.env.payload_type);
            let ghost c2 = *code;
            let integer = match proven_of(self.proven, id) {
                Some(mode) => mode == OperandMode::Int32,
                None => false,
            };
            let tag: usize = if integer {
                code.iconst(Ty::I64, JS_TAG_INT as i64)
            } else {
                entered.tag
            };
            let ghost c3 = *code;
            let pair = OptPair { payload: entered.payload, tag };
            opt_define(code, variables, pair);
            values.insert(id, pair);
            proof {
                let next = (k + 1) as nat;
                assert forall|x: usize| #[trigger] values@.contains_key(x) <==> input_index(inputs@, x, next) is Some by {
                    assert(held.contains_key(x) <==> input_index(inputs@, x, k as nat) is Some);
                }
                assert forall|w: World|
                    #![trigger code.at(w)]
                    match c0.at(w) {
                        Status::Run(s) => runs_on(code.at(w), s, c0.len(), entered_vars(*self, s.vars, inputs@, next), s.trace)
                            && inputs_held(*self, s.vars, inputs@, next, values@, code.at(w)),
                        st => code.at(w) == st,
                    } by {
                    let a = c1.at(w);
                    let b = c2.at(w);
                    let c = c3.at(w);
                    if let Status::Run(s) = c0.at(w) {
                        let before = entered_vars(*self, s.vars, inputs@, k as nat);
                        assert forall|x: usize|
                            #![trigger input_index(inputs@, x, next)]
                            input_index(inputs@, x, next) matches Some(j) ==> value(code.at(w), values@[x].payload)
                                == entered_vars(*self, s.vars, inputs@, j)[self.phis@[x].payload as int] && value(
                                code.at(w),
                                values@[x].tag,
                            ) == entering_tag(*self, entered_vars(*self, s.vars, inputs@, j), x) by {
                            if x != id {
                                assert(input_index(inputs@, x, next) == input_index(inputs@, x, k as nat));
                                if input_index(inputs@, x, k as nat) is Some {
                                    assert(held.contains_key(x));
                                }
                            }
                        }
                    }
                }
            }
            k = k + 1;
        }
        Ok(values)
    }
}

/// The code and what is known between two nodes.
pub struct Stage {
    pub code: Code,
    pub model: Lowered,
}

/// What node `id` defined is at hand.
pub open spec fn node_bound(mx: Machine<'_>, id: u32, a: Stage, b: Stage) -> bool {
    let binds = binds_of(*mx.env, mx.ir.nodes@[id as int].outputs@, mx.definitions@[id as int]@, a.model.depth);
    &&& a.code.len() <= b.code.len()
    &&& b.model == Lowered { values: b.model.values, ..a.model }
    &&& rebound(a.model.values, b.model.values, binds, binds.len())
    &&& forall|w: World|
        #![trigger b.code.at(w)]
        match a.code.at(w) {
            Status::Run(s) => runs_on(b.code.at(w), s, a.code.len(), s.vars, s.trace) && binds_hold(
                b.model.values,
                binds,
                binds.len(),
                b.code.at(w),
                s,
            ),
            st => b.code.at(w) == st,
        }
}

pub open spec fn node_bindable(mx: Machine<'_>, id: u32, m: Lowered) -> bool {
    binds_fit(*mx.env, mx.ir.nodes@[id as int].outputs@, mx.definitions@[id as int]@, m.depth)
}

/// What the node before node `k` defined is at hand.
pub open spec fn before_node(mx: Machine<'_>, block: OptimizedBlock, k: int, a: Stage, ready: Stage) -> bool {
    if k > 0 {
        node_bound(mx, block.nodes@[k - 1], a, ready)
    } else {
        ready == a
    }
}

/// Node `k` of the block: what the node before it defined is at hand, and then
/// the node is lowered.
pub open spec fn step_lowered(
    mx: Machine<'_>,
    block: OptimizedBlock,
    source: Option<GuardedElementSource>,
    k: int,
    a: Stage,
    ready: Stage,
    b: Stage,
) -> bool {
    let id = block.nodes@[k];
    &&& id < mx.ir.nodes@.len()
    &&& before_node(mx, block, k, a, ready)
    &&& node_lowered(mx, mx.ir.nodes@[id as int], block, source, ready.code, ready.model, b.code, b.model)
}

/// The first `n` nodes of the block, in order; only the last may end it.
pub open spec fn nodes_lowered(
    mx: Machine<'_>,
    block: OptimizedBlock,
    source: Option<GuardedElementSource>,
    n: int,
    stages: Seq<Stage>,
    ready: Seq<Stage>,
) -> bool {
    &&& 0 <= n <= block.nodes@.len()
    &&& stages.len() == n + 1
    &&& ready.len() == n
    &&& forall|k: int|
        0 <= k < n ==> #[trigger] step_lowered(mx, block, source, k, stages[k], ready[k], stages[k + 1])
    &&& forall|k: int| 0 <= k < n - 1 ==> !terminates(mx.ir.nodes@[#[trigger] block.nodes@[k] as int])
}

/// The `n`-th node cannot be lowered from here, and why.
pub open spec fn step_refused(
    mx: Machine<'_>,
    block: OptimizedBlock,
    source: Option<GuardedElementSource>,
    n: int,
    at: Stage,
    refusal: Refusal,
) -> bool {
    let id = block.nodes@[n];
    ||| refusal == unstaged(CompileFailure::InvalidArtifact) && n > 0 && !node_bindable(mx, block.nodes@[n - 1], at.model)
    ||| refusal == unstaged(CompileFailure::InvalidArtifact) && id >= mx.ir.nodes@.len()
    ||| exists|ready: Stage| #[trigger]
        before_node(mx, block, n, at, ready) && id < mx.ir.nodes@.len() && !node_ready(
            mx,
            mx.ir.nodes@[id as int],
            block,
            source,
            ready.model,
        ) && refusal == node_refusal(mx, mx.ir.nodes@[id as int], block, source, ready.model)
}

impl<'a> Machine<'a> {
    /// Reads what a node defined.
    fn bind_node(&self, code: &mut Code, ls: &mut LowerState, id: u32) -> (r: Result<(), CompileFailure>)
        requires
            self.wf(old(code).len()),
            old(ls)@.wf(*self.env, old(code).len()),
            id < self.ir.nodes@.len(),
        ensures
            kept(*old(code), *final(code)),
            r is Ok && self.typed(*old(code)) && state_held(*old(code), *old(ls)) ==> steady(*old(code), *final(code)),
            r is Ok && self.typed(*old(code)) && state_held(*old(code), *old(ls))
                ==> state_held(*final(code), *final(ls)),
            old(code).len() <= final(code).len(),
            r is Ok <==> node_bindable(*self, id, old(ls)@),
            r is Err ==> r == Err::<(), CompileFailure>(CompileFailure::InvalidArtifact),
            r is Ok ==> final(ls)@.wf(*self.env, final(code).len()) && node_bound(
                *self,
                id,
                (Stage { code: *old(code), model: old(ls)@ }),
                (Stage { code: *final(code), model: final(ls)@ }),
            ),
    {
        opt_bind_scalar_node(
            code,
            self.env,
            &self.ir.nodes[id as usize].outputs,
            &self.definitions[id as usize],
            ls.depth,
            &mut ls.values,
        )
    }

    /// Lowers one node of a block.
    fn lower_step(
        &self,
        code: &mut Code,
        ls: &mut LowerState,
        block: &OptimizedBlock,
        k: usize,
        source: Option<GuardedElementSource>,
    ) -> (r: Result<(bool, Ghost<Stage>), Refusal>)
        requires
            self.wf(old(code).len()),
            old(ls)@.wf(*self.env, old(code).len()),
            k < block.nodes@.len(),
            k > 0 ==> block.nodes@[k - 1] < self.ir.nodes@.len(),
            source matches Some(found) ==> storage_known(found.storage, old(code).len()),
        ensures
            kept(*old(code), *final(code)),
            r is Ok && self.typed(*old(code)) && state_held(*old(code), *old(ls))
                && source_held(*old(code), source) && !r->Ok_0.0
                ==> steady(*old(code), *final(code)) && state_held(*final(code), *final(ls)),
            r is Ok && self.typed(*old(code)) && state_held(*old(code), *old(ls))
                && source_held(*old(code), source) && r->Ok_0.0
                ==> closing(*old(code), *final(code)) && source_held(*final(code), final(ls).source),
            r matches Err(e) ==> step_refused(
                *self,
                *block,
                source,
                k as int,
                (Stage { code: *old(code), model: old(ls)@ }),
                e,
            ),
            r matches Ok((ends, ready)) ==> {
                &&& old(code).len() <= final(code).len()
                &&& final(ls)@.wf(*self.env, final(code).len())
                &&& step_lowered(
                    *self,
                    *block,
                    source,
                    k as int,
                    (Stage { code: *old(code), model: old(ls)@ }),
                    ready@,
                    (Stage { code: *final(code), model: final(ls)@ }),
                )
                &&& ends == terminates(self.ir.nodes@[block.nodes@[k as int] as int])
            },
    {
        let ghost first = Stage { code: *code, model: ls@ };
        if k > 0 {
            if let Err(e) = self.bind_node(code, ls, block.nodes[k - 1]) {
                return Err(Refusal { failure: e, stage: None });
            }
        }
        let ghost ready = Stage { code: *code, model: ls@ };
        assert(before_node(*self, *block, k as int, first, ready));
        let id = block.nodes[k];
        if id as usize >= self.ir.nodes.len() {
            return Err(Refusal { failure: CompileFailure::InvalidArtifact, stage: None });
        }
        let node = &self.ir.nodes[id as usize];
        assert(node.id == id) by {
            assert(self.ir.nodes@[id as int].id == id);
        }
        match self.lower_node(code, ls, node, block, source) {
            Ok(ends) => Ok((ends, Ghost(ready))),
            Err(e) => Err(e),
        }
    }
}

/// Control has come to the block, and what enters it is in place.
pub open spec fn block_entered(mx: Machine<'_>, block: OptimizedBlock, mid: Code, a: Code, b: Stage) -> bool {
    let native = mx.blocks@[block.start_pc];
    &&& mid.len() == a.len() + 1
    &&& forall|w: World| #[trigger]
        mid.at(w) == (if w.resume is Some && w.resume->Some_0.block == native {
            Status::Run(State { incoming: Seq::empty(), ..w.resume->Some_0.state })
        } else {
            match a.at(w) {
                Status::Run(_) => Status::Stuck,
                Status::Wait { block: waiting, args, state } => if native == waiting {
                    Status::Run(State { incoming: args, ..state })
                } else {
                    a.at(w)
                },
                st => st,
            }
        })
    &&& inputs_taken(mx, block.inputs@, block.inputs@.len(), b.model.values, mid, b.code)
}

/// What the operand stack aliases where the block begins.
pub open spec fn entry_model(
    mx: Machine<'_>,
    block: OptimizedBlock,
    provenance: Seq<OptProvenance>,
    source: Option<GuardedElementSource>,
    values: Map<usize, OptPair>,
) -> Lowered {
    Lowered {
        depth: block.stack_depth as int,
        provenance: Seq::new(
            mx.env.stack@.len(),
            |k: int|
                if k < block.stack_depth {
                    provenance[k]
                } else {
                    OptProvenance::Unknown
                },
        ),
        source,
        reusable: Map::empty(),
        values,
    }
}

pub open spec fn entry_ready(mx: Machine<'_>, block: OptimizedBlock, provenance: Seq<OptProvenance>) -> bool {
    &&& mx.blocks@.contains_key(block.start_pc)
    &&& block.stack_depth <= mx.env.stack@.len()
    &&& block.stack_depth <= provenance.len()
    &&& inputs_fit(mx, block.inputs@, block.inputs@.len() as int)
}

/// The hoist on the edge to the block that follows.
pub open spec fn edge_hoist(mx: Machine<'_>, block: OptimizedBlock) -> Option<int> {
    let next = following_pc(*mx.ir, block.start_pc)->Some_0;
    first_at(|i: int| hoist_on(mx.arrays.hoists@[i], block.start_pc, next), mx.arrays.hoists@.len())
}

/// Array storage is checked on the edge into a loop, and stays at hand there.
pub open spec fn hoisted_storage(
    mx: Machine<'_>,
    block: OptimizedBlock,
    m: Lowered,
    before: Map<u32, GuardedElementSource>,
    after: Map<u32, GuardedElementSource>,
    a: Code,
    b: Code,
) -> bool {
    let next = following_pc(*mx.ir, block.start_pc)->Some_0;
    &&& a.len() <= b.len()
    &&& match edge_hoist(mx, block) {
        None => b.insts@ == a.insts@ && after == before,
        Some(i) => {
            let source = after[next];
            let candidate = mx.arrays.candidates@[mx.arrays.hoists@[i].candidate as int];
            &&& after == before.insert(next, source)
            &&& source == (GuardedElementSource {
                provenance: OptProvenance::Argument(candidate.argument as usize),
                block_pc: next,
                storage: source.storage,
                exact_length: true,
                typed_mode: hoist_mode(candidate.mode),
            })
            &&& forall|w: World|
                #![trigger b.at(w)]
                hoist_post(
                    *mx.env,
                    a.at(w),
                    b.at(w),
                    a.len(),
                    candidate,
                    source.storage,
                    m.provenance,
                    m.depth,
                    next,
                    header_guard(*mx.ir, next)->Some_0,
                    w,
                )
        },
    }
}

/// Control falls through to the block that follows.
pub open spec fn fell_through(
    mx: Machine<'_>,
    block: OptimizedBlock,
    before: Map<u32, GuardedElementSource>,
    after: Map<u32, GuardedElementSource>,
    a: Stage,
    b: Code,
) -> bool {
    &&& crate::lower_node::next_block(mx, block.start_pc) is Some
    &&& exists|bound: Stage, c1: Code, c2: Code|
        {
            &&& #[trigger] before_node(mx, block, block.nodes@.len() as int, a, bound)
            &&& #[trigger] edges_defined(mx, block, bound.model, bound.code, c1)
            &&& #[trigger] hoisted_storage(mx, block, bound.model, before, after, c1, c2)
            &&& crate::lower_flow::jumped(
                crate::lower_node::next_block(mx, block.start_pc)->Some_0,
                c2,
                bound.model,
                b,
                bound.model,
            )
        }
}

/// Control cannot be made to fall through, and why.
pub open spec fn fall_refused(
    mx: Machine<'_>,
    block: OptimizedBlock,
    before: Map<u32, GuardedElementSource>,
    a: Stage,
    refusal: Refusal,
) -> bool {
    let n = block.nodes@.len() as int;
    ||| refusal == unstaged(CompileFailure::InvalidArtifact) && n > 0 && !node_bindable(mx, block.nodes@[n - 1], a.model)
    ||| refusal == unstaged(CompileFailure::InvalidArtifact) && crate::lower_node::next_block(mx, block.start_pc) is None
    ||| exists|bound: Stage| #[trigger]
        before_node(mx, block, n, a, bound) && (refusal == unstaged(CompileFailure::InvalidArtifact) && !edges_ready(
            mx,
            block,
            bound.model,
        ) || {
            let next = following_pc(*mx.ir, block.start_pc)->Some_0;
            edge_hoist(mx, block) matches Some(i) && !(hoist_ready(
                *mx.env,
                *mx.arrays,
                *mx.ir,
                mx.arrays.hoists@[i],
                bound.model.provenance,
                bound.model.depth,
            ) && !before.contains_key(next) && forall|j: int|
                i < j < mx.arrays.hoists@.len() ==> !hoist_on(#[trigger] mx.arrays.hoists@[j], block.start_pc, next))
                && refusal == unstaged(
                placed_failure(
                    hoist_placed(*mx.env, *mx.arrays, *mx.ir, mx.arrays.hoists@[i]),
                    *mx.env,
                    bound.model.provenance,
                    bound.model.depth,
                ),
            )
        })
}

pub open spec fn sources_known(sources: Map<u32, GuardedElementSource>, n: int) -> bool {
    forall|pc: u32| #[trigger] sources.contains_key(pc) ==> storage_known(sources[pc].storage, n)
}

impl<'a> Machine<'a> {
    /// Lets control fall through to the block that follows.
    #[verifier::rlimit(60)]
    fn fall_through(
        &self,
        code: &mut Code,
        ls: &mut LowerState,
        block: &OptimizedBlock,
        sources: &mut BTreeMap<u32, GuardedElementSource>,
    ) -> (r: Result<(), CompileFailure>)
        requires
            self.wf(old(code).len()),
            old(ls)@.wf(*self.env, old(code).len()),
            sources_known(old(sources)@, old(code).len()),
            block.nodes@.len() > 0 ==> block.nodes@[block.nodes@.len() - 1] < self.ir.nodes@.len(),
            self.env.int32_loop ==> self.arrays.hoists@.len() == 0,
        ensures
            kept(*old(code), *final(code)),
            r is Ok && self.typed(*old(code)) && state_held(*old(code), *old(ls)) ==> closing(*old(code), *final(code)),
            r is Ok && self.typed(*old(code)) && state_held(*old(code), *old(ls))
                && sources_held(*old(code), old(sources)@)
                ==> sources_held(*final(code), final(sources)@),
            r matches Err(e) ==> fall_refused(
                *self,
                *block,
                old(sources)@,
                (Stage { code: *old(code), model: old(ls)@ }),
                unstaged(e),
            ),
            r is Ok ==> {
                &&& old(code).len() <= final(code).len()
                &&& sources_known(final(sources)@, final(code).len())
                &&& final(ls)@.wf(*self.env, final(code).len())
                &&& fell_through(
                    *self,
                    *block,
                    old(sources)@,
                    final(sources)@,
                    (Stage { code: *old(code), model: old(ls)@ }),
                    *final(code),
                )
            },
    {
        let ghost first = Stage { code: *code, model: ls@ };
        let count: usize = block.nodes.len();
        if count > 0 {
            if let Err(e) = self.bind_node(code, ls, block.nodes[count - 1]) {
                return Err(e);
            }
        }
        let ghost bound = Stage { code: *code, model: ls@ };
        assert(before_node(*self, *block, count as int, first, bound));
        if let Err(e) = opt_define_scalar_edges(code, self.ir, self.edges, self.phis, block, &ls.values) {
            return Err(e);
        }
        let ghost c1 = *code;
        assert(edges_defined(*self, *block, bound.model, bound.code, c1));
        let next = match next_block_pc(self.ir, block.start_pc) {
            Ok(next) => next,
            Err(e) => {
                return Err(e);
            },
        };
        let native = match self.blocks.get(&next) {
            Some(native) => *native,
            None => {
                return Err(CompileFailure::InvalidArtifact);
            },
        };
        if let Err(e) = emit_opt_array_loop_hoists(
            code,
            self.env,
            &ls.provenance,
            ls.depth,
            self.arrays,
            block.start_pc,
            next,
            sources,
            self.ir,
        ) {
            return Err(e);
        }
        let ghost c2 = *code;
        assert(hoisted_storage(*self, *block, bound.model, old(sources)@, sources@, c1, c2));
        code.jump(native);
        Ok(())
    }
}

/// How a block was lowered: the code behind its start, and the stages between
/// its nodes, before and after what the node before defined was read.
pub struct BlockTrace {
    pub start: Code,
    pub stages: Seq<Stage>,
    pub ready: Seq<Stage>,
}

/// The storage that was checked on the way into the block.
pub open spec fn loop_source(sources: Map<u32, GuardedElementSource>, block: OptimizedBlock) -> Option<GuardedElementSource> {
    if sources.contains_key(block.start_pc) {
        Some(sources[block.start_pc])
    } else {
        None
    }
}

/// The block was entered, and its first nodes lowered.
pub open spec fn block_begun(
    mx: Machine<'_>,
    block: OptimizedBlock,
    provenance: Seq<OptProvenance>,
    carried: Option<GuardedElementSource>,
    sources: Map<u32, GuardedElementSource>,
    a: Code,
    t: BlockTrace,
) -> bool {
    &&& t.stages.len() > 0
    &&& entry_ready(mx, block, provenance)
    &&& block_entered(mx, block, t.start, a, t.stages[0])
    &&& t.stages[0].model == entry_model(mx, block, provenance, carried, t.stages[0].model.values)
    &&& nodes_lowered(mx, block, loop_source(sources, block), t.stages.len() - 1, t.stages, t.ready)
}

/// The last node that was lowered ends the block.
pub open spec fn block_ended(mx: Machine<'_>, block: OptimizedBlock, t: BlockTrace) -> bool {
    let n = t.stages.len() - 1;
    n > 0 && terminates(mx.ir.nodes@[block.nodes@[n - 1] as int])
}

pub open spec fn block_lowered(
    mx: Machine<'_>,
    block: OptimizedBlock,
    provenance: Seq<OptProvenance>,
    carried: Option<GuardedElementSource>,
    before: Map<u32, GuardedElementSource>,
    after: Map<u32, GuardedElementSource>,
    a: Code,
    b: Code,
    t: BlockTrace,
) -> bool {
    let n = t.stages.len() - 1;
    &&& block_begun(mx, block, provenance, carried, before, a, t)
    &&& if block_ended(mx, block, t) {
        b == t.stages[n].code && after == before
    } else {
        n == block.nodes@.len() && fell_through(mx, block, before, after, t.stages[n], b)
    }
}

/// The block cannot be lowered, and why: not entered, one of its nodes not
/// lowered, or not left.
pub open spec fn block_refused(
    mx: Machine<'_>,
    block: OptimizedBlock,
    provenance: Seq<OptProvenance>,
    carried: Option<GuardedElementSource>,
    sources: Map<u32, GuardedElementSource>,
    a: Code,
    refusal: Refusal,
) -> bool {
    ||| refusal == unstaged(CompileFailure::InvalidArtifact) && !entry_ready(mx, block, provenance)
    ||| exists|t: BlockTrace| #[trigger]
        block_begun(mx, block, provenance, carried, sources, a, t) && !block_ended(mx, block, t) && {
            let n = t.stages.len() - 1;
            if n < block.nodes@.len() {
                step_refused(mx, block, loop_source(sources, block), n, t.stages[n], refusal)
            } else {
                fall_refused(mx, block, sources, t.stages[n], refusal)
            }
        }
}

impl<'a> Machine<'a> {
    /// Enters a block: what enters it is taken, and nothing else is at hand.
    #[verifier::rlimit(40)]
    fn enter_block(
        &self,
        code: &mut Code,
        block: &OptimizedBlock,
        provenance: &Vec<OptProvenance>,
        carried: Option<GuardedElementSource>,
    ) -> (r: Result<(LowerState, Ghost<Code>), CompileFailure>)
        requires
            self.wf(old(code).len()),
            carried matches Some(found) ==> storage_known(found.storage, old(code).len()),
        ensures
            kept(*old(code), *final(code)),
            r is Ok && self.typed(*old(code)) && source_held(*old(code), carried)
                && old(code).unstarted(self.blocks@[block.start_pc] as int)
                ==> begun(*old(code), *final(code), self.blocks@[block.start_pc])
                    && state_held(*final(code), r->Ok_0.0),
            old(code).len() <= final(code).len(),
            r is Ok <==> entry_ready(*self, *block, provenance@),
            r is Err ==> r->Err_0 == CompileFailure::InvalidArtifact,
            r matches Ok((ls, mid)) ==> {
                &&& ls@.wf(*self.env, final(code).len())
                &&& ls@ == entry_model(*self, *block, provenance@, carried, ls@.values)
                &&& block_entered(*self, *block, mid@, *old(code), (Stage { code: *final(code), model: ls@ }))
            },
    {
        proof {
            reveal(reusable_held);
        }
        let native = match self.blocks.get(&block.start_pc) {
            Some(native) => *native,
            None => {
                return Err(CompileFailure::InvalidArtifact);
            },
        };
        let depth = block.stack_depth as usize;
        let slots: usize = self.env.stack.len();
        if depth > slots || depth > provenance.len() {
            return Err(CompileFailure::InvalidArtifact);
        }
        let mut aliases: Vec<OptProvenance> = Vec::new();
        let mut k: usize = 0;
        while k < slots
            invariant
                kept(*old(code), *code),
                k <= slots,
                slots == self.env.stack@.len(),
                depth == block.stack_depth,
                depth <= slots,
                depth <= provenance@.len(),
                aliases@.len() == k,
                forall|j: int|
                    0 <= j < k ==> aliases@[j] == (if j < depth {
                        provenance@[j]
                    } else {
                        OptProvenance::Unknown
                    }),
            decreases slots - k,
        {
            aliases.push(
                if k < depth {
                    provenance[k]
                } else {
                    OptProvenance::Unknown
                },
            );
            k = k + 1;
        }
        code.enter(native);
        let ghost mid = *code;
        let values = match self.take_inputs(code, &block.inputs) {
            Ok(values) => values,
            Err(e) => {
                return Err(e);
            },
        };
        let ls = LowerState { depth, provenance: aliases, source: carried, reusable: BTreeMap::new(), values };
        proof {
            assert(ls@.provenance =~= entry_model(*self, *block, provenance@, carried, ls@.values).provenance);
            assert(ls@.reusable =~= Map::empty());
        }
        Ok((ls, Ghost(mid)))
    }

    /// Lowers a block; answers the array storage that is still known behind it.
    #[verifier::rlimit(60)]
    pub fn lower_block(
        &self,
        code: &mut Code,
        block: &OptimizedBlock,
        provenance: &Vec<OptProvenance>,
        carried: Option<GuardedElementSource>,
        sources: &mut BTreeMap<u32, GuardedElementSource>,
    ) -> (r: Result<(Option<GuardedElementSource>, Ghost<BlockTrace>), Refusal>)
        requires
            self.wf(old(code).len()),
            carried matches Some(found) ==> storage_known(found.storage, old(code).len()),
            sources_known(old(sources)@, old(code).len()),
            self.env.int32_loop ==> self.arrays.hoists@.len() == 0,
        ensures
            kept(*old(code), *final(code)),
            r is Ok && self.typed(*old(code)) && source_held(*old(code), carried)
                && old(code).unstarted(self.blocks@[block.start_pc] as int)
                && sources_held(*old(code), old(sources)@)
                ==> rewritten(*old(code), *final(code), self.blocks@[block.start_pc])
                    && sources_held(*final(code), final(sources)@) && source_held(*final(code), r->Ok_0.0),
            r matches Err(e) ==> block_refused(
                *self,
                *block,
                provenance@,
                carried,
                old(sources)@,
                *old(code),
                e,
            ),
            r matches Ok((left, t)) ==> {
                &&& old(code).len() <= final(code).len()
                &&& left == t@.stages.last().model.source
                &&& left matches Some(found) ==> storage_known(found.storage, final(code).len())
                &&& sources_known(final(sources)@, final(code).len())
                &&& block_lowered(
                    *self,
                    *block,
                    provenance@,
                    carried,
                    old(sources)@,
                    final(sources)@,
                    *old(code),
                    *final(code),
                    t@,
                )
            },
    {
        let ghost c0 = *code;
        let source = match sources.get(&block.start_pc) {
            Some(source) => Some(*source),
            None => None,
        };
        let (mut ls, start) = match self.enter_block(code, block, provenance, carried) {
            Ok(entered) => entered,
            Err(e) => {
                return Err(Refusal { failure: e, stage: None });
            },
        };
        let ghost mut t = BlockTrace {
            start: start@,
            stages: seq![(Stage { code: *code, model: ls@ })],
            ready: Seq::empty(),
        };
        let mut k: usize = 0;
        while k < block.nodes.len()
            invariant
                kept(*old(code), *code),
                self.typed(*old(code)) && source_held(*old(code), carried)
                    && old(code).unstarted(self.blocks@[block.start_pc] as int)
                    && sources_held(*old(code), old(sources)@)
                    ==> self.typed(*code) && state_held(*code, ls) && source_held(*code, source)
                        && sources_held(*code, sources@)
                        && begun(*old(code), *code, self.blocks@[block.start_pc]),
                k <= block.nodes@.len(),
                c0 == *old(code),
                c0.len() <= code.len(),
                self.wf(c0.len()),
                ls@.wf(*self.env, code.len()),
                sources@ == old(sources)@,
                sources_known(sources@, c0.len()),
                source == loop_source(sources@, *block),
                source matches Some(found) ==> storage_known(found.storage, c0.len()),
                t.stages.len() == k + 1,
                t.stages[k as int] == (Stage { code: *code, model: ls@ }),
                block_begun(*self, *block, provenance@, carried, sources@, c0, t),
                !block_ended(*self, *block, t),
                k > 0 ==> block.nodes@[k - 1] < self.ir.nodes@.len(),
            decreases block.nodes@.len() - k,
        {
            let ghost before = t;
            match self.lower_step(code, &mut ls, block, k, source) {
                Ok((ends, ready)) => {
                    proof {
                        let after = Stage { code: *code, model: ls@ };
                        t =
                        BlockTrace {
                            start: before.start,
                            stages: before.stages.push(after),
                            ready: before.ready.push(ready@),
                        };
                        assert forall|j: int| 0 <= j < k + 1 implies #[trigger] step_lowered(
                            *self,
                            *block,
                            source,
                            j,
                            t.stages[j],
                            t.ready[j],
                            t.stages[j + 1],
                        ) by {
                            if j < k {
                                assert(step_lowered(
                                    *self,
                                    *block,
                                    source,
                                    j,
                                    before.stages[j],
                                    before.ready[j],
                                    before.stages[j + 1],
                                ));
                            }
                        }
                        assert forall|j: int| 0 <= j < k implies !terminates(
                            self.ir.nodes@[#[trigger] block.nodes@[j] as int],
                        ) by {}
                        assert(t.stages[0] == before.stages[0]);
                        assert(nodes_lowered(*self, *block, source, k + 1, t.stages, t.ready));
                    }
                    if ends {
                        let left = ls.source;
                        return Ok((left, Ghost(t)));
                    }
                },
                Err(e) => {
                    return Err(e);
                },
            }
            k = k + 1;
        }
        let left = ls.source;
        match self.fall_through(code, &mut ls, block, sources) {
            Ok(_) => Ok((left, Ghost(t))),
            Err(e) => Err(Refusal { failure: e, stage: None }),
        }
    }
}

} // verus!
