//! Speculative call-target guards in a dominating entry block.
//!
//! The target stays rooted in an argument that is never written; a poll that
//! can be observed revalidates the guard before it returns to the loop.
use crate::entry_state::bit_length;
use crate::entry_state::bits;
use crate::ir::FrameSlot;
use crate::ir::FrameShape;
use crate::ir::KnownFacts;
use crate::ir::LoopAnalysis;
use crate::ir::OptimizedIr;
use crate::ir::OptimizedNode;
use crate::ir::OptimizedNodeKind;
use std::collections::BTreeMap;
use std::collections::BTreeSet;
use vstd::prelude::*;

verus! {

broadcast use vstd::std_specs::btree::group_btree_axioms;

// Hoisting is optional. The analysis has a hard work ceiling. Emission has a
// separate bound because each target is copied at entry and at every poll.
pub const MAX_ANALYSIS_WORK: usize = 1_048_576;

pub const MAX_TARGET_CHECKS: usize = 512;

pub const MAX_EMISSION_UNITS: usize = 65_536;

pub const BYTES_PER_EMISSION_UNIT: usize = 128;

#[derive(Clone, Copy, Debug, PartialEq, Eq, Structural)]
pub struct CallTargetFact {
    pub argument: u16,
    pub object: u64,
    pub bytecode: u64,
}

/// The targets that are guarded once, in the order of their arguments, and the
/// calls that such a guard covers.
#[derive(Debug)]
pub struct HoistedCallGuards {
    pub targets: Vec<CallTargetFact>,
    pub calls: BTreeMap<u32, u16>,
}

/// The number of emission units for `targets` targets at `sites` polls in a
/// frame of `slots` slots.
pub open spec fn units(targets: int, sites: int, slots: int) -> int {
    sites * (targets * (slots * 4 + 32) + slots * 8 + 64)
}

pub open spec fn units_fit(targets: int, sites: int, slots: int) -> bool {
    targets == 0 || targets * sites <= MAX_TARGET_CHECKS && units(targets, sites, slots) <= MAX_EMISSION_UNITS && targets
        * (slots * 4 + 32) + slots * 8 + 64 <= usize::MAX
}

pub open spec fn is_guard_site(node: OptimizedNode) -> bool {
    node.kind is GuardNumeric
}

pub open spec fn guard_sites(ir: OptimizedIr, n: nat) -> nat
    decreases n,
{
    if n == 0 {
        0
    } else {
        guard_sites(ir, (n - 1) as nat) + if is_guard_site(ir.nodes@[n - 1]) {
            1nat
        } else {
            0nat
        }
    }
}

pub open spec fn slot_count(shape: FrameShape) -> int {
    shape.arguments + shape.locals + shape.stack
}

/// The argument is redefined somewhere in the function.
pub open spec fn argument_written(ir: OptimizedIr, argument: u16) -> bool {
    exists|i: int, k: int|
        #![trigger ir.nodes@[i].frame_definitions@[k]]
        0 <= i < ir.nodes@.len() && ir.nodes@[i].is_bytecode() && 0 <= k < ir.nodes@[i].frame_definitions@.len()
            && ir.nodes@[i].frame_definitions@[k] == FrameSlot::Argument(argument)
}

/// The target of the call at node `i`, where a guard in the entry block can
/// stand for the one at the call.
pub open spec fn hoistable(ir: OptimizedIr, loops: LoopAnalysis, facts: KnownFacts, i: int) -> Option<CallTargetFact> {
    let node = ir.nodes@[i];
    if loops.in_loop(i) && node.call is Some && node.call->Some_0.frame_state_node == i && node.call->Some_0.inline is Some
        && facts.argument_of(node.call->Some_0.target) is Some && !argument_written(
        ir,
        facts.argument_of(node.call->Some_0.target)->Some_0,
    ) {
        Some(
            CallTargetFact {
                argument: facts.argument_of(node.call->Some_0.target)->Some_0,
                object: node.call->Some_0.inline->Some_0.object_identity,
                bytecode: node.call->Some_0.inline->Some_0.bytecode_identity,
            },
        )
    } else {
        None
    }
}

/// The first target that is hoisted for an argument, by the first `n` nodes.
pub open spec fn target_for(ir: OptimizedIr, loops: LoopAnalysis, facts: KnownFacts, argument: u16, n: nat) -> Option<CallTargetFact>
    decreases n,
{
    if n == 0 {
        None
    } else {
        match target_for(ir, loops, facts, argument, (n - 1) as nat) {
            Some(fact) => Some(fact),
            None => match hoistable(ir, loops, facts, n - 1) {
                Some(fact) => if fact.argument == argument {
                    Some(fact)
                } else {
                    None
                },
                None => None,
            },
        }
    }
}

pub open spec fn sorted_targets(targets: Seq<CallTargetFact>) -> bool {
    forall|i: int, j: int| 0 <= i < j < targets.len() ==> #[trigger] targets[i].argument < #[trigger] targets[j].argument
}

/// The plan for the first `n` nodes: one target per argument, and the calls
/// whose target it is.
pub open spec fn plan_is(
    ir: OptimizedIr,
    loops: LoopAnalysis,
    facts: KnownFacts,
    targets: Seq<CallTargetFact>,
    calls: Map<u32, u16>,
    n: nat,
) -> bool {
    &&& sorted_targets(targets)
    &&& forall|k: int|
        0 <= k < targets.len() ==> target_for(ir, loops, facts, (#[trigger] targets[k]).argument, n) == Some(targets[k])
    &&& forall|argument: u16| #[trigger]
        target_for(ir, loops, facts, argument, n) matches Some(fact) ==> targets.contains(fact)
    &&& forall|i: u32| #[trigger]
        calls.contains_key(i) <==> i < n && (hoistable(ir, loops, facts, i as int) matches Some(fact) && target_for(
            ir,
            loops,
            facts,
            fact.argument,
            n,
        ) == Some(fact))
    &&& forall|i: u32| #[trigger]
        calls.contains_key(i) ==> hoistable(ir, loops, facts, i as int) is Some && calls[i] == hoistable(
            ir,
            loops,
            facts,
            i as int,
        )->Some_0.argument
}

/// A covered call has its own target guarded: the hoisted guard checks exactly
/// the identity that the call was specialized for.
pub proof fn covered_calls_have_their_target(
    ir: OptimizedIr,
    loops: LoopAnalysis,
    facts: KnownFacts,
    targets: Seq<CallTargetFact>,
    calls: Map<u32, u16>,
    n: nat,
    i: u32,
)
    requires
        plan_is(ir, loops, facts, targets, calls, n),
        calls.contains_key(i),
    ensures
        hoistable(ir, loops, facts, i as int) is Some,
        targets.contains(hoistable(ir, loops, facts, i as int)->Some_0),
        !argument_written(ir, calls[i]),
{
    let fact = hoistable(ir, loops, facts, i as int)->Some_0;
    assert(target_for(ir, loops, facts, fact.argument, n) == Some(fact));
}

/// A plan without targets covers no call.
pub proof fn empty_plan_covers_nothing(
    ir: OptimizedIr,
    loops: LoopAnalysis,
    facts: KnownFacts,
    targets: Seq<CallTargetFact>,
    calls: Map<u32, u16>,
    n: nat,
)
    requires
        plan_is(ir, loops, facts, targets, calls, n),
        targets.len() == 0,
    ensures
        forall|i: u32| !#[trigger] calls.contains_key(i),
{
    assert forall|i: u32| !#[trigger] calls.contains_key(i) by {
        if calls.contains_key(i) {
            covered_calls_have_their_target(ir, loops, facts, targets, calls, n, i);
        }
    }
}

/// Fewer targets, polls and slots never need more units: a plan that fits
/// still fits after it was made smaller.
pub proof fn units_are_monotone(t: int, t2: int, sites: int, slots: int)
    requires
        0 <= t <= t2,
        0 <= sites,
        0 <= slots,
        units_fit(t2, sites, slots),
    ensures
        units_fit(t, sites, slots),
{
    if t > 0 {
        assert(t * sites <= t2 * sites) by (nonlinear_arith)
            requires
                0 <= t <= t2,
                0 <= sites,
        ;
        let per = slots * 4 + 32;
        assert(t * per <= t2 * per) by (nonlinear_arith)
            requires
                0 <= t <= t2,
                0 <= per,
        ;
        let a = t * per + slots * 8 + 64;
        let b = t2 * per + slots * 8 + 64;
        assert(sites * a <= sites * b) by (nonlinear_arith)
            requires
                a <= b,
                0 <= sites,
        ;
    }
}

/// The number of frame slots that the bytecode among the first `n` nodes redefines.
pub open spec fn definitions(ir: OptimizedIr, n: nat) -> nat
    decreases n,
{
    if n == 0 {
        0
    } else {
        definitions(ir, (n - 1) as nat) + if ir.nodes@[n - 1].is_bytecode() {
            ir.nodes@[n - 1].frame_definitions@.len()
        } else {
            0
        }
    }
}

pub open spec fn tree_cost(ir: OptimizedIr, shape: FrameShape) -> nat {
    bit_length(
        if ir.nodes@.len() >= shape.arguments {
            ir.nodes@.len()
        } else {
            shape.arguments as nat
        },
    ) + 1
}

/// The analysis asks whether the target's argument is written.
pub open spec fn asks(ir: OptimizedIr, loops: LoopAnalysis, facts: KnownFacts, i: int) -> bool {
    let node = ir.nodes@[i];
    loops.in_loop(i) && node.call is Some && node.call->Some_0.frame_state_node == i && node.call->Some_0.inline is Some
        && facts.argument_of(node.call->Some_0.target) is Some
}

/// The questions that the first `n` nodes raise.
pub open spec fn questions(ir: OptimizedIr, loops: LoopAnalysis, facts: KnownFacts, n: nat) -> nat
    decreases n,
{
    if n == 0 {
        0
    } else {
        questions(ir, loops, facts, (n - 1) as nat) + (if asks(ir, loops, facts, n - 1) {
            1nat
        } else {
            0
        })
    }
}

/// The analysis can be paid for: the nodes and the values are looked at, then
/// the nodes are gone through twice, with a walk down a tree for each frame
/// definition and three for each question.
pub open spec fn analysis_paid(ir: OptimizedIr, loops: LoopAnalysis, facts: KnownFacts, shape: FrameShape, work: int) -> bool {
    let n = ir.nodes@.len();
    &&& n + ir.values@.len() <= work
    &&& 3 * n + definitions(ir, n) * tree_cost(ir, shape) + 3 * (questions(ir, loops, facts, n) * tree_cost(ir, shape))
        <= work
}

pub open spec fn analysis_limit(ir: OptimizedIr) -> int {
    let wanted = (ir.values@.len() + ir.nodes@.len()) * 128;
    if wanted <= MAX_ANALYSIS_WORK {
        wanted as int
    } else {
        MAX_ANALYSIS_WORK as int
    }
}

fn insert_target(targets: &mut Vec<CallTargetFact>, fact: CallTargetFact, at: usize)
    requires
        at <= old(targets)@.len(),
        sorted_targets(old(targets)@),
        at > 0 ==> old(targets)@[at - 1].argument < fact.argument,
        at < old(targets)@.len() ==> fact.argument < old(targets)@[at as int].argument,
    ensures
        final(targets)@ == old(targets)@.insert(at as int, fact),
        sorted_targets(final(targets)@),
{
    targets.insert(at, fact);
    proof {
        let before = old(targets)@;
        let after = targets@;
        assert forall|i: int, j: int| 0 <= i < j < after.len() implies #[trigger] after[i].argument < #[trigger] after[j].argument by {
            let a = if i < at {
                i
            } else {
                i - 1
            };
            let b = if j < at {
                j
            } else {
                j - 1
            };
            if i != at && j != at {
                assert(before[a].argument < before[b].argument);
            } else if i == at {
                if j - 1 > at {
                    assert(before[at as int].argument < before[j - 1].argument);
                }
            } else {
                if i < at - 1 {
                    assert(before[i].argument < before[at - 1].argument);
                }
            }
        }
    }
}

/// Where `argument` stands among sorted targets, or where it would.
fn locate(targets: &Vec<CallTargetFact>, argument: u16) -> (r: usize)
    requires
        sorted_targets(targets@),
    ensures
        r <= targets@.len(),
        forall|k: int| 0 <= k < r ==> (#[trigger] targets@[k]).argument < argument,
        r < targets@.len() ==> targets@[r as int].argument >= argument,
{
    let mut i: usize = 0;
    while i < targets.len() && targets[i].argument < argument
        invariant
            i <= targets@.len(),
            forall|k: int| 0 <= k < i ==> (#[trigger] targets@[k]).argument < argument,
        decreases targets@.len() - i,
    {
        i = i + 1;
    }
    i
}

impl HoistedCallGuards {
    pub open spec fn is_default(&self) -> bool {
        self.targets@.len() == 0 && self.calls@ == Map::<u32, u16>::empty()
    }

    pub fn empty() -> (r: Self)
        ensures
            r.is_default(),
    {
        HoistedCallGuards { targets: Vec::new(), calls: BTreeMap::new() }
    }

    /// The work that the analysis of a function may take.
    pub fn analysis_work(ir: &OptimizedIr) -> (r: usize)
        ensures
            r == analysis_limit(*ir),
    {
        let wanted: u128 = (ir.values.len() as u128 + ir.nodes.len() as u128) * 128;
        if wanted <= MAX_ANALYSIS_WORK as u128 {
            wanted as usize
        } else {
            MAX_ANALYSIS_WORK
        }
    }

    /// The polls, frame slots and arguments that emission is charged for.
    pub fn emission_shape(ir: &OptimizedIr) -> (r: Option<(usize, usize, usize)>)
        ensures
            match ir.entry_shape {
                None => r is None,
                Some(shape) => r is Some && r->Some_0.0 == guard_sites(*ir, ir.nodes@.len()) && r->Some_0.1 == slot_count(
                    shape,
                ) && r->Some_0.2 == shape.arguments,
            },
    {
        let shape = match ir.entry_shape {
            Some(shape) => shape,
            None => return None,
        };
        let mut sites: usize = 0;
        let mut i: usize = 0;
        while i < ir.nodes.len()
            invariant
                i <= ir.nodes@.len(),
                sites <= i,
                sites == guard_sites(*ir, i as nat),
            decreases ir.nodes@.len() - i,
        {
            if let OptimizedNodeKind::GuardNumeric { .. } = &ir.nodes[i].kind {
                sites = sites + 1;
            }
            i = i + 1;
        }
        Some((sites, shape.arguments as usize + shape.locals as usize + shape.stack as usize, shape.arguments as usize))
    }

    /// The cost of the guard blocks, of full-frame recovery and of carrying the
    /// guard's variables through its predecessors, or nothing where that is
    /// more than may be emitted.
    pub fn emission_units(targets: usize, sites: usize, slots: usize) -> (r: Option<usize>)
        ensures
            r is Some <==> units_fit(targets as int, sites as int, slots as int),
            r matches Some(u) ==> u == (if targets == 0 { 0 } else { units(targets as int, sites as int, slots as int) }),
    {
        if targets == 0 {
            return Some(0);
        }
        let checks: u128 = mul_wide(targets, sites);
        if checks > MAX_TARGET_CHECKS as u128 {
            return None;
        }
        let per_target: u128 = slots as u128 * 4 + 32;
        if per_target > usize::MAX as u128 {
            proof {
                let t = targets as int;
                let p = per_target as int;
                assert(t * p >= p) by (nonlinear_arith)
                    requires
                        t >= 1,
                        p >= 0,
                ;
            }
            return None;
        }
        let scaled: u128 = mul_wide(targets, per_target as usize);
        if scaled > usize::MAX as u128 {
            return None;
        }
        let per_site: u128 = scaled + slots as u128 * 8 + 64;
        if per_site > usize::MAX as u128 {
            return None;
        }
        let total: u128 = mul_wide(sites, per_site as usize);
        if total > MAX_EMISSION_UNITS as u128 {
            None
        } else {
            Some(total as usize)
        }
    }

    /// Plans the guards. Exhaustion discards the whole plan.
    pub fn try_analyze(ir: &OptimizedIr, loops: &LoopAnalysis, facts: &KnownFacts, work: usize) -> (r: Option<Self>)
        requires
            ir.wf(),
            ir.nodes@.len() <= u32::MAX,
        ensures
            r matches Some(plan) ==> loops.complete && plan_is(
                *ir,
                *loops,
                *facts,
                plan.targets@,
                plan.calls@,
                ir.nodes@.len(),
            ) && (ir.entry_shape matches Some(shape) && units_fit(
                plan.targets@.len() as int,
                guard_sites(*ir, ir.nodes@.len()) as int,
                slot_count(shape),
            ) && analysis_paid(*ir, *loops, *facts, shape, work as int)),
            r is None ==> !loops.complete || (match ir.entry_shape {
                None => true,
                Some(shape) => !analysis_paid(*ir, *loops, *facts, shape, work as int) || exists|targets: Seq<CallTargetFact>, calls: Map<
                    u32,
                    u16,
                >, n: nat| #[trigger]
                    plan_is(*ir, *loops, *facts, targets, calls, n) && n <= ir.nodes@.len() && !units_fit(
                        targets.len() as int,
                        guard_sites(*ir, ir.nodes@.len()) as int,
                        slot_count(shape),
                    ),
            }),
    {
        let n: usize = ir.nodes.len();
        if work < n {
            return None;
        }
        let mut left: usize = work - n;
        let (sites, slots, arguments) = match Self::emission_shape(ir) {
            Some(shape) => shape,
            None => return None,
        };
        let ghost shape = ir.entry_shape->Some_0;
        if ir.values.len() > left {
            return None;
        }
        if !loops.complete {
            return None;
        }
        let larger: usize = if n >= arguments {
            n
        } else {
            arguments
        };
        let tree: usize = bits(larger) + 1;
        assert(tree == tree_cost(*ir, shape));
        let written = match written_arguments(ir, tree, left) {
            Some((written, rest)) => {
                left = rest;
                written
            },
            None => {
                return None;
            },
        };
        proof {
            assert(questions(*ir, *loops, *facts, 0) == 0);
            assert(0 * tree == 0) by (nonlinear_arith);
        }
        let ghost after = left;
        let mut plan = Self::empty();
        let mut i: usize = 0;
        while i < n
            invariant
                n == ir.nodes@.len(),
                n <= u32::MAX,
                ir.wf(),
                i <= n,
                ir.entry_shape == Some(shape),
                tree == tree_cost(*ir, shape),
                tree <= 65,
                sites == guard_sites(*ir, ir.nodes@.len()),
                slots == slot_count(shape),
                loops.complete,
                forall|a: u16| #[trigger] written@.contains(a) == argument_written(*ir, a),
                left == after - i - 3 * (questions(*ir, *loops, *facts, i as nat) * tree),
                n + ir.values@.len() <= work,
                after == work - 2 * n - definitions(*ir, n as nat) * tree,
                plan_is(*ir, *loops, *facts, plan.targets@, plan.calls@, i as nat),
                units_fit(plan.targets@.len() as int, sites as int, slots as int),
            decreases n - i,
        {
            proof {
                questions_monotone(*ir, *loops, *facts, i as nat, n as nat, tree as nat);
                questions_monotone(*ir, *loops, *facts, (i + 1) as nat, n as nat, tree as nat);
            }
            let ghost q = questions(*ir, *loops, *facts, i as nat);
            assert((q + 1) * tree == q * tree + tree) by (nonlinear_arith);
            if left < 1 {
                return None;
            }
            left = left - 1;
            let node = &ir.nodes[i];
            assert(ir.nodes@[i as int].wf());
            let fact: Option<CallTargetFact> = {
                if !loops.contains(i as u32) {
                    None
                } else {
                    match &node.call {
                        Some(call) => if call.frame_state_node as usize == i {
                            match (&call.inline, facts.entry_argument(call.target)) {
                                (Some(region), Some(argument)) => {
                                    if left < 3 * tree {
                                        return None;
                                    }
                                    left = left - 3 * tree;
                                    if written.contains(&argument) {
                                        None
                                    } else {
                                        Some(
                                            CallTargetFact {
                                                argument,
                                                object: region.object_identity,
                                                bytecode: region.bytecode_identity,
                                            },
                                        )
                                    }
                                },
                                _ => None,
                            }
                        } else {
                            None
                        },
                        None => None,
                    }
                }
            };
            assert(fact == hoistable(*ir, *loops, *facts, i as int));
            let ghost targets0 = plan.targets@;
            let ghost calls0 = plan.calls@;
            match fact {
                None => {
                    proof {
                        plan_step_none(*ir, *loops, *facts, targets0, calls0, i as nat);
                    }
                },
                Some(target) => {
                    let at: usize = locate(&plan.targets, target.argument);
                    let present: bool = at < plan.targets.len() && plan.targets[at].argument == target.argument;
                    if present {
                        proof {
                            plan_step_present(*ir, *loops, *facts, targets0, calls0, i as nat, at as int);
                        }
                        if plan.targets[at] == target {
                            plan.calls.insert(i as u32, target.argument);
                        }
                    } else {
                        insert_target(&mut plan.targets, target, at);
                        plan.calls.insert(i as u32, target.argument);
                        proof {
                            plan_step_new(*ir, *loops, *facts, targets0, calls0, i as nat, at as int);
                        }
                        if Self::emission_units(plan.targets.len(), sites, slots).is_none() {
                            assert(plan_is(*ir, *loops, *facts, plan.targets@, plan.calls@, (i + 1) as nat));
                            return None;
                        }
                    }
                },
            }
            i = i + 1;
        }
        Some(plan)
    }

    /// Plans the guards of a region that has no effects but its inlined calls.
    pub fn analyze(ir: &OptimizedIr, loops: &LoopAnalysis, facts: &KnownFacts, scalar_region: bool) -> (r: Self)
        requires
            ir.wf(),
            ir.nodes@.len() <= u32::MAX,
        ensures
            r.is_default() || scalar_region && ir.inlined_calls > 0 && loops.complete && plan_is(
                *ir,
                *loops,
                *facts,
                r.targets@,
                r.calls@,
                ir.nodes@.len(),
            ) && (ir.entry_shape matches Some(shape) && units_fit(
                r.targets@.len() as int,
                guard_sites(*ir, ir.nodes@.len()) as int,
                slot_count(shape),
            ) && analysis_paid(*ir, *loops, *facts, shape, analysis_limit(*ir))),
            (ir.entry_shape matches Some(shape) && scalar_region && ir.inlined_calls > 0 && loops.complete && analysis_paid(
                *ir,
                *loops,
                *facts,
                shape,
                analysis_limit(*ir),
            ) && (forall|targets: Seq<CallTargetFact>, calls: Map<u32, u16>, n: nat|
                #[trigger] plan_is(*ir, *loops, *facts, targets, calls, n) && n <= ir.nodes@.len() ==> units_fit(
                    targets.len() as int,
                    guard_sites(*ir, ir.nodes@.len()) as int,
                    slot_count(shape),
                ))) ==> plan_is(*ir, *loops, *facts, r.targets@, r.calls@, ir.nodes@.len()),
    {
        if !scalar_region || ir.inlined_calls == 0 {
            return Self::empty();
        }
        match Self::try_analyze(ir, loops, facts, Self::analysis_work(ir)) {
            Some(plan) => plan,
            None => Self::empty(),
        }
    }

    /// A guard in the entry block covers the call.
    pub fn contains(&self, node: u32) -> (r: bool)
        ensures
            r == self.calls@.contains_key(node),
    {
        self.calls.contains_key(&node)
    }

    pub fn is_empty(&self) -> (r: bool)
        ensures
            r == (self.targets@.len() == 0),
    {
        self.targets.len() == 0
    }

    /// A bound on the memory that planning and emission take: what the loop
    /// and fact analyses need, the plan's own tables, and the emitted units.
    pub fn scratch_bytes(ir: &OptimizedIr, loop_bytes: usize, bytes_per_value: usize) -> (r: usize)
        ensures
            r == scratch_bound(*ir, loop_bytes as int, bytes_per_value as int),
    {
        if ir.inlined_calls == 0 {
            return 0;
        }
        let (emission, arguments): (usize, usize) = match Self::emission_shape(ir) {
            None => (MAX_EMISSION_UNITS, 0),
            Some((sites, slots, arguments)) => {
                let targets: usize = if ir.inlined_calls <= arguments as u64 {
                    ir.inlined_calls as usize
                } else {
                    arguments
                };
                match Self::emission_units(targets, sites, slots) {
                    Some(u) => (u, arguments),
                    None => (MAX_EMISSION_UNITS, arguments),
                }
            },
        };
        let total: u128 = mul_wide(ir.values.len(), bytes_per_value);
        let values: usize = saturate(total);
        let nodes: usize = saturate(ir.nodes.len() as u128 * 256);
        saturate(
            loop_bytes as u128 + values as u128 + nodes as u128 + arguments as u128 * 64 + emission as u128 * 128,
        )
    }
}

pub open spec fn capped(n: int) -> int {
    if n <= usize::MAX {
        n
    } else {
        usize::MAX as int
    }
}

pub open spec fn emission_bound(ir: OptimizedIr) -> int {
    match ir.entry_shape {
        None => MAX_EMISSION_UNITS as int,
        Some(shape) => {
            let targets = if ir.inlined_calls <= shape.arguments {
                ir.inlined_calls as int
            } else {
                shape.arguments as int
            };
            let sites = guard_sites(ir, ir.nodes@.len()) as int;
            if targets == 0 {
                0
            } else if units_fit(targets, sites, slot_count(shape)) {
                units(targets, sites, slot_count(shape))
            } else {
                MAX_EMISSION_UNITS as int
            }
        },
    }
}

pub open spec fn scratch_bound(ir: OptimizedIr, loop_bytes: int, bytes_per_value: int) -> int {
    if ir.inlined_calls == 0 {
        0
    } else {
        let arguments = match ir.entry_shape {
            None => 0,
            Some(shape) => shape.arguments as int,
        };
        capped(
            loop_bytes + capped(ir.values@.len() * bytes_per_value) + capped(ir.nodes@.len() * 256int) + arguments * 64
                + emission_bound(ir) * 128,
        )
    }
}

fn saturate(n: u128) -> (r: usize)
    ensures
        r == capped(n as int),
{
    if n <= usize::MAX as u128 {
        n as usize
    } else {
        usize::MAX
    }
}

fn mul_wide(a: usize, b: usize) -> (r: u128)
    ensures
        r == a * b,
{
    assert(a * b <= 0xffff_ffff_ffff_ffff * 0xffff_ffff_ffff_ffff) by (nonlinear_arith)
        requires
            0 <= a <= 0xffff_ffff_ffff_ffff,
            0 <= b <= 0xffff_ffff_ffff_ffff,
    ;
    a as u128 * b as u128
}

fn written_arguments(ir: &OptimizedIr, tree: usize, work: usize) -> (r: Option<(BTreeSet<u16>, usize)>)
    requires
        tree <= 65,
    ensures
        match r {
            Some((written, left)) => left == work - ir.nodes@.len() - definitions(*ir, ir.nodes@.len()) * tree && forall|a: u16|
                #[trigger] written@.contains(a) == argument_written(*ir, a),
            None => work < ir.nodes@.len() + definitions(*ir, ir.nodes@.len()) * tree,
        },
{
    let mut written: BTreeSet<u16> = BTreeSet::new();
    let mut left: usize = work;
    let mut i: usize = 0;
    assert(definitions(*ir, 0) == 0);
    assert(0 * tree == 0) by (nonlinear_arith);
    while i < ir.nodes.len()
        invariant
            tree <= 65,
            i <= ir.nodes@.len(),
            left == work - i - definitions(*ir, i as nat) * tree,
            forall|a: u16| #[trigger] written@.contains(a) == written_before(*ir, i as int, a),
        decreases ir.nodes@.len() - i,
    {
        proof {
            definitions_monotone(*ir, (i + 1) as nat, ir.nodes@.len(), tree as nat);
            definitions_monotone(*ir, i as nat, ir.nodes@.len(), tree as nat);
        }
        if left < 1 {
            return None;
        }
        left = left - 1;
        let node = &ir.nodes[i];
        let bytecode: bool = match &node.kind {
            OptimizedNodeKind::Bytecode { .. } => true,
            _ => false,
        };
        let ghost before = written@;
        if bytecode {
            let mut k: usize = 0;
            while k < node.frame_definitions.len()
                invariant
                    tree <= 65,
                    i < ir.nodes@.len(),
                    node == ir.nodes@[i as int],
                    node.is_bytecode(),
                    k <= node.frame_definitions@.len(),
                    left == work - i - 1 - definitions(*ir, i as nat) * tree - k * tree,
                    forall|a: u16| #[trigger] written@.contains(a) == (before.contains(a) || exists|q: int|
                        0 <= q < k && #[trigger] node.frame_definitions@[q] == FrameSlot::Argument(a)),
                decreases node.frame_definitions@.len() - k,
            {
                proof {
                    assert((k + 1) * tree == k * tree + tree) by (nonlinear_arith);
                    let len = node.frame_definitions@.len();
                    assert(len * tree >= (k + 1) * tree) by (nonlinear_arith)
                        requires
                            k + 1 <= len,
                    ;
                    let d = definitions(*ir, i as nat);
                    assert((d + len) * tree == d * tree + len * tree) by (nonlinear_arith);
                }
                if left < tree {
                    proof {
                        definitions_monotone(*ir, (i + 1) as nat, ir.nodes@.len(), tree as nat);
                    }
                    return None;
                }
                left = left - tree;
                let ghost prior = written@;
                if let FrameSlot::Argument(index) = node.frame_definitions[k] {
                    written.insert(index);
                }
                proof {
                    assert forall|a: u16| #[trigger] written@.contains(a) == (before.contains(a) || exists|q: int|
                        0 <= q < k + 1 && #[trigger] node.frame_definitions@[q] == FrameSlot::Argument(a)) by {
                        assert(prior.contains(a) == (before.contains(a) || exists|q: int|
                            0 <= q < k && #[trigger] node.frame_definitions@[q] == FrameSlot::Argument(a)));
                        if node.frame_definitions@[k as int] == FrameSlot::Argument(a) {
                            assert(written@.contains(a));
                        }
                    }
                }
                k = k + 1;
            }
            proof {
                let d = definitions(*ir, i as nat);
                let len = node.frame_definitions@.len();
                assert((d + len) * tree == d * tree + len * tree) by (nonlinear_arith);
            }
        }
        proof {
            assert forall|a: u16| #[trigger] written@.contains(a) == written_before(*ir, i + 1, a) by {
                assert(before.contains(a) == written_before(*ir, i as int, a));
                if bytecode && (exists|q: int|
                    0 <= q < node.frame_definitions@.len() && #[trigger] node.frame_definitions@[q] == FrameSlot::Argument(
                        a,
                    )) {
                    let q = choose|q: int|
                        0 <= q < node.frame_definitions@.len() && #[trigger] node.frame_definitions@[q]
                            == FrameSlot::Argument(a);
                    assert(ir.nodes@[i as int].frame_definitions@[q] == FrameSlot::Argument(a));
                }
                if written_before(*ir, i as int, a) {
                    let (j, q) = choose|j: int, q: int|
                        #![trigger ir.nodes@[j].frame_definitions@[q]]
                        0 <= j < i && ir.nodes@[j].is_bytecode() && 0 <= q < ir.nodes@[j].frame_definitions@.len()
                            && ir.nodes@[j].frame_definitions@[q] == FrameSlot::Argument(a);
                    assert(ir.nodes@[j].frame_definitions@[q] == FrameSlot::Argument(a));
                }
                if written_before(*ir, i + 1, a) && !written_before(*ir, i as int, a) {
                    let (j, q) = choose|j: int, q: int|
                        #![trigger ir.nodes@[j].frame_definitions@[q]]
                        0 <= j < i + 1 && ir.nodes@[j].is_bytecode() && 0 <= q < ir.nodes@[j].frame_definitions@.len()
                            && ir.nodes@[j].frame_definitions@[q] == FrameSlot::Argument(a);
                    assert(j == i);
                    assert(node.frame_definitions@[q] == FrameSlot::Argument(a));
                }
            }
        }
        i = i + 1;
    }
    assert forall|a: u16| #[trigger] written@.contains(a) == argument_written(*ir, a) by {
        assert(written_before(*ir, ir.nodes@.len() as int, a) == argument_written(*ir, a));
    }
    Some((written, left))
}

spec fn written_before(ir: OptimizedIr, n: int, argument: u16) -> bool {
    exists|i: int, k: int|
        #![trigger ir.nodes@[i].frame_definitions@[k]]
        0 <= i < n && ir.nodes@[i].is_bytecode() && 0 <= k < ir.nodes@[i].frame_definitions@.len()
            && ir.nodes@[i].frame_definitions@[k] == FrameSlot::Argument(argument)
}

proof fn definitions_monotone(ir: OptimizedIr, a: nat, b: nat, tree: nat)
    requires
        a <= b,
    ensures
        definitions(ir, a) <= definitions(ir, b),
        definitions(ir, a) * tree <= definitions(ir, b) * tree,
    decreases b,
{
    if a < b {
        definitions_monotone(ir, a, (b - 1) as nat, tree);
    }
    let x = definitions(ir, a);
    let y = definitions(ir, b);
    assert(x * tree <= y * tree) by (nonlinear_arith)
        requires
            x <= y,
    ;
}

proof fn questions_monotone(ir: OptimizedIr, loops: LoopAnalysis, facts: KnownFacts, a: nat, b: nat, tree: nat)
    requires
        a <= b,
    ensures
        questions(ir, loops, facts, a) <= questions(ir, loops, facts, b),
        questions(ir, loops, facts, a) * tree <= questions(ir, loops, facts, b) * tree,
    decreases b,
{
    if a < b {
        questions_monotone(ir, loops, facts, a, (b - 1) as nat, tree);
    }
    let x = questions(ir, loops, facts, a);
    let y = questions(ir, loops, facts, b);
    assert(x * tree <= y * tree) by (nonlinear_arith)
        requires
            x <= y,
    ;
}

proof fn target_stays(ir: OptimizedIr, loops: LoopAnalysis, facts: KnownFacts, argument: u16, n: nat)
    ensures
        target_for(ir, loops, facts, argument, n) is Some ==> target_for(ir, loops, facts, argument, n + 1) == target_for(
            ir,
            loops,
            facts,
            argument,
            n,
        ),
        target_for(ir, loops, facts, argument, n) matches Some(fact) ==> fact.argument == argument,
    decreases n,
{
    if n > 0 {
        target_stays(ir, loops, facts, argument, (n - 1) as nat);
    }
}

proof fn plan_step_none(
    ir: OptimizedIr,
    loops: LoopAnalysis,
    facts: KnownFacts,
    targets: Seq<CallTargetFact>,
    calls: Map<u32, u16>,
    n: nat,
)
    requires
        plan_is(ir, loops, facts, targets, calls, n),
        hoistable(ir, loops, facts, n as int) is None,
    ensures
        plan_is(ir, loops, facts, targets, calls, n + 1),
{
    assert forall|argument: u16| #[trigger]
        target_for(ir, loops, facts, argument, n + 1) == target_for(ir, loops, facts, argument, n) by {}
}

proof fn plan_step_present(
    ir: OptimizedIr,
    loops: LoopAnalysis,
    facts: KnownFacts,
    targets: Seq<CallTargetFact>,
    calls: Map<u32, u16>,
    n: nat,
    at: int,
)
    requires
        plan_is(ir, loops, facts, targets, calls, n),
        n < u32::MAX,
        hoistable(ir, loops, facts, n as int) is Some,
        0 <= at < targets.len(),
        targets[at].argument == hoistable(ir, loops, facts, n as int)->Some_0.argument,
    ensures
        targets[at] == hoistable(ir, loops, facts, n as int)->Some_0 ==> plan_is(
            ir,
            loops,
            facts,
            targets,
            calls.insert(n as u32, targets[at].argument),
            n + 1,
        ),
        targets[at] != hoistable(ir, loops, facts, n as int)->Some_0
            ==> plan_is(ir, loops, facts, targets, calls, n + 1),
{
    let fact = hoistable(ir, loops, facts, n as int)->Some_0;
    assert(target_for(ir, loops, facts, targets[at].argument, n) == Some(targets[at]));
    assert forall|argument: u16| #[trigger]
        target_for(ir, loops, facts, argument, n + 1) == target_for(ir, loops, facts, argument, n) by {
        target_stays(ir, loops, facts, argument, n);
    }
}

proof fn plan_step_new(
    ir: OptimizedIr,
    loops: LoopAnalysis,
    facts: KnownFacts,
    targets: Seq<CallTargetFact>,
    calls: Map<u32, u16>,
    n: nat,
    at: int,
)
    requires
        plan_is(ir, loops, facts, targets, calls, n),
        n < u32::MAX,
        hoistable(ir, loops, facts, n as int) is Some,
        0 <= at <= targets.len(),
        forall|k: int| 0 <= k < at ==> (#[trigger] targets[k]).argument < hoistable(ir, loops, facts, n as int)->Some_0.argument,
        at < targets.len() ==> targets[at].argument > hoistable(ir, loops, facts, n as int)->Some_0.argument,
        sorted_targets(targets.insert(at, hoistable(ir, loops, facts, n as int)->Some_0)),
    ensures
        plan_is(
            ir,
            loops,
            facts,
            targets.insert(at, hoistable(ir, loops, facts, n as int)->Some_0),
            calls.insert(n as u32, hoistable(ir, loops, facts, n as int)->Some_0.argument),
            n + 1,
        ),
{
    let fact = hoistable(ir, loops, facts, n as int)->Some_0;
    let after = targets.insert(at, fact);
    assert forall|k: int| 0 <= k < targets.len() implies (#[trigger] targets[k]).argument != fact.argument by {
        if k > at {
            assert(targets[at].argument < targets[k].argument);
        }
    }
    if target_for(ir, loops, facts, fact.argument, n) is Some {
        target_stays(ir, loops, facts, fact.argument, n);
        let prior = target_for(ir, loops, facts, fact.argument, n)->Some_0;
        assert(targets.contains(prior));
        let k = choose|k: int| 0 <= k < targets.len() && targets[k] == prior;
        assert(targets[k].argument == fact.argument);
    }
    assert forall|argument: u16| argument != fact.argument implies #[trigger] target_for(ir, loops, facts, argument, n + 1)
        == target_for(ir, loops, facts, argument, n) by {}
    assert forall|argument: u16| (#[trigger] target_for(ir, loops, facts, argument, n + 1)) is Some implies after.contains(
        target_for(ir, loops, facts, argument, n + 1)->Some_0,
    ) by {
        let f = target_for(ir, loops, facts, argument, n + 1)->Some_0;
        if argument == fact.argument {
            assert(after[at] == fact);
        } else {
            assert(target_for(ir, loops, facts, argument, n) == Some(f));
            assert(targets.contains(f));
            let k = choose|k: int| 0 <= k < targets.len() && targets[k] == f;
            if k < at {
                assert(after[k] == f);
            } else {
                assert(after[k + 1] == f);
            }
        }
    }
    assert forall|k: int| 0 <= k < after.len() implies target_for(ir, loops, facts, (#[trigger] after[k]).argument, n + 1)
        == Some(after[k]) by {
        if k < at {
            assert(after[k] == targets[k]);
            assert(targets[k].argument != fact.argument);
        } else if k > at {
            assert(after[k] == targets[k - 1]);
            assert(targets[k - 1].argument != fact.argument);
        }
    }
    let calls1 = calls.insert(n as u32, fact.argument);
    assert forall|i: u32| #[trigger] calls1.contains_key(i) <==> i < n + 1 && (hoistable(ir, loops, facts, i as int) matches Some(
        f,
    ) && target_for(ir, loops, facts, f.argument, n + 1) == Some(f)) by {
        if i < n && hoistable(ir, loops, facts, i as int) is Some {
            let f = hoistable(ir, loops, facts, i as int)->Some_0;
            if f.argument == fact.argument {
                earlier_target(ir, loops, facts, i as int, n);
            }
        }
    }
}

proof fn earlier_target(ir: OptimizedIr, loops: LoopAnalysis, facts: KnownFacts, i: int, n: nat)
    requires
        0 <= i < n,
        hoistable(ir, loops, facts, i) is Some,
    ensures
        target_for(ir, loops, facts, hoistable(ir, loops, facts, i)->Some_0.argument, n) is Some,
    decreases n,
{
    if i < n - 1 {
        earlier_target(ir, loops, facts, i, (n - 1) as nat);
    }
}

} // verus!
