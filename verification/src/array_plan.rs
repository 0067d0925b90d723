//! Profile-selected, lazily guarded array metadata carried across blocks.
//!
//! A plan authorizes a guard, never a heap fact. Metadata is invalidated before
//! every operation that can reenter, finalize a reference or alter storage.
use crate::ir::KnownFacts;
use crate::ir::LoopAnalysis;
use crate::ir::NaturalLoop;
use crate::ir::OptimizedIr;
use crate::ir::ScalarHeapEffect;
use crate::ir::ScalarHeapOperation;
use crate::numeric::count;
use crate::runtime::first_at;
use crate::runtime::first_at_is;
use crate::runtime::first_at_none;
use crate::runtime::ArrayAccess;
use crate::runtime::ArrayFeedback;
use crate::runtime::ArrayMode;
use vstd::prelude::*;

verus! {

pub const MAX_CANDIDATES: usize = 16;

#[derive(Clone, Copy, Debug, PartialEq, Eq, Structural)]
pub struct ArrayCandidate {
    pub argument: u16,
    pub mode: ArrayMode,
    /// Typed length requires the metadata query to guard observable lookup.
    pub needs_length: bool,
}

#[derive(Clone, Copy, Debug, PartialEq, Eq, Structural)]
pub struct ArrayAccessPlan {
    pub candidate: usize,
    pub access: ArrayAccess,
    pub index: Option<usize>,
    pub result: Option<usize>,
    /// Lowering must check an Int32 key, non-negativity, and unsigned
    /// `index < dense_count` before using cached storage. The plan never turns
    /// an out-of-bounds access into `undefined` by itself.
    pub requires_index_guard: bool,
    /// This access is dominated by a metadata guard in the loop's preheader,
    /// and its key was proved below that guard's exact logical length. Lowering
    /// may omit only the per-access count comparison.
    pub bounds_covered_by_hoist: bool,
    pub loop_header: u32,
}

/// Metadata that may be materialized exactly once on the loop-entry edge.
#[derive(Clone, Copy, Debug, PartialEq, Eq, Structural)]
pub struct ArrayLoopHoist {
    pub candidate: usize,
    pub preheader: u32,
    pub header: u32,
    pub bound: usize,
    pub length_node: u32,
}

/// What the plan is made from.
pub struct ArrayContext<'a> {
    pub ir: &'a OptimizedIr,
    pub facts: &'a KnownFacts,
    pub loops: &'a LoopAnalysis,
    pub feedback: &'a Vec<ArrayFeedback>,
    /// The metadata query can guard a typed array's observable length.
    pub typed_length_guard: bool,
    /// Nodes whose emitted guarded path cannot reenter.
    pub non_reentrant: &'a Vec<bool>,
    /// The atom of the property name `length`.
    pub length_atom: u32,
}

/// The index values that range analysis proved to be below a bound at a node.
#[derive(Debug)]
pub struct BoundsProofs {
    pub proved: Vec<(usize, usize, u32)>,
}

/// An array access that feedback and the loop structure make eligible.
#[derive(Clone, Copy, Debug, PartialEq, Eq, Structural)]
pub struct Proposed {
    pub argument: u16,
    pub mode: ArrayMode,
    pub access: ArrayAccess,
    pub index: Option<usize>,
    pub result: Option<usize>,
    pub loop_header: u32,
}

/// The accessed object, the kind of access, its key and its result.
pub open spec fn access_of(operation: ScalarHeapOperation, length_atom: u32) -> Option<(
    usize,
    ArrayAccess,
    Option<usize>,
    Option<usize>,
)> {
    match operation {
        ScalarHeapOperation::GetElement { base, index, result } => Some((base, ArrayAccess::Load, Some(index), Some(result))),
        ScalarHeapOperation::PutElement { base, index } => Some((base, ArrayAccess::Store, Some(index), None)),
        ScalarHeapOperation::GetProperty { base, atom, result } => if atom == length_atom {
            Some((base, ArrayAccess::Length, None, Some(result)))
        } else {
            None
        },
        ScalarHeapOperation::PutProperty { .. } => None,
    }
}

/// The first loop with the fewest members among those selected.
pub open spec fn smallest_loop(loops: Seq<NaturalLoop>, selected: spec_fn(int) -> bool, n: nat) -> Option<int>
    decreases n,
{
    if n == 0 {
        None
    } else {
        let best = smallest_loop(loops, selected, (n - 1) as nat);
        if selected(n - 1) && (best is None || loops[n - 1].members@.len() < loops[best->Some_0].members@.len()) {
            Some(n - 1)
        } else {
            best
        }
    }
}

impl<'a> ArrayContext<'a> {
    pub open spec fn node_count(&self) -> nat {
        self.ir.nodes@.len()
    }

    pub open spec fn feedback_at(&self, pc: u32) -> Option<ArrayFeedback> {
        match first_at(|i: int| self.feedback@[i].pc == pc, self.feedback@.len()) {
            Some(i) => Some(self.feedback@[i]),
            None => None,
        }
    }

    pub open spec fn certified(&self, node: int) -> bool {
        node < self.non_reentrant@.len() && self.non_reentrant@[node]
    }

    pub open spec fn containing_loop(&self, block: u32) -> Option<int> {
        smallest_loop(
            self.loops.loops@,
            |l: int| self.loops.loops@[l].members@.contains(block),
            self.loops.loops@.len(),
        )
    }

    pub open spec fn entered_after(&self, l: int, block: u32) -> bool {
        self.loops.loops@[l].preheader matches Some(preheader) && self.loops.dominates_spec(block, preheader)
    }

    pub open spec fn dominated_loop(&self, block: u32) -> Option<int> {
        smallest_loop(self.loops.loops@, |l: int| self.entered_after(l, block), self.loops.loops@.len())
    }

    /// The loop that an access in `block` belongs to. A traversal often reads a
    /// packed array's length right before its loop: that dominating read
    /// belongs to the loop. An element access outside of any loop stands alone.
    pub open spec fn header_for(&self, access: ArrayAccess, mode: ArrayMode, block: u32) -> Option<u32> {
        match self.containing_loop(block) {
            Some(l) => Some(self.loops.loops@[l].header),
            None => if access != ArrayAccess::Length {
                Some(block)
            } else if mode == ArrayMode::Packed {
                match self.dominated_loop(block) {
                    Some(l) => Some(self.loops.loops@[l].header),
                    None => None,
                }
            } else {
                None
            },
        }
    }

    /// The lowering has a guarded form of the access. Packed stores may replace
    /// an owner or grow storage, so only typed stores have one.
    pub open spec fn lowerable(&self, access: ArrayAccess, mode: ArrayMode) -> bool {
        &&& mode != ArrayMode::Generic
        &&& access == ArrayAccess::Store ==> mode == ArrayMode::Int32 || mode == ArrayMode::Float64
        &&& access == ArrayAccess::Length ==> mode == ArrayMode::Packed || self.typed_length_guard
    }

    pub open spec fn proposal(&self, i: int) -> Option<Proposed> {
        let node = self.ir.nodes@[i];
        match node.heap_operation {
            None => None,
            Some(operation) => match (access_of(operation, self.length_atom), self.feedback_at(node.pc)) {
                (Some((base, access, index, result)), Some(site)) => {
                    match (site.only_mode, self.facts.argument_of(base), self.loops.block_of(i)) {
                        (Some(mode), Some(argument), Some(block)) => if site.access == access && site.can_specialize
                            && self.lowerable(access, mode) && self.header_for(access, mode, block) is Some {
                            Some(
                                Proposed {
                                    argument,
                                    mode,
                                    access,
                                    index,
                                    result,
                                    loop_header: self.header_for(access, mode, block)->Some_0,
                                },
                            )
                        } else {
                            None
                        },
                        _ => None,
                    }
                },
                _ => None,
            },
        }
    }

    /// Another access saw the same argument in another mode.
    pub open spec fn conflicting(&self, argument: u16, mode: ArrayMode) -> bool {
        exists|j: int|
            0 <= j < self.node_count() && (#[trigger] self.proposal(j) matches Some(other) && other.argument == argument
                && other.mode != mode)
    }

    /// Mixed modes for one argument cannot share metadata: it is dropped as a unit.
    pub open spec fn survives(&self, i: int) -> bool {
        self.proposal(i) matches Some(p) && !self.conflicting(p.argument, p.mode)
    }

    pub open spec fn in_loop_at(&self, l: int, node: int) -> bool {
        self.loops.block_of(node) matches Some(owner) && self.loops.loops@[l].members@.contains(owner)
    }

    /// Node `n` can run script: metadata must not be carried through it.
    pub open spec fn barrier(&self, n: int) -> bool {
        self.ir.nodes@[n].effect == ScalarHeapEffect::Reentrant && !self.certified(n) && !self.survives(n)
    }

    pub open spec fn loop_with_header(&self, header: u32) -> Option<int> {
        first_at(|l: int| self.loops.loops@[l].header == header, self.loops.loops@.len())
    }

    pub open spec fn loop_is_clear(&self, l: int) -> bool {
        forall|n: int| 0 <= n < self.node_count() && #[trigger] self.in_loop_at(l, n) ==> !self.barrier(n)
    }

    /// The access is part of the plan.
    pub open spec fn planned(&self, i: int) -> bool {
        &&& self.survives(i)
        &&& {
            let p = self.proposal(i)->Some_0;
            let block = self.loops.block_of(i)->Some_0;
            match self.loop_with_header(p.loop_header) {
                None => p.access != ArrayAccess::Length && p.loop_header == block,
                Some(l) => {
                    &&& self.loops.loops@[l].members@.contains(block) || p.access == ArrayAccess::Length && self.entered_after(
                        l,
                        block,
                    )
                    &&& self.loop_is_clear(l)
                },
            }
        }
    }

    /// The arguments and modes of the planned accesses among the first `n`
    /// nodes, in the order of their first use.
    pub open spec fn candidate_list(&self, n: nat) -> Seq<(u16, ArrayMode)>
        decreases n,
    {
        if n == 0 {
            Seq::empty()
        } else {
            let before = self.candidate_list((n - 1) as nat);
            if self.planned(n - 1) {
                let p = self.proposal(n - 1)->Some_0;
                if before.contains((p.argument, p.mode)) {
                    before
                } else {
                    before.push((p.argument, p.mode))
                }
            } else {
                before
            }
        }
    }

    pub open spec fn proposal_count(&self) -> nat {
        count(|i: int| self.proposal(i) is Some, self.node_count())
    }

    pub open spec fn survivor_count(&self) -> nat {
        count(|i: int| self.survives(i), self.node_count())
    }

    /// All output-sized allocations, the scan, the comparison of the proposals
    /// and the search for barriers.
    pub open spec fn plan_cost(&self) -> nat {
        self.node_count() * 8 + self.feedback@.len() * 4 + 64 + self.node_count() + self.proposal_count() * self.proposal_count()
            + self.survivor_count() * self.node_count()
    }

    pub open spec fn plannable(&self, work: int) -> bool {
        &&& self.loops.complete
        &&& work >= self.plan_cost()
        &&& self.candidate_list(self.node_count()).len() <= MAX_CANDIDATES
    }
}

pub open spec fn candidate_pairs(candidates: Seq<ArrayCandidate>) -> Seq<(u16, ArrayMode)> {
    candidates.map_values(|c: ArrayCandidate| (c.argument, c.mode))
}

/// Candidate `c` has a planned length access among the first `n` nodes.
pub open spec fn reads_length(accesses: Seq<Option<ArrayAccessPlan>>, c: int, n: int) -> bool {
    exists|i: int|
        0 <= i < n && (#[trigger] accesses[i] matches Some(a) && a.candidate == c && a.access == ArrayAccess::Length)
}

/// The access at node `i`, before bounds checks are removed.
pub open spec fn access_is(ctx: ArrayContext<'_>, candidates: Seq<(u16, ArrayMode)>, access: Option<ArrayAccessPlan>, i: int) -> bool {
    if ctx.planned(i) {
        let p = ctx.proposal(i)->Some_0;
        &&& access is Some
        &&& access->Some_0.candidate < candidates.len()
        &&& candidates[access->Some_0.candidate as int] == (p.argument, p.mode)
        &&& access->Some_0.access == p.access
        &&& access->Some_0.index == p.index
        &&& access->Some_0.result == p.result
        &&& access->Some_0.loop_header == p.loop_header
    } else {
        access is None
    }
}

/// The accesses and candidates that a plan is made of.
#[derive(Debug)]
pub struct ArrayProposal {
    pub candidates: Vec<ArrayCandidate>,
    pub accesses: Vec<Option<ArrayAccessPlan>>,
    /// The work that is left for range analysis.
    pub remaining: usize,
}

pub open spec fn accesses_are(ctx: ArrayContext<'_>, candidates: Seq<ArrayCandidate>, accesses: Seq<Option<ArrayAccessPlan>>) -> bool {
    &&& candidate_pairs(candidates) == ctx.candidate_list(ctx.node_count())
    &&& candidates.len() <= MAX_CANDIDATES
    &&& accesses.len() == ctx.node_count()
    &&& forall|i: int| 0 <= i < accesses.len() ==> access_is(ctx, candidate_pairs(candidates), #[trigger] accesses[i], i)
    &&& forall|c: int|
        0 <= c < candidates.len() ==> (#[trigger] candidates[c]).needs_length == reads_length(accesses,
            c,
            accesses.len() as int,
        )
}

pub open spec fn proposal_is(ctx: ArrayContext<'_>, work: int, p: ArrayProposal) -> bool {
    &&& accesses_are(ctx, p.candidates@, p.accesses@)
    &&& forall|i: int|
        0 <= i < p.accesses@.len() ==> (#[trigger] p.accesses@[i] matches Some(a) ==> a.requires_index_guard == (a.access
            != ArrayAccess::Length) && !a.bounds_covered_by_hoist)
    &&& p.remaining == work - ctx.plan_cost()
}

impl BoundsProofs {
    pub open spec fn proves(&self, index: usize, bound: usize, node: u32) -> bool {
        self.proved@.contains((index, bound, node))
    }

    pub fn proves_in_bounds_at(&self, index: usize, bound: usize, node: u32) -> (r: bool)
        ensures
            r == self.proves(index, bound, node),
    {
        let mut i: usize = 0;
        while i < self.proved.len()
            invariant
                i <= self.proved@.len(),
                forall|k: int| 0 <= k < i ==> self.proved@[k] != (index, bound, node),
            decreases self.proved@.len() - i,
        {
            let (a, b, c): (usize, usize, u32) = self.proved[i];
            if a == index && b == bound && c == node {
                assert(self.proved@[i as int] == (index, bound, node));
                return true;
            }
            i = i + 1;
        }
        false
    }
}

/// Node `i` reads the length of candidate `c` for the loop at `header`.
pub open spec fn length_read(accesses: Seq<Option<ArrayAccessPlan>>, c: int, header: u32, i: int) -> bool {
    accesses[i] matches Some(a) && a.candidate == c && a.loop_header == header && a.access == ArrayAccess::Length
        && a.result is Some
}

/// The only node that reads the length of candidate `c` for the loop at
/// `header`. Several reads do not identify one exact bound.
pub open spec fn sole_length(accesses: Seq<Option<ArrayAccessPlan>>, c: int, header: u32, i: int) -> bool {
    &&& 0 <= i < accesses.len()
    &&& length_read(accesses, c, header, i)
    &&& forall|j: int| 0 <= j < accesses.len() && #[trigger] length_read(accesses, c, header, j) ==> j == i
}

/// The load at node `i` is proved to stay below the length read at node `len`.
pub open spec fn load_below(
    accesses: Seq<Option<ArrayAccessPlan>>,
    ranges: BoundsProofs,
    c: int,
    header: u32,
    len: int,
    i: int,
) -> bool {
    accesses[i] matches Some(a) && a.candidate == c && a.loop_header == header && a.access == ArrayAccess::Load
        && (a.index matches Some(index) && ranges.proves(index, accesses[len]->Some_0.result->Some_0, i as u32))
}

/// The node whose length read lets the metadata of candidate `c` be hoisted out
/// of loop `l`.
pub open spec fn hoisted_length(
    loops: Seq<NaturalLoop>,
    accesses: Seq<Option<ArrayAccessPlan>>,
    ranges: BoundsProofs,
    c: int,
    l: int,
    len: int,
) -> bool {
    &&& loops[l].preheader is Some
    &&& sole_length(accesses, c, loops[l].header, len)
    &&& exists|i: int| 0 <= i < accesses.len() && #[trigger] load_below(accesses, ranges, c, loops[l].header, len, i)
}

/// The check of the load at node `i` is covered by a hoisted guard.
pub open spec fn covered(loops: Seq<NaturalLoop>, accesses: Seq<Option<ArrayAccessPlan>>, ranges: BoundsProofs, i: int) -> bool {
    exists|l: int, len: int|
        #![trigger sole_length(accesses, accesses[i]->Some_0.candidate as int, loops[l].header, len)]
        0 <= l < loops.len() && loops[l].preheader is Some && sole_length(
            accesses,
            accesses[i]->Some_0.candidate as int,
            loops[l].header,
            len,
        ) && load_below(accesses, ranges, accesses[i]->Some_0.candidate as int, loops[l].header, len, i)
}

pub open spec fn same_but_bounds(a: Option<ArrayAccessPlan>, b: Option<ArrayAccessPlan>) -> bool {
    match (a, b) {
        (Some(x), Some(y)) => x.candidate == y.candidate && x.access == y.access && x.index == y.index && x.result == y.result
            && x.loop_header == y.loop_header,
        (None, None) => true,
        _ => false,
    }
}

#[derive(Debug)]
pub struct ArrayPlan {
    pub candidates: Vec<ArrayCandidate>,
    pub accesses: Vec<Option<ArrayAccessPlan>>,
    pub hoists: Vec<ArrayLoopHoist>,
    pub invalidations: Vec<bool>,
}

/// Metadata is dropped before node `i`: planned and certified operations keep
/// it, every other write or unknown boundary does not.
pub open spec fn invalidates(ctx: ArrayContext<'_>, i: int) -> bool {
    match ctx.ir.nodes@[i].effect {
        ScalarHeapEffect::Pure => false,
        ScalarHeapEffect::Reentrant => !ctx.planned(i) && !ctx.certified(i),
        ScalarHeapEffect::FrameWrite | ScalarHeapEffect::HeapWrite => true,
    }
}

pub open spec fn hoist_is(
    loops: Seq<NaturalLoop>,
    accesses: Seq<Option<ArrayAccessPlan>>,
    ranges: BoundsProofs,
    candidates: int,
    h: ArrayLoopHoist,
) -> bool {
    exists|l: int|
        #![trigger loops[l]]
        0 <= l < loops.len() && h.candidate < candidates && hoisted_length(
            loops,
            accesses,
            ranges,
            h.candidate as int,
            l,
            h.length_node as int,
        ) && h.header == loops[l].header && Some(h.preheader) == loops[l].preheader && Some(h.bound)
            == accesses[h.length_node as int]->Some_0.result
}

/// The finished plan.
pub open spec fn plan_is(ctx: ArrayContext<'_>, ranges: BoundsProofs, plan: ArrayPlan) -> bool {
    let loops = ctx.loops.loops@;
    &&& accesses_are(ctx, plan.candidates@, plan.accesses@)
    &&& forall|i: int|
        0 <= i < plan.accesses@.len() ==> (#[trigger] plan.accesses@[i] matches Some(a) ==> a.bounds_covered_by_hoist
            == covered(loops, plan.accesses@, ranges, i) && a.requires_index_guard == (a.access != ArrayAccess::Length
            && !a.bounds_covered_by_hoist))
    &&& forall|k: int|
        0 <= k < plan.hoists@.len() ==> hoist_is(
            loops,
            plan.accesses@,
            ranges,
            plan.candidates@.len() as int,
            #[trigger] plan.hoists@[k],
        )
    &&& forall|c: int, l: int, len: int| #[trigger]
        hoisted_length(loops, plan.accesses@, ranges, c, l, len) && 0 <= c < plan.candidates@.len() && 0 <= l < loops.len()
            ==> exists|k: int|
            0 <= k < plan.hoists@.len() && (#[trigger] plan.hoists@[k]).candidate == c && plan.hoists@[k].header
                == loops[l].header && plan.hoists@[k].length_node == len
    &&& plan.invalidations@.len() == ctx.node_count()
    &&& forall|i: int| 0 <= i < ctx.node_count() ==> #[trigger] plan.invalidations@[i] == invalidates(ctx, i)
}

impl ArrayPlan {
    pub open spec fn is_default(&self) -> bool {
        self.candidates@.len() == 0 && self.accesses@.len() == 0 && self.hoists@.len() == 0 && self.invalidations@.len() == 0
    }

    pub fn empty() -> (r: Self)
        ensures
            r.is_default(),
    {
        ArrayPlan { candidates: Vec::new(), accesses: Vec::new(), hoists: Vec::new(), invalidations: Vec::new() }
    }

    pub fn candidates(&self) -> (r: &Vec<ArrayCandidate>)
        ensures
            *r == self.candidates,
    {
        &self.candidates
    }

    pub fn is_empty(&self) -> (r: bool)
        ensures
            r == (self.candidates@.len() == 0),
    {
        self.candidates.len() == 0
    }

    pub open spec fn access_at(&self, node: u32) -> Option<ArrayAccessPlan> {
        if node < self.accesses@.len() {
            self.accesses@[node as int]
        } else {
            None
        }
    }

    pub fn access(&self, node: u32) -> (r: Option<ArrayAccessPlan>)
        ensures
            r == self.access_at(node),
    {
        if (node as usize) < self.accesses.len() {
            self.accesses[node as usize]
        } else {
            None
        }
    }

    pub open spec fn hoists_length(&self, node: u32) -> bool {
        exists|k: int| 0 <= k < self.hoists@.len() && (#[trigger] self.hoists@[k]).length_node == node
    }

    /// The node is lowered to a guarded leaf: any planned element access, and a
    /// length read whose metadata is hoisted.
    pub fn guarded_leaf(&self, node: u32) -> (r: bool)
        ensures
            r == match self.access_at(node) {
                Some(a) => a.access != ArrayAccess::Length || self.hoists_length(node),
                None => false,
            },
    {
        match self.access(node) {
            None => false,
            Some(a) => {
                if a.access != ArrayAccess::Length {
                    return true;
                }
                let mut k: usize = 0;
                while k < self.hoists.len()
                    invariant
                        k <= self.hoists@.len(),
                        self.access_at(node) == Some(a),
                        a.access == ArrayAccess::Length,
                        forall|j: int| 0 <= j < k ==> (#[trigger] self.hoists@[j]).length_node != node,
                    decreases self.hoists@.len() - k,
                {
                    if self.hoists[k].length_node == node {
                        assert(self.hoists@[k as int].length_node == node);
                        return true;
                    }
                    k = k + 1;
                }
                false
            },
        }
    }

    pub fn hoists(&self) -> (r: &Vec<ArrayLoopHoist>)
        ensures
            *r == self.hoists,
    {
        &self.hoists
    }

    /// Whether metadata is dropped before a node; a node without an entry
    /// drops it.
    pub fn invalidates_before(&self, node: u32) -> (r: bool)
        ensures
            r == (if node < self.invalidations@.len() { self.invalidations@[node as int] } else { true }),
    {
        if (node as usize) < self.invalidations.len() {
            self.invalidations[node as usize]
        } else {
            true
        }
    }

    /// Conservative retained-plus-temporary allocation bound.
    pub fn bytes_upper_bound(ir: &OptimizedIr) -> (r: usize)
        ensures
            r == (if ir.nodes@.len() * 160 + 1024 <= usize::MAX { ir.nodes@.len() * 160 + 1024 } else { usize::MAX as nat }),
    {
        let total: u128 = ir.nodes.len() as u128 * 160 + 1024;
        if total <= usize::MAX as u128 {
            total as usize
        } else {
            usize::MAX
        }
    }
}

/// A load keeps its index check or is covered by a hoisted guard, never both
/// and never neither; a store always keeps its check.
pub proof fn index_checks_are_kept_or_covered(ctx: ArrayContext<'_>, ranges: BoundsProofs, plan: ArrayPlan, i: int)
    requires
        plan_is(ctx, ranges, plan),
        0 <= i < plan.accesses@.len(),
        plan.accesses@[i] is Some,
    ensures
        plan.accesses@[i]->Some_0.access == ArrayAccess::Load ==> plan.accesses@[i]->Some_0.requires_index_guard
            != plan.accesses@[i]->Some_0.bounds_covered_by_hoist,
        plan.accesses@[i]->Some_0.access == ArrayAccess::Store ==> plan.accesses@[i]->Some_0.requires_index_guard
            && !plan.accesses@[i]->Some_0.bounds_covered_by_hoist,
        plan.accesses@[i]->Some_0.access == ArrayAccess::Length ==> !plan.accesses@[i]->Some_0.requires_index_guard
            && !plan.accesses@[i]->Some_0.bounds_covered_by_hoist,
{
    let a = plan.accesses@[i]->Some_0;
    if a.access != ArrayAccess::Load {
        assert(!covered(ctx.loops.loops@, plan.accesses@, ranges, i));
    }
}

/// Metadata is dropped before every node that can run script or alter storage,
/// unless the plan or the lowering vouches for the node.
pub proof fn unvouched_nodes_drop_metadata(ctx: ArrayContext<'_>, ranges: BoundsProofs, plan: ArrayPlan, i: int)
    requires
        plan_is(ctx, ranges, plan),
        0 <= i < ctx.node_count(),
        ctx.ir.nodes@[i].effect != ScalarHeapEffect::Pure,
        ctx.ir.nodes@[i].effect == ScalarHeapEffect::Reentrant ==> !ctx.certified(i) && plan.accesses@[i] is None,
    ensures
        plan.invalidations@[i],
{
    assert(access_is(ctx, candidate_pairs(plan.candidates@), plan.accesses@[i], i));
    assert(plan.invalidations@[i] == invalidates(ctx, i));
}

/// A covered load has a hoist of its own array for its own loop.
pub proof fn covered_loads_are_hoisted(ctx: ArrayContext<'_>, ranges: BoundsProofs, plan: ArrayPlan, i: int)
    requires
        plan_is(ctx, ranges, plan),
        0 <= i < plan.accesses@.len(),
        plan.accesses@[i] is Some,
        plan.accesses@[i]->Some_0.bounds_covered_by_hoist,
    ensures
        exists|k: int|
            0 <= k < plan.hoists@.len() && (#[trigger] plan.hoists@[k]).candidate == plan.accesses@[i]->Some_0.candidate
                && plan.hoists@[k].header == plan.accesses@[i]->Some_0.loop_header,
{
    let loops = ctx.loops.loops@;
    let a = plan.accesses@[i]->Some_0;
    assert(covered(loops, plan.accesses@, ranges, i));
    let (l, len) = choose|l: int, len: int|
        #![trigger sole_length(plan.accesses@, plan.accesses@[i]->Some_0.candidate as int, loops[l].header, len)]
        0 <= l < loops.len() && loops[l].preheader is Some && sole_length(
            plan.accesses@,
            plan.accesses@[i]->Some_0.candidate as int,
            loops[l].header,
            len,
        ) && load_below(plan.accesses@, ranges, plan.accesses@[i]->Some_0.candidate as int, loops[l].header, len, i);
    assert(hoisted_length(loops, plan.accesses@, ranges, a.candidate as int, l, len));
    assert(access_is(ctx, candidate_pairs(plan.candidates@), plan.accesses@[i], i));
}

/// A hoist guards an array whose length the plan reads, before the loop that it
/// is hoisted out of.
pub proof fn hoists_have_a_length_read(ctx: ArrayContext<'_>, ranges: BoundsProofs, plan: ArrayPlan, k: int)
    requires
        plan_is(ctx, ranges, plan),
        0 <= k < plan.hoists@.len(),
    ensures
        plan.access_at(plan.hoists@[k].length_node) is Some,
        plan.access_at(plan.hoists@[k].length_node)->Some_0.access == ArrayAccess::Length,
        plan.access_at(plan.hoists@[k].length_node)->Some_0.candidate == plan.hoists@[k].candidate,
        plan.access_at(plan.hoists@[k].length_node)->Some_0.loop_header == plan.hoists@[k].header,
        plan.candidates@[plan.hoists@[k].candidate as int].needs_length,
{
    let h = plan.hoists@[k];
    let loops = ctx.loops.loops@;
    assert(hoist_is(loops, plan.accesses@, ranges, plan.candidates@.len() as int, h));
    let l = choose|l: int|
        #![trigger loops[l]]
        0 <= l < loops.len() && h.candidate < plan.candidates@.len() && hoisted_length(
            loops,
            plan.accesses@,
            ranges,
            h.candidate as int,
            l,
            h.length_node as int,
        ) && h.header == loops[l].header && Some(h.preheader) == loops[l].preheader && Some(h.bound)
            == plan.accesses@[h.length_node as int]->Some_0.result;
    assert(length_read(plan.accesses@, h.candidate as int, loops[l].header, h.length_node as int));
    assert(plan.accesses@[h.length_node as int] is Some);
    assert(reads_length(plan.accesses@, h.candidate as int, plan.accesses@.len() as int));
}

/// Nothing planned is carried through an operation of its loop that can run
/// script.
pub proof fn planned_loops_have_no_barrier(ctx: ArrayContext<'_>, i: int, l: int, n: int)
    requires
        ctx.planned(i),
        ctx.loop_with_header(ctx.proposal(i)->Some_0.loop_header) == Some(l),
        0 <= n < ctx.node_count(),
        ctx.in_loop_at(l, n),
        ctx.ir.nodes@[n].effect == ScalarHeapEffect::Reentrant,
    ensures
        ctx.certified(n) || ctx.survives(n),
{
    assert(!ctx.barrier(n));
}

impl<'a> ArrayContext<'a> {
    fn site_at(&self, pc: u32) -> (r: Option<ArrayFeedback>)
        ensures
            r == self.feedback_at(pc),
    {
        let ghost f = |i: int| self.feedback@[i].pc == pc;
        let mut i: usize = 0;
        while i < self.feedback.len()
            invariant
                i <= self.feedback@.len(),
                f == (|i: int| self.feedback@[i].pc == pc),
                forall|k: int| 0 <= k < i ==> !#[trigger] f(k),
            decreases self.feedback@.len() - i,
        {
            if self.feedback[i].pc == pc {
                proof {
                    first_at_is(f, self.feedback@.len(), i as int);
                }
                return Some(self.feedback[i]);
            }
            i = i + 1;
        }
        proof {
            first_at_none(f, self.feedback@.len());
        }
        None
    }

    fn is_certified(&self, node: usize) -> (r: bool)
        ensures
            r == self.certified(node as int),
    {
        node < self.non_reentrant.len() && self.non_reentrant[node]
    }

    fn find_containing(&self, block: u32) -> (r: Option<usize>)
        ensures
            match r {
                Some(l) => self.containing_loop(block) == Some(l as int) && l < self.loops.loops@.len(),
                None => self.containing_loop(block) is None,
            },
    {
        let ghost f = |l: int| self.loops.loops@[l].members@.contains(block);
        let mut best: Option<usize> = None;
        let mut l: usize = 0;
        while l < self.loops.loops.len()
            invariant
                l <= self.loops.loops@.len(),
                f == (|l: int| self.loops.loops@[l].members@.contains(block)),
                match best {
                    Some(b) => smallest_loop(self.loops.loops@, f, l as nat) == Some(b as int) && b < l,
                    None => smallest_loop(self.loops.loops@, f, l as nat) is None,
                },
            decreases self.loops.loops@.len() - l,
        {
            assert(f(l as int) == self.loops.loops@[l as int].members@.contains(block));
            if self.loops.loops[l].contains_block(block) {
                let better: bool = match best {
                    None => true,
                    Some(b) => self.loops.loops[l].members.len() < self.loops.loops[b].members.len(),
                };
                if better {
                    best = Some(l);
                }
            }
            l = l + 1;
        }
        best
    }

    fn is_entered_after(&self, l: usize, block: u32) -> (r: bool)
        requires
            l < self.loops.loops@.len(),
        ensures
            r == self.entered_after(l as int, block),
    {
        match self.loops.loops[l].preheader {
            Some(preheader) => self.loops.dominates(block, preheader),
            None => false,
        }
    }

    fn find_dominated(&self, block: u32) -> (r: Option<usize>)
        ensures
            match r {
                Some(l) => self.dominated_loop(block) == Some(l as int) && l < self.loops.loops@.len(),
                None => self.dominated_loop(block) is None,
            },
    {
        let ghost f = |l: int| self.entered_after(l, block);
        let mut best: Option<usize> = None;
        let mut l: usize = 0;
        while l < self.loops.loops.len()
            invariant
                l <= self.loops.loops@.len(),
                f == (|l: int| self.entered_after(l, block)),
                match best {
                    Some(b) => smallest_loop(self.loops.loops@, f, l as nat) == Some(b as int) && b < l,
                    None => smallest_loop(self.loops.loops@, f, l as nat) is None,
                },
            decreases self.loops.loops@.len() - l,
        {
            assert(f(l as int) == self.entered_after(l as int, block));
            if self.is_entered_after(l, block) {
                let better: bool = match best {
                    None => true,
                    Some(b) => self.loops.loops[l].members.len() < self.loops.loops[b].members.len(),
                };
                if better {
                    best = Some(l);
                }
            }
            l = l + 1;
        }
        best
    }

    fn find_header(&self, access: ArrayAccess, mode: ArrayMode, block: u32) -> (r: Option<u32>)
        ensures
            r == self.header_for(access, mode, block),
    {
        match self.find_containing(block) {
            Some(l) => Some(self.loops.loops[l].header),
            None => if access != ArrayAccess::Length {
                Some(block)
            } else if mode == ArrayMode::Packed {
                match self.find_dominated(block) {
                    Some(l) => Some(self.loops.loops[l].header),
                    None => None,
                }
            } else {
                None
            },
        }
    }

    fn propose_node(&self, i: usize) -> (r: Option<Proposed>)
        requires
            i < self.ir.nodes@.len(),
            i <= u32::MAX,
        ensures
            r == self.proposal(i as int),
    {
        let node = &self.ir.nodes[i];
        let (base, access, index, result) = match node.heap_operation {
            None => return None,
            Some(operation) => match operation {
                ScalarHeapOperation::GetElement { base, index, result } => (
                    base,
                    ArrayAccess::Load,
                    Some(index),
                    Some(result),
                ),
                ScalarHeapOperation::PutElement { base, index } => (base, ArrayAccess::Store, Some(index), None),
                ScalarHeapOperation::GetProperty { base, atom, result } => {
                    if atom != self.length_atom {
                        return None;
                    }
                    (base, ArrayAccess::Length, None, Some(result))
                },
                ScalarHeapOperation::PutProperty { .. } => return None,
            },
        };
        let site: ArrayFeedback = match self.site_at(node.pc) {
            Some(site) => site,
            None => return None,
        };
        let mode: ArrayMode = match site.only_mode {
            Some(mode) => mode,
            None => return None,
        };
        let argument: u16 = match self.facts.entry_argument(base) {
            Some(argument) => argument,
            None => return None,
        };
        let block: u32 = match self.loops.block_for_node(i as u32) {
            Some(block) => block,
            None => return None,
        };
        let lowerable: bool = mode != ArrayMode::Generic && (access != ArrayAccess::Store || mode == ArrayMode::Int32 || mode
            == ArrayMode::Float64) && (access != ArrayAccess::Length || mode == ArrayMode::Packed || self.typed_length_guard);
        if site.access != access || !site.can_specialize || !lowerable {
            return None;
        }
        match self.find_header(access, mode, block) {
            Some(loop_header) => Some(Proposed { argument, mode, access, index, result, loop_header }),
            None => None,
        }
    }

    fn find_loop(&self, header: u32) -> (r: Option<usize>)
        ensures
            match r {
                Some(l) => self.loop_with_header(header) == Some(l as int) && l < self.loops.loops@.len(),
                None => self.loop_with_header(header) is None,
            },
    {
        let ghost f = |l: int| self.loops.loops@[l].header == header;
        let mut l: usize = 0;
        while l < self.loops.loops.len()
            invariant
                l <= self.loops.loops@.len(),
                f == (|l: int| self.loops.loops@[l].header == header),
                forall|k: int| 0 <= k < l ==> !#[trigger] f(k),
            decreases self.loops.loops@.len() - l,
        {
            if self.loops.loops[l].header == header {
                proof {
                    first_at_is(f, self.loops.loops@.len(), l as int);
                }
                return Some(l);
            }
            l = l + 1;
        }
        proof {
            first_at_none(f, self.loops.loops@.len());
        }
        None
    }

    fn is_clear(&self, l: usize, survivors: &Vec<bool>) -> (r: bool)
        requires
            l < self.loops.loops@.len(),
            self.ir.nodes@.len() <= u32::MAX,
            survivors@.len() == self.node_count(),
            forall|i: int| 0 <= i < self.node_count() ==> #[trigger] survivors@[i] == self.survives(i),
        ensures
            r == self.loop_is_clear(l as int),
    {
        let mut n: usize = 0;
        while n < self.ir.nodes.len()
            invariant
                n <= self.ir.nodes@.len(),
                l < self.loops.loops@.len(),
                self.ir.nodes@.len() <= u32::MAX,
                survivors@.len() == self.node_count(),
                forall|i: int| 0 <= i < self.node_count() ==> #[trigger] survivors@[i] == self.survives(i),
                forall|k: int| 0 <= k < n && #[trigger] self.in_loop_at(l as int, k) ==> !self.barrier(k),
            decreases self.ir.nodes@.len() - n,
        {
            let inside: bool = match self.loops.block_for_node(n as u32) {
                Some(owner) => self.loops.loops[l].contains_block(owner),
                None => false,
            };
            assert(inside == self.in_loop_at(l as int, n as int));
            assert(survivors@[n as int] == self.survives(n as int));
            if inside && self.ir.nodes[n].effect == ScalarHeapEffect::Reentrant && !self.is_certified(n) && !survivors[n] {
                assert(self.barrier(n as int));
                return false;
            }
            n = n + 1;
        }
        true
    }

    fn is_planned(&self, i: usize, proposal: &Option<Proposed>, survivors: &Vec<bool>) -> (r: bool)
        requires
            i < self.ir.nodes@.len() <= u32::MAX,
            *proposal == self.proposal(i as int),
            survivors@.len() == self.node_count(),
            forall|k: int| 0 <= k < self.node_count() ==> #[trigger] survivors@[k] == self.survives(k),
        ensures
            r == self.planned(i as int),
    {
        assert(survivors@[i as int] == self.survives(i as int));
        if !survivors[i] {
            return false;
        }
        match (proposal, self.loops.block_for_node(i as u32)) {
            (Some(p), Some(block)) => match self.find_loop(p.loop_header) {
                None => p.access != ArrayAccess::Length && p.loop_header == block,
                Some(l) => (self.loops.loops[l].contains_block(block) || p.access == ArrayAccess::Length
                    && self.is_entered_after(l, block)) && self.is_clear(l, survivors),
            },
            _ => false,
        }
    }

    fn scan(&self) -> (r: (Vec<Option<Proposed>>, Vec<usize>))
        requires
            self.ir.nodes@.len() <= u32::MAX,
        ensures
            r.0@.len() == self.node_count(),
            forall|i: int| 0 <= i < self.node_count() ==> #[trigger] r.0@[i] == self.proposal(i),
            r.1@.len() == self.proposal_count(),
            forall|q: int| 0 <= q < r.1@.len() ==> #[trigger] r.1@[q] < self.node_count(),
            forall|j: int| 0 <= j < self.node_count() && (#[trigger] self.proposal(j)) is Some ==> r.1@.contains(j as usize),
    {
        let ghost f = |i: int| self.proposal(i) is Some;
        let mut proposals: Vec<Option<Proposed>> = Vec::new();
        let mut ids: Vec<usize> = Vec::new();
        let mut i: usize = 0;
        while i < self.ir.nodes.len()
            invariant
                self.ir.nodes@.len() <= u32::MAX,
                i <= self.ir.nodes@.len(),
                f == (|i: int| self.proposal(i) is Some),
                proposals@.len() == i,
                forall|k: int| 0 <= k < i ==> #[trigger] proposals@[k] == self.proposal(k),
                ids@.len() == count(f, i as nat),
                forall|q: int| 0 <= q < ids@.len() ==> #[trigger] ids@[q] < i,
                forall|j: int| 0 <= j < i && (#[trigger] self.proposal(j)) is Some ==> ids@.contains(j as usize),
            decreases self.ir.nodes@.len() - i,
        {
            let p: Option<Proposed> = self.propose_node(i);
            let ghost before = ids@;
            if p.is_some() {
                ids.push(i);
            }
            proposals.push(p);
            proof {
                assert(f(i as int) == (p is Some));
                assert forall|j: int| 0 <= j < i + 1 && (#[trigger] self.proposal(j)) is Some implies ids@.contains(
                    j as usize,
                ) by {
                    if j < i {
                        assert(before.contains(j as usize));
                        let q = choose|q: int| 0 <= q < before.len() && before[q] == j as usize;
                        assert(ids@[q] == j as usize);
                    } else {
                        assert(ids@[before.len() as int] == i);
                    }
                }
            }
            i = i + 1;
        }
        (proposals, ids)
    }

    fn has_conflict(&self, argument: u16, mode: ArrayMode, proposals: &Vec<Option<Proposed>>, ids: &Vec<usize>) -> (r: bool)
        requires
            proposals@.len() == self.node_count(),
            forall|i: int| 0 <= i < self.node_count() ==> #[trigger] proposals@[i] == self.proposal(i),
            forall|q: int| 0 <= q < ids@.len() ==> #[trigger] ids@[q] < self.node_count(),
            forall|j: int| 0 <= j < self.node_count() && (#[trigger] self.proposal(j)) is Some ==> ids@.contains(j as usize),
        ensures
            r == self.conflicting(argument, mode),
    {
        let total: usize = proposals.len();
        let mut q: usize = 0;
        while q < ids.len()
            invariant
                q <= ids@.len(),
                proposals@.len() == self.node_count(),
                forall|i: int| 0 <= i < self.node_count() ==> #[trigger] proposals@[i] == self.proposal(i),
                forall|k: int| 0 <= k < ids@.len() ==> #[trigger] ids@[k] < self.node_count(),
                forall|k: int|
                    0 <= k < q ==> !(self.proposal(#[trigger] ids@[k] as int) matches Some(other) && other.argument == argument
                        && other.mode != mode),
            decreases ids@.len() - q,
        {
            assert(ids@[q as int] < self.node_count());
            assert(proposals@[ids@[q as int] as int] == self.proposal(ids@[q as int] as int));
            if let Some(other) = proposals[ids[q]] {
                if other.argument == argument && other.mode != mode {
                    assert(self.proposal(ids@[q as int] as int) is Some);
                    return true;
                }
            }
            q = q + 1;
        }
        proof {
            if self.conflicting(argument, mode) {
                let j = choose|j: int|
                    0 <= j < self.node_count() && (#[trigger] self.proposal(j) matches Some(other) && other.argument
                        == argument && other.mode != mode);
                assert(j < total);
                assert(ids@.contains(j as usize));
                let k = choose|k: int| 0 <= k < ids@.len() && ids@[k] == j as usize;
                assert(self.proposal(ids@[k] as int) is Some);
            }
        }
        false
    }

    fn survivors(&self, proposals: &Vec<Option<Proposed>>, ids: &Vec<usize>) -> (r: (Vec<bool>, usize))
        requires
            proposals@.len() == self.node_count(),
            forall|i: int| 0 <= i < self.node_count() ==> #[trigger] proposals@[i] == self.proposal(i),
            forall|q: int| 0 <= q < ids@.len() ==> #[trigger] ids@[q] < self.node_count(),
            forall|j: int| 0 <= j < self.node_count() && (#[trigger] self.proposal(j)) is Some ==> ids@.contains(j as usize),
        ensures
            r.0@.len() == self.node_count(),
            forall|i: int| 0 <= i < self.node_count() ==> #[trigger] r.0@[i] == self.survives(i),
            r.1 == self.survivor_count(),
    {
        let ghost f = |i: int| self.survives(i);
        let mut flags: Vec<bool> = Vec::new();
        let mut kept: usize = 0;
        let mut i: usize = 0;
        while i < proposals.len()
            invariant
                i <= proposals@.len(),
                f == (|i: int| self.survives(i)),
                proposals@.len() == self.node_count(),
                forall|k: int| 0 <= k < self.node_count() ==> #[trigger] proposals@[k] == self.proposal(k),
                forall|q: int| 0 <= q < ids@.len() ==> #[trigger] ids@[q] < self.node_count(),
                forall|j: int|
                    0 <= j < self.node_count() && (#[trigger] self.proposal(j)) is Some ==> ids@.contains(j as usize),
                flags@.len() == i,
                forall|k: int| 0 <= k < i ==> #[trigger] flags@[k] == self.survives(k),
                kept == count(f, i as nat),
                kept <= i,
            decreases proposals@.len() - i,
        {
            assert(proposals@[i as int] == self.proposal(i as int));
            let alive: bool = match proposals[i] {
                Some(p) => !self.has_conflict(p.argument, p.mode, proposals, ids),
                None => false,
            };
            assert(f(i as int) == alive);
            if alive {
                kept = kept + 1;
            }
            flags.push(alive);
            i = i + 1;
        }
        (flags, kept)
    }

    /// Selects the accesses and their arrays, where the work suffices and the
    /// arrays are not too many.
    pub fn propose(&self, work: usize) -> (r: Option<ArrayProposal>)
        requires
            self.ir.nodes@.len() <= u32::MAX,
        ensures
            r is Some <==> self.plannable(work as int),
            r matches Some(p) ==> proposal_is(*self, work as int, p),
    {
        if !self.loops.complete {
            return None;
        }
        let n: usize = self.ir.nodes.len();
        let scan_cost: u128 = n as u128 * 9 + self.feedback.len() as u128 * 4 + 64;
        let ghost pairs = self.proposal_count() * self.proposal_count();
        let ghost effects = self.survivor_count() * self.node_count();
        if scan_cost > work as u128 {
            return None;
        }
        let left: usize = work - scan_cost as usize;
        let (proposals, ids) = self.scan();
        let conflict_cost: u128 = product(ids.len(), ids.len());
        if conflict_cost > left as u128 {
            return None;
        }
        let left: usize = left - conflict_cost as usize;
        let (survivors, kept) = self.survivors(&proposals, &ids);
        let effect_cost: u128 = product(kept, n);
        if effect_cost > left as u128 {
            return None;
        }
        let remaining: usize = left - effect_cost as usize;
        let mut candidates: Vec<ArrayCandidate> = Vec::new();
        let mut accesses: Vec<Option<ArrayAccessPlan>> = Vec::new();
        let mut i: usize = 0;
        assert(candidate_pairs(candidates@) =~= self.candidate_list(0));
        while i < n
            invariant
                n == self.ir.nodes@.len() <= u32::MAX,
                i <= n,
                remaining == work - self.plan_cost(),
                self.loops.complete,
                proposals@.len() == n,
                forall|k: int| 0 <= k < n ==> #[trigger] proposals@[k] == self.proposal(k),
                survivors@.len() == n,
                forall|k: int| 0 <= k < n ==> #[trigger] survivors@[k] == self.survives(k),
                candidate_pairs(candidates@) == self.candidate_list(i as nat),
                candidates@.len() <= MAX_CANDIDATES,
                accesses@.len() == i,
                forall|k: int| 0 <= k < i ==> access_is(*self, candidate_pairs(candidates@), #[trigger] accesses@[k], k),
                forall|k: int|
                    0 <= k < i ==> (#[trigger] accesses@[k] matches Some(a) ==> a.requires_index_guard == (a.access
                        != ArrayAccess::Length) && !a.bounds_covered_by_hoist),
                forall|c: int|
                    0 <= c < candidates@.len() ==> (#[trigger] candidates@[c]).needs_length == reads_length(accesses@,
                        c,
                        i as int,
                    ),
            decreases n - i,
        {
            assert(proposals@[i as int] == self.proposal(i as int));
            let ghost pairs0 = candidate_pairs(candidates@);
            let ghost candidates0 = candidates@;
            let ghost accesses0 = accesses@;
            let planned: bool = self.is_planned(i, &proposals[i], &survivors);
            match (planned, proposals[i]) {
                (true, Some(p)) => {
                    let mut c: usize = 0;
                    while c < candidates.len() && !(candidates[c].argument == p.argument && candidates[c].mode == p.mode)
                        invariant
                            c <= candidates@.len(),
                            forall|k: int|
                                0 <= k < c ==> !((#[trigger] candidates@[k]).argument == p.argument && candidates@[k].mode
                                    == p.mode),
                        decreases candidates@.len() - c,
                    {
                        c = c + 1;
                    }
                    proof {
                        assert(pairs0.contains((p.argument, p.mode)) == (c < candidates@.len())) by {
                            if c < candidates@.len() {
                                assert(pairs0[c as int] == (p.argument, p.mode));
                            } else if pairs0.contains((p.argument, p.mode)) {
                                let k = choose|k: int| 0 <= k < pairs0.len() && pairs0[k] == (p.argument, p.mode);
                                assert(candidates@[k].argument == p.argument && candidates@[k].mode == p.mode);
                            }
                        }
                    }
                    if c == candidates.len() {
                        if c == MAX_CANDIDATES {
                            proof {
                                list_grows(*self, (i + 1) as nat, n as nat);
                                assert(self.candidate_list((i + 1) as nat).len() == c + 1);
                            }
                            return None;
                        }
                        candidates.push(ArrayCandidate { argument: p.argument, mode: p.mode, needs_length: false });
                        assert(candidate_pairs(candidates@) =~= pairs0.push((p.argument, p.mode)));
                    }
                    if p.access == ArrayAccess::Length {
                        let mut candidate: ArrayCandidate = candidates[c];
                        candidate.needs_length = true;
                        candidates.set(c, candidate);
                    }
                    accesses.push(
                        Some(
                            ArrayAccessPlan {
                                candidate: c,
                                access: p.access,
                                index: p.index,
                                result: p.result,
                                requires_index_guard: p.access != ArrayAccess::Length,
                                bounds_covered_by_hoist: false,
                                loop_header: p.loop_header,
                            },
                        ),
                    );
                    assert(candidate_pairs(candidates@) =~= self.candidate_list((i + 1) as nat));
                },
                _ => {
                    accesses.push(None);
                },
            }
            proof {
                let pairs1 = candidate_pairs(candidates@);
                assert forall|k: int| 0 <= k < i + 1 implies access_is(*self, pairs1, #[trigger] accesses@[k], k) by {
                    if k < i {
                        assert(access_is(*self, pairs0, accesses0[k], k));
                    }
                }
                assert forall|c: int| 0 <= c < candidates@.len() implies (#[trigger] candidates@[c]).needs_length
                    == reads_length(accesses@, c, i + 1) by {
                    reads_length_step(accesses0, accesses@[i as int], c, i as int);
                    assert(accesses@ =~= accesses0.push(accesses@[i as int]));
                    if c < candidates0.len() {
                        assert(candidates0[c].needs_length == reads_length(accesses0, c, i as int));
                    } else {
                        if reads_length(accesses0, c, i as int) {
                            let k = choose|k: int|
                                0 <= k < i && (#[trigger] accesses0[k] matches Some(a) && a.candidate == c && a.access
                                    == ArrayAccess::Length);
                            assert(access_is(*self, pairs0, accesses0[k], k));
                        }
                    }
                }
            }
            i = i + 1;
        }
        Some(ArrayProposal { candidates, accesses, remaining })
    }
}

proof fn reads_length_step(accesses: Seq<Option<ArrayAccessPlan>>, next: Option<ArrayAccessPlan>, c: int, n: int)
    requires
        n == accesses.len(),
    ensures
        reads_length(accesses.push(next), c, n + 1) == (reads_length(accesses, c, n) || (next matches Some(a)
            && a.candidate == c && a.access == ArrayAccess::Length)),
{
    let after = accesses.push(next);
    if reads_length(accesses, c, n) {
        let k = choose|k: int|
            0 <= k < n && (#[trigger] accesses[k] matches Some(a) && a.candidate == c && a.access == ArrayAccess::Length);
        assert(after[k] == accesses[k]);
    }
    if next is Some && next->Some_0.candidate == c && next->Some_0.access == ArrayAccess::Length {
        assert(after[n] == next);
    }
    if reads_length(after, c, n + 1) {
        let k = choose|k: int|
            0 <= k < n + 1 && (#[trigger] after[k] matches Some(a) && a.candidate == c && a.access == ArrayAccess::Length);
        if k < n {
            assert(accesses[k] == after[k]);
        }
    }
}

proof fn list_grows(ctx: ArrayContext<'_>, a: nat, b: nat)
    requires
        a <= b,
    ensures
        ctx.candidate_list(a).len() <= ctx.candidate_list(b).len(),
    decreases b,
{
    if a < b {
        list_grows(ctx, a, (b - 1) as nat);
    }
}

fn product(a: usize, b: usize) -> (r: u128)
    ensures
        r == a * b,
{
    assert(a * b <= 0xffff_ffff_ffff_ffff * 0xffff_ffff_ffff_ffff) by (nonlinear_arith)
        requires
            0 <= a <= 0xffff_ffff_ffff_ffff,
            0 <= b <= 0xffff_ffff_ffff_ffff,
    ;
    a as u128 * b as u128
}

/// Some loop before `n` covers the check of the load at node `i`.
spec fn covered_before(loops: Seq<NaturalLoop>, base: Seq<Option<ArrayAccessPlan>>, ranges: BoundsProofs, i: int, n: int) -> bool {
    exists|l: int, len: int|
        #![trigger sole_length(base, base[i]->Some_0.candidate as int, loops[l].header, len)]
        0 <= l < n && loops[l].preheader is Some && sole_length(
            base,
            base[i]->Some_0.candidate as int,
            loops[l].header,
            len,
        ) && load_below(base, ranges, base[i]->Some_0.candidate as int, loops[l].header, len, i)
}

/// The accesses after candidates before `c`, and the first `l` loops for `c`.
spec fn covering(
    loops: Seq<NaturalLoop>,
    base: Seq<Option<ArrayAccessPlan>>,
    ranges: BoundsProofs,
    accesses: Seq<Option<ArrayAccessPlan>>,
    c: int,
    l: int,
) -> bool {
    &&& accesses.len() == base.len()
    &&& forall|i: int| 0 <= i < base.len() ==> same_but_bounds(#[trigger] accesses[i], base[i])
    &&& forall|i: int|
        0 <= i < base.len() ==> (#[trigger] accesses[i] matches Some(a) ==> {
            &&& a.requires_index_guard == (a.access != ArrayAccess::Length && !a.bounds_covered_by_hoist)
            &&& a.bounds_covered_by_hoist == (if a.candidate < c {
                covered_before(loops, base, ranges, i, loops.len() as int)
            } else if a.candidate == c {
                covered_before(loops, base, ranges, i, l)
            } else {
                false
            })
        })
}

spec fn pair_done(c: int, l: int, c2: int, l2: int) -> bool {
    c2 < c || c2 == c && l2 < l
}

spec fn hoists_cover(
    loops: Seq<NaturalLoop>,
    base: Seq<Option<ArrayAccessPlan>>,
    ranges: BoundsProofs,
    hoists: Seq<ArrayLoopHoist>,
    candidates: int,
    c: int,
    l: int,
) -> bool {
    &&& forall|k: int| 0 <= k < hoists.len() ==> hoist_is(loops, base, ranges, candidates, #[trigger] hoists[k])
    &&& forall|c2: int, l2: int, len: int| #[trigger]
        hoisted_length(loops, base, ranges, c2, l2, len) && 0 <= c2 < candidates && 0 <= l2 < loops.len() && pair_done(
            c,
            l,
            c2,
            l2,
        ) ==> exists|k: int|
            0 <= k < hoists.len() && (#[trigger] hoists[k]).candidate == c2 && hoists[k].header == loops[l2].header
                && hoists[k].length_node == len
}

proof fn same_lengths(a: Seq<Option<ArrayAccessPlan>>, b: Seq<Option<ArrayAccessPlan>>, ranges: BoundsProofs)
    requires
        a.len() == b.len(),
        forall|i: int| 0 <= i < a.len() ==> same_but_bounds(#[trigger] a[i], b[i]),
    ensures
        forall|c: int, h: u32, i: int| 0 <= i < a.len() ==> #[trigger] length_read(a, c, h, i) == length_read(b, c, h, i),
        forall|c: int, h: u32, i: int| #[trigger] sole_length(a, c, h, i) == sole_length(b, c, h, i),
        forall|c: int, h: u32, len: int, i: int|
            0 <= i < a.len() && 0 <= len < a.len() ==> #[trigger] load_below(a, ranges, c, h, len, i) == load_below(
                b,
                ranges,
                c,
                h,
                len,
                i,
            ),
{
    assert forall|c: int, h: u32, i: int| 0 <= i < a.len() implies #[trigger] length_read(a, c, h, i) == length_read(b, c, h, i) by {
        assert(same_but_bounds(a[i], b[i]));
    }
    assert forall|c: int, h: u32, i: int| #[trigger] sole_length(a, c, h, i) == sole_length(b, c, h, i) by {
        if sole_length(a, c, h, i) {
            assert(length_read(a, c, h, i));
            assert forall|j: int| 0 <= j < b.len() && #[trigger] length_read(b, c, h, j) implies j == i by {
                assert(length_read(a, c, h, j));
            }
        }
        if sole_length(b, c, h, i) {
            assert(length_read(a, c, h, i));
        }
    }
    assert forall|c: int, h: u32, len: int, i: int| 0 <= i < a.len() && 0 <= len < a.len() implies #[trigger] load_below(
        a,
        ranges,
        c,
        h,
        len,
        i,
    ) == load_below(b, ranges, c, h, len, i) by {
        assert(same_but_bounds(a[i], b[i]));
        assert(same_but_bounds(a[len], b[len]));
    }
}

/// The node of the only length read, where there is exactly one.
fn find_sole_length(accesses: &Vec<Option<ArrayAccessPlan>>, c: usize, header: u32) -> (r: Option<(usize, usize)>)
    ensures
        match r {
            Some((i, bound)) => sole_length(accesses@, c as int, header, i as int) && accesses@[i as int]->Some_0.result == Some(
                bound,
            ),
            None => forall|i: int| !#[trigger] sole_length(accesses@, c as int, header, i),
        },
{
    let mut found: Option<(usize, usize)> = None;
    let mut i: usize = 0;
    while i < accesses.len()
        invariant
            i <= accesses@.len(),
            match found {
                Some((k, bound)) => k < i && length_read(accesses@, c as int, header, k as int)
                    && accesses@[k as int]->Some_0.result == Some(bound) && forall|j: int|
                    0 <= j < i && #[trigger] length_read(accesses@, c as int, header, j) ==> j == k,
                None => forall|j: int| 0 <= j < i ==> !#[trigger] length_read(accesses@, c as int, header, j),
            },
        decreases accesses@.len() - i,
    {
        if let Some(a) = accesses[i] {
            if a.candidate == c && a.loop_header == header && a.access == ArrayAccess::Length {
                if let Some(bound) = a.result {
                    assert(length_read(accesses@, c as int, header, i as int));
                    match found {
                        Some((k, _)) => {
                            proof {
                                assert(length_read(accesses@, c as int, header, k as int));
                                assert forall|j: int| !#[trigger] sole_length(accesses@, c as int, header, j) by {
                                    if sole_length(accesses@, c as int, header, j) {
                                        assert(j == k && j == i);
                                    }
                                }
                            }
                            return None;
                        },
                        None => {
                            found = Some((i, bound));
                        },
                    }
                }
            }
        }
        i = i + 1;
    }
    found
}

/// Marks the loads that are below the length read at `len`, and says whether
/// there is one.
fn cover_loads(
    accesses: &mut Vec<Option<ArrayAccessPlan>>,
    loops: &Vec<NaturalLoop>,
    ranges: &BoundsProofs,
    c: usize,
    l: usize,
    len: usize,
    bound: usize,
    Ghost(base): Ghost<Seq<Option<ArrayAccessPlan>>>,
) -> (r: bool)
    requires
        l < loops@.len(),
        old(accesses)@.len() <= u32::MAX,
        covering(loops@, base, *ranges, old(accesses)@, c as int, l as int),
        loops@[l as int].preheader is Some,
        sole_length(base, c as int, loops@[l as int].header, len as int),
        base[len as int]->Some_0.result == Some(bound),
    ensures
        covering(loops@, base, *ranges, final(accesses)@, c as int, l + 1),
        r == exists|i: int|
            0 <= i < base.len() && #[trigger] load_below(base, *ranges, c as int, loops@[l as int].header, len as int, i),
{
    let header: u32 = loops[l].header;
    let n: usize = accesses.len();
    let ghost start = accesses@;
    let mut any: bool = false;
    let mut i: usize = 0;
    while i < n
        invariant
            n == accesses@.len() == base.len() == start.len(),
            n <= u32::MAX,
            i <= n,
            l < loops@.len(),
            header == loops@[l as int].header,
            loops@[l as int].preheader is Some,
            sole_length(base, c as int, header, len as int),
            base[len as int]->Some_0.result == Some(bound),
            covering(loops@, base, *ranges, start, c as int, l as int),
            forall|k: int| i <= k < n ==> accesses@[k] == start[k],
            forall|k: int|
                0 <= k < i ==> if load_below(base, *ranges, c as int, header, len as int, k) {
                    accesses@[k] == Some(
                        (ArrayAccessPlan { requires_index_guard: false, bounds_covered_by_hoist: true, ..start[k]->Some_0 }),
                    )
                } else {
                    #[trigger] accesses@[k] == start[k]
                },
            any == exists|k: int| 0 <= k < i && #[trigger] load_below(base, *ranges, c as int, header, len as int, k),
        decreases n - i,
    {
        assert(same_but_bounds(start[i as int], base[i as int]));
        assert(accesses@[i as int] == start[i as int]);
        let ghost was = any;
        if let Some(a) = accesses[i] {
            if a.candidate == c && a.loop_header == header && a.access == ArrayAccess::Load {
                if let Some(index) = a.index {
                    if ranges.proves_in_bounds_at(index, bound, i as u32) {
                        assert(load_below(base, *ranges, c as int, header, len as int, i as int));
                        let mut next: ArrayAccessPlan = a;
                        next.requires_index_guard = false;
                        next.bounds_covered_by_hoist = true;
                        accesses.set(i, Some(next));
                        any = true;
                    }
                }
            }
        }
        i = i + 1;
    }
    proof {
        assert forall|k: int| 0 <= k < n implies same_but_bounds(#[trigger] accesses@[k], base[k]) by {
            assert(same_but_bounds(start[k], base[k]));
        }
        assert forall|k: int| 0 <= k < n implies (#[trigger] accesses@[k] matches Some(a) ==> {
            &&& a.requires_index_guard == (a.access != ArrayAccess::Length && !a.bounds_covered_by_hoist)
            &&& a.bounds_covered_by_hoist == (if a.candidate < c {
                covered_before(loops@, base, *ranges, k, loops@.len() as int)
            } else if a.candidate == c {
                covered_before(loops@, base, *ranges, k, l + 1)
            } else {
                false
            })
        }) by {
            assert(same_but_bounds(start[k], base[k]));
            if accesses@[k] is Some {
                covered_step(loops@, base, *ranges, k, l as int, len as int);
            }
        }
    }
    any
}

proof fn covered_step(loops: Seq<NaturalLoop>, base: Seq<Option<ArrayAccessPlan>>, ranges: BoundsProofs, i: int, l: int, len: int)
    requires
        0 <= i < base.len(),
        0 <= l < loops.len(),
        base[i] is Some,
        loops[l].preheader is Some,
        base[i]->Some_0.candidate as int >= 0,
    ensures
        sole_length(base, base[i]->Some_0.candidate as int, loops[l].header, len) ==> covered_before(loops, base, ranges, i, l + 1)
            == (covered_before(loops, base, ranges, i, l) || load_below(
            base,
            ranges,
            base[i]->Some_0.candidate as int,
            loops[l].header,
            len,
            i,
        )),
{
    let c = base[i]->Some_0.candidate as int;
    if sole_length(base, c, loops[l].header, len) {
        if covered_before(loops, base, ranges, i, l + 1) {
            let (l2, len2) = choose|l2: int, len2: int|
                #![trigger sole_length(base, base[i]->Some_0.candidate as int, loops[l2].header, len2)]
                0 <= l2 < l + 1 && loops[l2].preheader is Some && sole_length(
                    base,
                    base[i]->Some_0.candidate as int,
                    loops[l2].header,
                    len2,
                ) && load_below(base, ranges, base[i]->Some_0.candidate as int, loops[l2].header, len2, i);
            if l2 == l {
                assert(length_read(base, c, loops[l].header, len2));
                assert(len2 == len);
            } else {
                assert(sole_length(base, base[i]->Some_0.candidate as int, loops[l2].header, len2));
                assert(covered_before(loops, base, ranges, i, l));
            }
        }
        if covered_before(loops, base, ranges, i, l) {
            let (l2, len2) = choose|l2: int, len2: int|
                #![trigger sole_length(base, base[i]->Some_0.candidate as int, loops[l2].header, len2)]
                0 <= l2 < l && loops[l2].preheader is Some && sole_length(
                    base,
                    base[i]->Some_0.candidate as int,
                    loops[l2].header,
                    len2,
                ) && load_below(base, ranges, base[i]->Some_0.candidate as int, loops[l2].header, len2, i);
            assert(sole_length(base, base[i]->Some_0.candidate as int, loops[l2].header, len2));
        }
    }
}

/// A loop that identifies no bound covers nothing.
proof fn covered_skip(loops: Seq<NaturalLoop>, base: Seq<Option<ArrayAccessPlan>>, ranges: BoundsProofs, i: int, l: int)
    requires
        0 <= l < loops.len(),
        loops[l].preheader is None || forall|len: int| !#[trigger] sole_length(
            base,
            base[i]->Some_0.candidate as int,
            loops[l].header,
            len,
        ),
    ensures
        covered_before(loops, base, ranges, i, l + 1) == covered_before(loops, base, ranges, i, l),
{
    if covered_before(loops, base, ranges, i, l + 1) {
        let (l2, len2) = choose|l2: int, len2: int|
            #![trigger sole_length(base, base[i]->Some_0.candidate as int, loops[l2].header, len2)]
            0 <= l2 < l + 1 && loops[l2].preheader is Some && sole_length(
                base,
                base[i]->Some_0.candidate as int,
                loops[l2].header,
                len2,
            ) && load_below(base, ranges, base[i]->Some_0.candidate as int, loops[l2].header, len2, i);
        assert(sole_length(base, base[i]->Some_0.candidate as int, loops[l2].header, len2));
        assert(l2 < l);
    }
    if covered_before(loops, base, ranges, i, l) {
        let (l2, len2) = choose|l2: int, len2: int|
            #![trigger sole_length(base, base[i]->Some_0.candidate as int, loops[l2].header, len2)]
            0 <= l2 < l && loops[l2].preheader is Some && sole_length(
                base,
                base[i]->Some_0.candidate as int,
                loops[l2].header,
                len2,
            ) && load_below(base, ranges, base[i]->Some_0.candidate as int, loops[l2].header, len2, i);
        assert(sole_length(base, base[i]->Some_0.candidate as int, loops[l2].header, len2));
    }
}

proof fn covering_skip(
    loops: Seq<NaturalLoop>,
    base: Seq<Option<ArrayAccessPlan>>,
    ranges: BoundsProofs,
    accesses: Seq<Option<ArrayAccessPlan>>,
    c: int,
    l: int,
)
    requires
        covering(loops, base, ranges, accesses, c, l),
        0 <= l < loops.len(),
        loops[l].preheader is None || forall|len: int| !#[trigger] sole_length(base, c, loops[l].header, len),
    ensures
        covering(loops, base, ranges, accesses, c, l + 1),
{
    assert forall|i: int| 0 <= i < base.len() implies (#[trigger] accesses[i] matches Some(a) ==> {
        &&& a.requires_index_guard == (a.access != ArrayAccess::Length && !a.bounds_covered_by_hoist)
        &&& a.bounds_covered_by_hoist == (if a.candidate < c {
            covered_before(loops, base, ranges, i, loops.len() as int)
        } else if a.candidate == c {
            covered_before(loops, base, ranges, i, l + 1)
        } else {
            false
        })
    }) by {
        assert(same_but_bounds(accesses[i], base[i]));
        if accesses[i] is Some && accesses[i]->Some_0.candidate == c {
            covered_skip(loops, base, ranges, i, l);
        }
    }
}

proof fn covering_next(
    loops: Seq<NaturalLoop>,
    base: Seq<Option<ArrayAccessPlan>>,
    ranges: BoundsProofs,
    accesses: Seq<Option<ArrayAccessPlan>>,
    c: int,
)
    requires
        covering(loops, base, ranges, accesses, c, loops.len() as int),
    ensures
        covering(loops, base, ranges, accesses, c + 1, 0),
{
    assert forall|i: int| 0 <= i < base.len() implies !#[trigger] covered_before(loops, base, ranges, i, 0) by {}
    assert forall|i: int| 0 <= i < base.len() implies (#[trigger] accesses[i] matches Some(a) ==> {
        &&& a.requires_index_guard == (a.access != ArrayAccess::Length && !a.bounds_covered_by_hoist)
        &&& a.bounds_covered_by_hoist == (if a.candidate < c + 1 {
            covered_before(loops, base, ranges, i, loops.len() as int)
        } else if a.candidate == c + 1 {
            covered_before(loops, base, ranges, i, 0)
        } else {
            false
        })
    }) by {
        assert(!covered_before(loops, base, ranges, i, 0));
    }
}

impl<'a> ArrayContext<'a> {
    /// Covers the loads of candidate `c` in every loop.
    fn cover_candidate(
        &self,
        candidates: &Vec<ArrayCandidate>,
        accesses: &mut Vec<Option<ArrayAccessPlan>>,
        hoists: &mut Vec<ArrayLoopHoist>,
        ranges: &BoundsProofs,
        c: usize,
        Ghost(base): Ghost<Seq<Option<ArrayAccessPlan>>>,
    )
        requires
            self.ir.nodes@.len() <= u32::MAX,
            c < candidates@.len(),
            accesses_are(*self, candidates@, base),
            covering(self.loops.loops@, base, *ranges, old(accesses)@, c as int, 0),
            hoists_cover(self.loops.loops@, base, *ranges, old(hoists)@, candidates@.len() as int, c as int, 0),
        ensures
            covering(self.loops.loops@, base, *ranges, final(accesses)@, c as int, self.loops.loops@.len() as int),
            hoists_cover(
                self.loops.loops@,
                base,
                *ranges,
                final(hoists)@,
                candidates@.len() as int,
                c as int,
                self.loops.loops@.len() as int,
            ),
    {
        let ghost loops = self.loops.loops@;
        let mut l: usize = 0;
        while l < self.loops.loops.len()
            invariant
                self.ir.nodes@.len() <= u32::MAX,
                c < candidates@.len(),
                l <= loops.len(),
                loops == self.loops.loops@,
                accesses_are(*self, candidates@, base),
                covering(loops, base, *ranges, accesses@, c as int, l as int),
                hoists_cover(loops, base, *ranges, hoists@, candidates@.len() as int, c as int, l as int),
            decreases loops.len() - l,
        {
            let header: u32 = self.loops.loops[l].header;
            let ghost hoists0 = hoists@;
            proof {
                same_lengths(accesses@, base, *ranges);
            }
            if let Some(preheader) = self.loops.loops[l].preheader {
                match find_sole_length(accesses, c, header) {
                    Some((len, bound)) => {
                        assert(same_but_bounds(accesses@[len as int], base[len as int]));
                        assert(sole_length(base, c as int, header, len as int));
                        let any: bool = cover_loads(
                            accesses,
                            &self.loops.loops,
                            ranges,
                            c,
                            l,
                            len,
                            bound,
                            Ghost(base),
                        );
                        if any {
                            hoists.push(
                                ArrayLoopHoist { candidate: c, preheader, header, bound, length_node: len as u32 },
                            );
                            proof {
                                let h = hoists@[hoists0.len() as int];
                                assert(hoisted_length(loops, base, *ranges, c as int, l as int, len as int));
                                assert(loops[l as int].header == h.header);
                                assert(hoist_is(loops, base, *ranges, candidates@.len() as int, h));
                            }
                        }
                        proof {
                            assert forall|len2: int| #[trigger]
                                hoisted_length(loops, base, *ranges, c as int, l as int, len2) implies any && len2
                                == len by {
                                assert(length_read(base, c as int, header, len2));
                            }
                        }
                    },
                    None => {
                        proof {
                            assert forall|len: int| !#[trigger] sole_length(base, c as int, header, len) by {
                                assert(!sole_length(accesses@, c as int, header, len));
                            }
                            covering_skip(loops, base, *ranges, accesses@, c as int, l as int);
                        }
                    },
                }
            } else {
                proof {
                    covering_skip(loops, base, *ranges, accesses@, c as int, l as int);
                }
            }
            proof {
                let total = candidates@.len() as int;
                assert forall|c2: int, l2: int, len: int| #[trigger]
                    hoisted_length(loops, base, *ranges, c2, l2, len) && 0 <= c2 < total && 0 <= l2 < loops.len()
                        && pair_done(c as int, l + 1, c2, l2) implies exists|k: int|
                    0 <= k < hoists@.len() && (#[trigger] hoists@[k]).candidate == c2 && hoists@[k].header
                        == loops[l2].header && hoists@[k].length_node == len by {
                    if pair_done(c as int, l as int, c2, l2) {
                        let k = choose|k: int|
                            0 <= k < hoists0.len() && (#[trigger] hoists0[k]).candidate == c2 && hoists0[k].header
                                == loops[l2].header && hoists0[k].length_node == len;
                        assert(hoists@[k] == hoists0[k]);
                    } else {
                        assert(c2 == c && l2 == l);
                        let k = hoists0.len() as int;
                        assert(hoists@[k].candidate == c2);
                    }
                }
                assert forall|k: int| 0 <= k < hoists@.len() implies hoist_is(loops, base, *ranges, total, #[trigger] hoists@[k]) by {
                    if k < hoists0.len() {
                        assert(hoists@[k] == hoists0[k]);
                    }
                }
            }
            l = l + 1;
        }
    }

    fn dropped(&self, candidates: &Vec<ArrayCandidate>, accesses: &Vec<Option<ArrayAccessPlan>>, Ghost(base): Ghost<Seq<Option<ArrayAccessPlan>>>) -> (r: Vec<bool>)
        requires
            accesses@.len() == base.len(),
            accesses_are(*self, candidates@, base),
            forall|i: int| 0 <= i < base.len() ==> same_but_bounds(#[trigger] accesses@[i], base[i]),
        ensures
            r@.len() == self.node_count(),
            forall|i: int| 0 <= i < self.node_count() ==> #[trigger] r@[i] == invalidates(*self, i),
    {
        let mut invalidations: Vec<bool> = Vec::new();
        let n: usize = self.ir.nodes.len();
        let mut i: usize = 0;
        while i < n
            invariant
                n == self.ir.nodes@.len() == accesses@.len() == base.len(),
                i <= n,
                accesses_are(*self, candidates@, base),
                forall|k: int| 0 <= k < base.len() ==> same_but_bounds(#[trigger] accesses@[k], base[k]),
                invalidations@.len() == i,
                forall|k: int| 0 <= k < i ==> #[trigger] invalidations@[k] == invalidates(*self, k),
            decreases n - i,
        {
            assert(same_but_bounds(accesses@[i as int], base[i as int]));
            assert(access_is(*self, candidate_pairs(candidates@), base[i as int], i as int));
            let drops: bool = match self.ir.nodes[i].effect {
                ScalarHeapEffect::Pure => false,
                ScalarHeapEffect::Reentrant => accesses[i].is_none() && !self.is_certified(i),
                ScalarHeapEffect::FrameWrite | ScalarHeapEffect::HeapWrite => true,
            };
            invalidations.push(drops);
            i = i + 1;
        }
        invalidations
    }

    /// Removes the bounds checks that a hoisted guard covers, and decides where
    /// metadata is dropped.
    pub fn finish(&self, proposal: ArrayProposal, ranges: &BoundsProofs) -> (r: ArrayPlan)
        requires
            self.ir.nodes@.len() <= u32::MAX,
            exists|work: int| #[trigger] proposal_is(*self, work, proposal),
        ensures
            plan_is(*self, *ranges, r),
    {
        let ghost base = proposal.accesses@;
        let ghost loops = self.loops.loops@;
        proof {
            let work = choose|work: int| #[trigger] proposal_is(*self, work, proposal);
            covering_start(*self, *ranges, proposal, work);
        }
        let candidates = proposal.candidates;
        let mut accesses = proposal.accesses;
        let mut hoists: Vec<ArrayLoopHoist> = Vec::new();
        let mut c: usize = 0;
        while c < candidates.len()
            invariant
                self.ir.nodes@.len() <= u32::MAX,
                c <= candidates@.len(),
                loops == self.loops.loops@,
                accesses_are(*self, candidates@, base),
                covering(loops, base, *ranges, accesses@, c as int, 0),
                hoists_cover(loops, base, *ranges, hoists@, candidates@.len() as int, c as int, 0),
            decreases candidates@.len() - c,
        {
            self.cover_candidate(&candidates, &mut accesses, &mut hoists, ranges, c, Ghost(base));
            proof {
                covering_next(loops, base, *ranges, accesses@, c as int);
                assert(hoists_cover(loops, base, *ranges, hoists@, candidates@.len() as int, c + 1, 0)) by {
                    let total = candidates@.len() as int;
                    assert forall|c2: int, l2: int, len: int| #[trigger]
                        hoisted_length(loops, base, *ranges, c2, l2, len) && 0 <= c2 < total && 0 <= l2 < loops.len()
                            && pair_done(c + 1, 0, c2, l2) implies exists|k: int|
                        0 <= k < hoists@.len() && (#[trigger] hoists@[k]).candidate == c2 && hoists@[k].header
                            == loops[l2].header && hoists@[k].length_node == len by {
                        assert(pair_done(c as int, loops.len() as int, c2, l2));
                    }
                }
            }
            c = c + 1;
        }
        let invalidations = self.dropped(&candidates, &accesses, Ghost(base));
        let plan = ArrayPlan { candidates, accesses, hoists, invalidations };
        proof {
            final_plan(*self, *ranges, base, plan);
        }
        plan
    }

    /// Plans the array accesses of a function; `ranges` was computed for the
    /// accesses that `propose` selects. Nothing is planned where the loops are
    /// unknown, the work does not suffice, or the arrays are too many.
    pub fn analyze(&self, work: usize, ranges: &BoundsProofs) -> (r: ArrayPlan)
        requires
            self.ir.nodes@.len() <= u32::MAX,
        ensures
            self.plannable(work as int) ==> plan_is(*self, *ranges, r),
            !self.plannable(work as int) ==> r.is_default(),
    {
        match self.propose(work) {
            Some(proposal) => {
                assert(proposal_is(*self, work as int, proposal));
                self.finish(proposal, ranges)
            },
            None => ArrayPlan::empty(),
        }
    }
}

/// Before any candidate is looked at, nothing is covered and nothing hoisted.
proof fn covering_start(ctx: ArrayContext<'_>, ranges: BoundsProofs, p: ArrayProposal, work: int)
    requires
        proposal_is(ctx, work, p),
    ensures
        accesses_are(ctx, p.candidates@, p.accesses@),
        covering(ctx.loops.loops@, p.accesses@, ranges, p.accesses@, 0, 0),
        hoists_cover(ctx.loops.loops@, p.accesses@, ranges, Seq::empty(), p.candidates@.len() as int, 0, 0),
{
    let loops = ctx.loops.loops@;
    let base = p.accesses@;
    assert forall|i: int| 0 <= i < base.len() implies !#[trigger] covered_before(loops, base, ranges, i, 0) by {}
    assert forall|i: int| 0 <= i < base.len() implies (#[trigger] base[i] matches Some(a) ==> {
        &&& a.requires_index_guard == (a.access != ArrayAccess::Length && !a.bounds_covered_by_hoist)
        &&& a.bounds_covered_by_hoist == (if a.candidate < 0 {
            covered_before(loops, base, ranges, i, loops.len() as int)
        } else if a.candidate == 0 {
            covered_before(loops, base, ranges, i, 0)
        } else {
            false
        })
    }) by {
        assert(!covered_before(loops, base, ranges, i, 0));
    }
}

proof fn final_plan(ctx: ArrayContext<'_>, ranges: BoundsProofs, base: Seq<Option<ArrayAccessPlan>>, plan: ArrayPlan)
    requires
        accesses_are(ctx, plan.candidates@, base),
        covering(ctx.loops.loops@, base, ranges, plan.accesses@, plan.candidates@.len() as int, 0),
        hoists_cover(
            ctx.loops.loops@,
            base,
            ranges,
            plan.hoists@,
            plan.candidates@.len() as int,
            plan.candidates@.len() as int,
            0,
        ),
        plan.invalidations@.len() == ctx.node_count(),
        forall|i: int| 0 <= i < ctx.node_count() ==> #[trigger] plan.invalidations@[i] == invalidates(ctx, i),
    ensures
        plan_is(ctx, ranges, plan),
{
    let candidates = plan.candidates@;
    let accesses = plan.accesses@;
    let hoists = plan.hoists@;
    let loops = ctx.loops.loops@;
    let pairs = candidate_pairs(candidates);
    same_lengths(accesses, base, ranges);
    assert forall|i: int| 0 <= i < accesses.len() implies access_is(ctx, pairs, #[trigger] accesses[i], i) by {
        assert(same_but_bounds(accesses[i], base[i]));
        assert(access_is(ctx, pairs, base[i], i));
    }
    assert forall|c: int| 0 <= c < candidates.len() implies (#[trigger] candidates[c]).needs_length == reads_length(accesses,
        c,
        accesses.len() as int,
    ) by {
        if reads_length(base, c, base.len() as int) {
            let i = choose|i: int|
                0 <= i < base.len() && (#[trigger] base[i] matches Some(a) && a.candidate == c && a.access
                    == ArrayAccess::Length);
            assert(same_but_bounds(accesses[i], base[i]));
        }
        if reads_length(accesses, c, base.len() as int) {
            let i = choose|i: int|
                0 <= i < base.len() && (#[trigger] accesses[i] matches Some(a) && a.candidate == c && a.access
                    == ArrayAccess::Length);
            assert(same_but_bounds(accesses[i], base[i]));
        }
    }
    assert forall|i: int| 0 <= i < accesses.len() implies (#[trigger] accesses[i] matches Some(a)
        ==> a.bounds_covered_by_hoist == covered(loops, accesses, ranges, i) && a.requires_index_guard == (a.access
        != ArrayAccess::Length && !a.bounds_covered_by_hoist)) by {
        assert(same_but_bounds(accesses[i], base[i]));
        assert(access_is(ctx, pairs, base[i], i));
        if accesses[i] is Some {
            same_cover(loops, base, accesses, ranges, i);
        }
    }
    assert forall|c: int, l: int, len: int| #[trigger] hoisted_length(loops, accesses, ranges, c, l, len) implies hoisted_length(
        loops,
        base,
        ranges,
        c,
        l,
        len,
    ) by {
        let i = choose|i: int| 0 <= i < accesses.len() && #[trigger] load_below(accesses, ranges, c, loops[l].header, len, i);
        assert(load_below(base, ranges, c, loops[l].header, len, i));
    }
    assert forall|k: int| 0 <= k < hoists.len() implies hoist_is(loops, accesses, ranges, candidates.len() as int, #[trigger] hoists[k]) by {
        let h = hoists[k];
        assert(hoist_is(loops, base, ranges, candidates.len() as int, h));
        let l = choose|l: int|
            #![trigger loops[l]]
            0 <= l < loops.len() && h.candidate < candidates.len() && hoisted_length(
                loops,
                base,
                ranges,
                h.candidate as int,
                l,
                h.length_node as int,
            ) && h.header == loops[l].header && Some(h.preheader) == loops[l].preheader && Some(h.bound)
                == base[h.length_node as int]->Some_0.result;
        let len = h.length_node as int;
        let i = choose|i: int|
            0 <= i < base.len() && #[trigger] load_below(base, ranges, h.candidate as int, loops[l].header, len, i);
        assert(load_below(accesses, ranges, h.candidate as int, loops[l].header, len, i));
        assert(sole_length(accesses, h.candidate as int, loops[l].header, len));
        assert(same_but_bounds(accesses[len], base[len]));
        assert(hoisted_length(loops, accesses, ranges, h.candidate as int, l, len));
    }
}

proof fn same_cover(
    loops: Seq<NaturalLoop>,
    base: Seq<Option<ArrayAccessPlan>>,
    accesses: Seq<Option<ArrayAccessPlan>>,
    ranges: BoundsProofs,
    i: int,
)
    requires
        accesses.len() == base.len(),
        forall|k: int| 0 <= k < base.len() ==> same_but_bounds(#[trigger] accesses[k], base[k]),
        0 <= i < base.len(),
        accesses[i] is Some,
    ensures
        covered(loops, accesses, ranges, i) == covered_before(loops, base, ranges, i, loops.len() as int),
{
    same_lengths(accesses, base, ranges);
    assert(same_but_bounds(accesses[i], base[i]));
    let c = base[i]->Some_0.candidate as int;
    if covered(loops, accesses, ranges, i) {
        let (l, len) = choose|l: int, len: int|
            #![trigger sole_length(accesses, accesses[i]->Some_0.candidate as int, loops[l].header, len)]
            0 <= l < loops.len() && loops[l].preheader is Some && sole_length(
                accesses,
                accesses[i]->Some_0.candidate as int,
                loops[l].header,
                len,
            ) && load_below(accesses, ranges, accesses[i]->Some_0.candidate as int, loops[l].header, len, i);
        assert(sole_length(base, base[i]->Some_0.candidate as int, loops[l].header, len));
    }
    if covered_before(loops, base, ranges, i, loops.len() as int) {
        let (l, len) = choose|l: int, len: int|
            #![trigger sole_length(base, base[i]->Some_0.candidate as int, loops[l].header, len)]
            0 <= l < loops.len() && loops[l].preheader is Some && sole_length(
                base,
                base[i]->Some_0.candidate as int,
                loops[l].header,
                len,
            ) && load_below(base, ranges, base[i]->Some_0.candidate as int, loops[l].header, len, i);
        assert(sole_length(accesses, accesses[i]->Some_0.candidate as int, loops[l].header, len));
    }
}

} // verus!
