//! The decisions that precede the lowering of a function.
use crate::array_plan::ArrayPlan;
use crate::ir::node_name;
use crate::ir::FrameSlot;
use crate::ir::LoopAnalysis;
use crate::ir::OptimizedIr;
use crate::ir::OptimizedNode;
use crate::ir::OptimizedNodeKind;
use crate::ir::ScalarHeapEffect;
use crate::ir::ScalarHeapOperation;
use crate::lower_node::is_loop_poll;
use crate::names::name_is;
use crate::property_cache::PropertyAccessPlan;
use crate::property_cache::PropertyBoundary;
use crate::runtime::first_at;
use crate::runtime::first_at_is;
use crate::runtime::first_at_none;
use crate::runtime::ArrayAccess;
use crate::runtime::ArrayFeedback;
use crate::runtime::ArrayMode;
use crate::scalar::ScalarOperation;
use crate::scalar_ops::ScalarNode;
use crate::specialization::EntryRepresentation;
use crate::specialization::NumericSpecialization;
use crate::tier2::clamped;
use std::collections::BTreeSet;
use vstd::prelude::*;

verus! {

broadcast use vstd::std_specs::btree::group_btree_axioms;

/// The function is a loop on raw Int32: every value is one, and nothing is
/// called.
pub open spec fn is_int32_loop(specialization: NumericSpecialization, ir: OptimizedIr) -> bool {
    &&& specialization.entry == EntryRepresentation::Int32
    &&& specialization.calls@.dom().len() == 0
    &&& ir.frame_inlined_calls == 0
    &&& exists|b: int| 0 <= b < ir.blocks@.len() && (#[trigger] ir.blocks@[b]).is_loop_header
}

pub fn uses_int32_loop(specialization: &NumericSpecialization, ir: &OptimizedIr) -> (r: bool)
    ensures
        r == is_int32_loop(*specialization, *ir),
{
    if specialization.entry != EntryRepresentation::Int32 || specialization.calls.len() != 0 || ir.frame_inlined_calls != 0 {
        return false;
    }
    let mut b: usize = 0;
    while b < ir.blocks.len()
        invariant
            b <= ir.blocks@.len(),
            forall|c: int| 0 <= c < b ==> !(#[trigger] ir.blocks@[c]).is_loop_header,
            specialization.entry == EntryRepresentation::Int32,
            specialization.calls@.dom().len() == 0,
            ir.frame_inlined_calls == 0,
        decreases ir.blocks@.len() - b,
    {
        if ir.blocks[b].is_loop_header {
            return true;
        }
        b = b + 1;
    }
    false
}

/// Locals need not be published on every write: no poll sees them in between,
/// and none of them owns anything.
pub open spec fn defers_locals(amortized_poll: bool, int32_loop: bool, owned_locals: Seq<bool>) -> bool {
    amortized_poll && !int32_loop && !owned_locals.contains(true)
}

pub fn defer_scalar_locals(amortized_poll: bool, int32_loop: bool, owned_locals: &Vec<bool>) -> (r: bool)
    ensures
        r == defers_locals(amortized_poll, int32_loop, owned_locals@),
{
    let mut k: usize = 0;
    while k < owned_locals.len()
        invariant
            k <= owned_locals@.len(),
            forall|j: int| 0 <= j < k ==> !#[trigger] owned_locals@[j],
        decreases owned_locals@.len() - k,
    {
        if owned_locals[k] {
            assert(owned_locals@.contains(true)) by {
                assert(owned_locals@[k as int]);
            }
            return false;
        }
        k = k + 1;
    }
    amortized_poll && !int32_loop
}

/// What was seen at an array access.
pub open spec fn array_site(arrays: Seq<ArrayFeedback>, pc: u32) -> Option<ArrayFeedback> {
    match first_at(|i: int| arrays[i].pc == pc, arrays.len()) {
        Some(i) => Some(arrays[i]),
        None => None,
    }
}

fn find_array_site(arrays: &Vec<ArrayFeedback>, pc: u32) -> (r: Option<ArrayFeedback>)
    ensures
        r == array_site(arrays@, pc),
{
    let ghost f = |i: int| arrays@[i].pc == pc;
    let mut i: usize = 0;
    while i < arrays.len()
        invariant
            i <= arrays@.len(),
            f == (|i: int| arrays@[i].pc == pc),
            forall|k: int| 0 <= k < i ==> !#[trigger] f(k),
        decreases arrays@.len() - i,
    {
        if arrays[i].pc == pc {
            proof {
                assert(f(i as int));
                first_at_is(f, arrays@.len(), i as int);
            }
            return Some(arrays[i]);
        }
        assert(!f(i as int));
        i = i + 1;
    }
    proof {
        first_at_none(f, arrays@.len());
    }
    None
}

/// Everything seen at the access was of one mode, and the access can be
/// specialized for it: a load for any mode, a length for arrays whose length is
/// at hand, and a store for typed arrays.
pub open spec fn access_specialized(site: ArrayFeedback, access: ArrayAccess) -> bool {
    &&& site.access == access
    &&& site.can_specialize
    &&& site.only_mode matches Some(mode) && match access {
        ArrayAccess::Load => true,
        ArrayAccess::Length => mode != ArrayMode::Generic,
        ArrayAccess::Store => mode == ArrayMode::Int32 || mode == ArrayMode::Float64,
    }
}

fn specialized(site: ArrayFeedback, access: ArrayAccess) -> (r: bool)
    ensures
        r == access_specialized(site, access),
{
    if site.access != access || !site.can_specialize {
        return false;
    }
    match site.only_mode {
        Some(mode) => match access {
            ArrayAccess::Load => true,
            ArrayAccess::Length => mode != ArrayMode::Generic,
            ArrayAccess::Store => mode == ArrayMode::Int32 || mode == ArrayMode::Float64,
        },
        None => false,
    }
}

pub open spec fn array_access_of(name: Seq<char>) -> Option<ArrayAccess> {
    if name == "get_array_el"@ {
        Some(ArrayAccess::Load)
    } else if name == "get_length"@ {
        Some(ArrayAccess::Length)
    } else if name == "put_array_el"@ {
        Some(ArrayAccess::Store)
    } else {
        None
    }
}

/// Feedback proposes the node as a guarded array access.
pub open spec fn assumes_array(node: OptimizedNode, arrays: Seq<ArrayFeedback>) -> bool {
    &&& node.is_bytecode()
    &&& array_access_of(node.name()) matches Some(access) && (array_site(arrays, node.pc) matches Some(site)
        && access_specialized(site, access))
}

fn assume_array(node: &OptimizedNode, arrays: &Vec<ArrayFeedback>) -> (r: bool)
    ensures
        r == assumes_array(*node, arrays@),
{
    if !matches!(&node.kind, OptimizedNodeKind::Bytecode { .. }) {
        return false;
    }
    let name = node_name(node);
    let access = if name_is(name, "get_array_el") {
        ArrayAccess::Load
    } else if name_is(name, "get_length") {
        ArrayAccess::Length
    } else if name_is(name, "put_array_el") {
        ArrayAccess::Store
    } else {
        return false;
    };
    match find_array_site(arrays, node.pc) {
        Some(site) => specialized(site, access),
        None => false,
    }
}

/// The array accesses that feedback proposes as guarded. Every one of them has
/// to be emitted as such if the plan is to be used.
pub fn assumed_array_sites(ir: &OptimizedIr, arrays: &Vec<ArrayFeedback>) -> (r: Vec<bool>)
    ensures
        r@ == Seq::new(ir.nodes@.len(), |i: int| assumes_array(ir.nodes@[i], arrays@)),
{
    let mut sites: Vec<bool> = Vec::new();
    while sites.len() < ir.nodes.len()
        invariant
            sites@.len() <= ir.nodes@.len(),
            forall|k: int| 0 <= k < sites@.len() ==> sites@[k] == assumes_array(ir.nodes@[k], arrays@),
        decreases ir.nodes@.len() - sites@.len(),
    {
        let site = assume_array(&ir.nodes[sites.len()], arrays);
        sites.push(site);
    }
    assert(sites@ =~= Seq::new(ir.nodes@.len(), |i: int| assumes_array(ir.nodes@[i], arrays@)));
    sites
}

/// Feedback proposes the node as an access of a promoted field: one shape was
/// seen there, and a field of it can be promoted.
pub open spec fn assumes_property(node: OptimizedNode, specialization: NumericSpecialization, promotable: Seq<bool>) -> bool {
    &&& node.heap_operation matches Some(operation) && (operation is GetProperty || operation is PutProperty)
    &&& specialization.properties@.contains_key(node.pc)
    &&& specialization.properties@[node.pc]@.len() == 1
    &&& node.id < promotable.len() && promotable[node.id as int]
}

/// The accesses that feedback proposes for promoted fields; `promotable` says
/// where the observation allows it.
pub fn assumed_property_sites(ir: &OptimizedIr, specialization: &NumericSpecialization, promotable: &Vec<bool>) -> (r: Vec<bool>)
    ensures
        r@ == Seq::new(ir.nodes@.len(), |i: int| assumes_property(ir.nodes@[i], *specialization, promotable@)),
{
    let mut sites: Vec<bool> = Vec::new();
    while sites.len() < ir.nodes.len()
        invariant
            sites@.len() <= ir.nodes@.len(),
            forall|k: int|
                0 <= k < sites@.len() ==> sites@[k] == assumes_property(ir.nodes@[k], *specialization, promotable@),
        decreases ir.nodes@.len() - sites@.len(),
    {
        let node = &ir.nodes[sites.len()];
        let access = matches!(
            &node.heap_operation,
            Some(ScalarHeapOperation::GetProperty { .. } | ScalarHeapOperation::PutProperty { .. })
        );
        let single = match specialization.properties.get(&node.pc) {
            Some(seen) => seen.len() == 1,
            None => false,
        };
        let allowed = (node.id as usize) < promotable.len() && promotable[node.id as usize];
        sites.push(access && single && allowed);
    }
    assert(sites@ =~= Seq::new(ir.nodes@.len(), |i: int| assumes_property(ir.nodes@[i], *specialization, promotable@)));
    sites
}

/// What becomes of a plan whose facts relied on the sites of the one before.
#[derive(Clone, Copy, Debug, PartialEq, Eq, Structural)]
pub enum Refinement {
    /// A site that the facts relied on is gone: nothing is planned.
    Discard,
    /// The plan relies on exactly its own sites.
    Settled,
    /// The plan has more sites, and facts may be gained from them.
    Again,
}

/// How often a plan is refined.
pub const MAX_REFINEMENTS: usize = 32;

pub open spec fn refinement_of(guarded: Seq<bool>, next: Seq<bool>) -> Refinement {
    if exists|i: int| 0 <= i < guarded.len() && #[trigger] guarded[i] && !(i < next.len() && next[i]) {
        Refinement::Discard
    } else if exists|i: int| 0 <= i < next.len() && #[trigger] next[i] && !(i < guarded.len() && guarded[i]) {
        Refinement::Again
    } else {
        Refinement::Settled
    }
}

/// Compares the sites of a plan with those that its facts relied on.
pub fn refine(guarded: &Vec<bool>, next: &Vec<bool>) -> (r: Refinement)
    ensures
        r == refinement_of(guarded@, next@),
{
    let mut i: usize = 0;
    while i < guarded.len()
        invariant
            i <= guarded@.len(),
            forall|k: int| 0 <= k < i ==> (#[trigger] guarded@[k] ==> k < next@.len() && next@[k]),
        decreases guarded@.len() - i,
    {
        if guarded[i] && !(i < next.len() && next[i]) {
            assert(guarded@[i as int]);
            return Refinement::Discard;
        }
        i = i + 1;
    }
    let mut j: usize = 0;
    while j < next.len()
        invariant
            j <= next@.len(),
            forall|k: int| 0 <= k < guarded@.len() ==> (#[trigger] guarded@[k] ==> k < next@.len() && next@[k]),
            forall|k: int| 0 <= k < j ==> (#[trigger] next@[k] ==> k < guarded@.len() && guarded@[k]),
        decreases next@.len() - j,
    {
        if next[j] && !(j < guarded.len() && guarded[j]) {
            assert(next@[j as int]);
            return Refinement::Again;
        }
        j = j + 1;
    }
    Refinement::Settled
}

/// A plan that settles has exactly the sites that its facts relied on, so every
/// premise of the facts is emitted.
pub proof fn settled_plans_keep_their_premises(guarded: Seq<bool>, next: Seq<bool>)
    requires
        guarded.len() == next.len(),
        refinement_of(guarded, next) == Refinement::Settled,
    ensures
        guarded == next,
{
    assert forall|i: int| 0 <= i < guarded.len() implies guarded[i] == next[i] by {
        let a = guarded[i];
        let b = next[i];
    }
    assert(guarded =~= next);
}

/// An operation on numbers that the scalar graph knows.
pub open spec fn knows_operation(name: Seq<char>, node: ScalarNode) -> bool {
    let bitwise = name == "or"@ || name == "and"@ || name == "xor"@ || name == "shl"@ || name == "sar"@ || name == "shr"@;
    let arithmetic = name == "add"@ || name == "sub"@ || name == "mul"@ || name == "div"@;
    let comparison = name == "lt"@ || name == "lte"@ || name == "gt"@ || name == "gte"@;
    ||| (arithmetic || bitwise) && node.operation matches Some(ScalarOperation::Binary { .. })
    ||| bitwise && node.operation matches Some(ScalarOperation::Bitwise { .. })
    ||| comparison && node.operation matches Some(ScalarOperation::Compare { .. })
}

fn known_operation(name: &str, node: &ScalarNode) -> (r: bool)
    ensures
        r == knows_operation(name@, *node),
{
    let bitwise = name_is(name, "or") || name_is(name, "and") || name_is(name, "xor") || name_is(name, "shl") || name_is(
        name,
        "sar",
    ) || name_is(name, "shr");
    let arithmetic = name_is(name, "add") || name_is(name, "sub") || name_is(name, "mul") || name_is(name, "div");
    let comparison = name_is(name, "lt") || name_is(name, "lte") || name_is(name, "gt") || name_is(name, "gte");
    match node.operation {
        Some(ScalarOperation::Binary { .. }) => arithmetic || bitwise,
        Some(ScalarOperation::Bitwise { .. }) => bitwise,
        Some(ScalarOperation::Compare { .. }) => comparison,
        _ => false,
    }
}

/// The node writes one local, and that local owns nothing.
pub open spec fn writes_plain_local(node: OptimizedNode, owned_locals: Seq<bool>) -> bool {
    &&& node.frame_definitions@.len() == 1
    &&& node.frame_definitions@[0] matches FrameSlot::Local(index) && index < owned_locals.len() && !owned_locals[index as int]
}

/// Nothing that the node does can run code or write a slot that array storage
/// is remembered for.
pub open spec fn keeps_arrays(node: OptimizedNode, scalar: ScalarNode, owned_locals: Seq<bool>, guarded: bool) -> bool {
    match node.effect {
        ScalarHeapEffect::Pure => true,
        ScalarHeapEffect::FrameWrite => writes_plain_local(node, owned_locals),
        ScalarHeapEffect::HeapWrite => false,
        ScalarHeapEffect::Reentrant => node.is_bytecode() && ((node.name() == "get_array_el"@ || node.name()
            == "put_array_el"@) && guarded || node.name() == "to_propkey"@ || knows_operation(node.name(), scalar)),
    }
}

/// The nodes that keep what is known of arrays, where the `guarded` accesses are
/// emitted as such.
pub fn array_non_reentrant(
    ir: &OptimizedIr,
    scalar_nodes: &Vec<ScalarNode>,
    owned_locals: &Vec<bool>,
    guarded: &Vec<bool>,
) -> (r: Vec<bool>)
    requires
        scalar_nodes@.len() == ir.nodes@.len(),
        guarded@.len() == ir.nodes@.len(),
    ensures
        r@ == Seq::new(
            ir.nodes@.len(),
            |i: int| keeps_arrays(ir.nodes@[i], scalar_nodes@[i], owned_locals@, guarded@[i]),
        ),
{
    let mut kept: Vec<bool> = Vec::new();
    while kept.len() < ir.nodes.len()
        invariant
            kept@.len() <= ir.nodes@.len(),
            scalar_nodes@.len() == ir.nodes@.len(),
            guarded@.len() == ir.nodes@.len(),
            forall|k: int|
                0 <= k < kept@.len() ==> kept@[k] == keeps_arrays(
                    ir.nodes@[k],
                    scalar_nodes@[k],
                    owned_locals@,
                    guarded@[k],
                ),
        decreases ir.nodes@.len() - kept@.len(),
    {
        let i: usize = kept.len();
        let node = &ir.nodes[i];
        let bytecode = matches!(&node.kind, OptimizedNodeKind::Bytecode { .. });
        let keeps = match node.effect {
            ScalarHeapEffect::Pure => true,
            ScalarHeapEffect::FrameWrite => node.frame_definitions.len() == 1 && match node.frame_definitions[0] {
                FrameSlot::Local(index) => (index as usize) < owned_locals.len() && !owned_locals[index as usize],
                _ => false,
            },
            ScalarHeapEffect::HeapWrite => false,
            ScalarHeapEffect::Reentrant => {
                let name = node_name(node);
                bytecode && ((name_is(name, "get_array_el") || name_is(name, "put_array_el")) && guarded[i] || name_is(
                    name,
                    "to_propkey",
                ) || known_operation(name, &scalar_nodes[i]))
            },
        };
        kept.push(keeps);
    }
    assert(kept@ =~= Seq::new(
        ir.nodes@.len(),
        |i: int| keeps_arrays(ir.nodes@[i], scalar_nodes@[i], owned_locals@, guarded@[i]),
    ));
    kept
}

/// The node is a guarded leaf: it leaves before anything can be observed, so no
/// poll has to stand between it and the next.
pub open spec fn allows_amortized(
    node: OptimizedNode,
    scalar: ScalarNode,
    arrays: ArrayPlan,
    access: Option<PropertyAccessPlan>,
    specialization: NumericSpecialization,
) -> bool {
    let leaf = match arrays.access_at(node.id) {
        Some(a) => a.access != ArrayAccess::Length || arrays.hoists_length(node.id),
        None => false,
    };
    ||| leaf
    ||| access is Some
    ||| node.is_bytecode() && ((node.name() == "get_field"@ || node.name() == "put_field"@)
        && specialization.properties@.contains_key(node.pc) || knows_operation(node.name(), scalar))
}

/// The nodes that an amortized poll may pass over.
pub fn guarded_heap_sites(
    ir: &OptimizedIr,
    scalar_nodes: &Vec<ScalarNode>,
    arrays: &ArrayPlan,
    accesses: &Vec<Option<PropertyAccessPlan>>,
    specialization: &NumericSpecialization,
) -> (r: Vec<bool>)
    requires
        scalar_nodes@.len() == ir.nodes@.len(),
        accesses@.len() == ir.nodes@.len(),
    ensures
        r@ == Seq::new(
            ir.nodes@.len(),
            |i: int| allows_amortized(ir.nodes@[i], scalar_nodes@[i], *arrays, accesses@[i], *specialization),
        ),
{
    let mut sites: Vec<bool> = Vec::new();
    while sites.len() < ir.nodes.len()
        invariant
            sites@.len() <= ir.nodes@.len(),
            scalar_nodes@.len() == ir.nodes@.len(),
            accesses@.len() == ir.nodes@.len(),
            forall|k: int|
                0 <= k < sites@.len() ==> sites@[k] == allows_amortized(
                    ir.nodes@[k],
                    scalar_nodes@[k],
                    *arrays,
                    accesses@[k],
                    *specialization,
                ),
        decreases ir.nodes@.len() - sites@.len(),
    {
        let i: usize = sites.len();
        let node = &ir.nodes[i];
        let bytecode = matches!(&node.kind, OptimizedNodeKind::Bytecode { .. });
        let name = node_name(node);
        let field = (name_is(name, "get_field") || name_is(name, "put_field")) && specialization.properties.contains_key(
            &node.pc,
        );
        let allowed = arrays.guarded_leaf(node.id) || accesses[i].is_some() || bytecode && (field || known_operation(
            name,
            &scalar_nodes[i],
        ));
        sites.push(allowed);
    }
    assert(sites@ =~= Seq::new(
        ir.nodes@.len(),
        |i: int| allows_amortized(ir.nodes@[i], scalar_nodes@[i], *arrays, accesses@[i], *specialization),
    ));
    sites
}

/// How a plan is refined until it relies on its own sites alone.
///
/// Facts are first drawn from the sites that feedback proposes. From then on
/// they are drawn from the sites of the plan at hand, and the plan made from
/// them takes its place, until nothing is gained.
#[derive(Debug)]
pub struct PlanRefinement {
    /// The sites that the next facts rely on.
    pub guarded: Vec<bool>,
    /// How many plans were made from the sites of a plan.
    pub rounds: usize,
    pub started: bool,
    pub finished: bool,
    /// Nothing is gained from a plan without sites.
    pub ends_when_empty: bool,
}

/// What becomes of the plan that was just made.
#[derive(Clone, Copy, Debug, PartialEq, Eq, Structural)]
pub enum Verdict {
    /// It takes the place of the plan at hand.
    Keep,
    /// Nothing is planned.
    Drop,
}

pub open spec fn no_sites(n: nat) -> Seq<bool> {
    Seq::new(n, |i: int| false)
}

impl PlanRefinement {
    pub open spec fn wf(self) -> bool {
        self.rounds <= MAX_REFINEMENTS
    }

    /// What the sites of the first plan say: all that was proposed is there, or
    /// nothing is planned.
    pub open spec fn first_verdict(self, sites: Seq<bool>) -> Verdict {
        if refinement_of(self.guarded@, sites) == Refinement::Discard {
            Verdict::Drop
        } else {
            Verdict::Keep
        }
    }

    pub open spec fn kept_sites(self, sites: Seq<bool>) -> Seq<bool> {
        if refinement_of(self.guarded@, sites) == Refinement::Discard {
            no_sites(sites.len())
        } else {
            sites
        }
    }

    pub open spec fn ends(self, sites: Seq<bool>) -> bool {
        if self.started {
            ||| refinement_of(self.guarded@, sites) != Refinement::Again
            ||| self.rounds + 1 >= MAX_REFINEMENTS
            ||| self.ends_when_empty && !self.kept_sites(sites).contains(true)
        } else {
            self.ends_when_empty && !self.kept_sites(sites).contains(true)
        }
    }

    /// The first facts rely on what feedback proposes.
    pub fn new(assumed: Vec<bool>, ends_when_empty: bool) -> (r: PlanRefinement)
        ensures
            r.wf(),
            r.guarded == assumed,
            r.rounds == 0,
            !r.started,
            !r.finished,
            r.ends_when_empty == ends_when_empty,
    {
        PlanRefinement { guarded: assumed, rounds: 0, started: false, finished: false, ends_when_empty }
    }

    /// Takes the sites of the plan that was made from facts on `guarded`.
    pub fn advance(&mut self, sites: Vec<bool>) -> (r: Verdict)
        requires
            old(self).wf(),
            !old(self).finished,
            old(self).rounds < MAX_REFINEMENTS,
        ensures
            final(self).wf(),
            r == old(self).first_verdict(sites@),
            final(self).guarded@ == old(self).kept_sites(sites@),
            final(self).started,
            final(self).rounds == if old(self).started {
                old(self).rounds + 1
            } else {
                old(self).rounds as int
            },
            final(self).finished == old(self).ends(sites@),
            !final(self).finished ==> final(self).rounds < MAX_REFINEMENTS,
            final(self).ends_when_empty == old(self).ends_when_empty,
    {
        let step = refine(&self.guarded, &sites);
        let n: usize = sites.len();
        let kept = if step == Refinement::Discard {
            none_of(n)
        } else {
            sites
        };
        let empty = self.ends_when_empty && !any_of(&kept);
        self.guarded = kept;
        if self.started {
            self.rounds = self.rounds + 1;
            self.finished = step != Refinement::Again || self.rounds >= MAX_REFINEMENTS || empty;
        } else {
            self.started = true;
            self.finished = empty;
        }
        if step == Refinement::Discard {
            Verdict::Drop
        } else {
            Verdict::Keep
        }
    }
}

fn none_of(n: usize) -> (r: Vec<bool>)
    ensures
        r@ == no_sites(n as nat),
{
    let mut sites: Vec<bool> = Vec::new();
    while sites.len() < n
        invariant
            sites@.len() <= n,
            forall|k: int| 0 <= k < sites@.len() ==> !#[trigger] sites@[k],
        decreases n - sites@.len(),
    {
        sites.push(false);
    }
    assert(sites@ =~= no_sites(n as nat));
    sites
}

fn any_of(sites: &Vec<bool>) -> (r: bool)
    ensures
        r == sites@.contains(true),
{
    let mut k: usize = 0;
    while k < sites.len()
        invariant
            k <= sites@.len(),
            forall|j: int| 0 <= j < k ==> !#[trigger] sites@[j],
        decreases sites@.len() - k,
    {
        if sites[k] {
            assert(sites@[k as int]);
            return true;
        }
        k = k + 1;
    }
    false
}

/// No site that facts relied on is ever lost: the sites of the plan at hand hold
/// every site that its facts relied on, or nothing is planned.
pub proof fn plans_hold_their_premises(before: PlanRefinement, sites: Seq<bool>)
    requires
        before.wf(),
    ensures
        before.first_verdict(sites) == Verdict::Keep ==> (forall|i: int|
            0 <= i < before.guarded@.len() && #[trigger] before.guarded@[i] ==> i < sites.len() && sites[i]
                && before.kept_sites(sites)[i]),
        before.first_verdict(sites) == Verdict::Drop ==> !before.kept_sites(sites).contains(true),
{
}

/// How much work an analysis may do: a multiple of the nodes and values.
pub open spec fn work_of(ir: OptimizedIr, factor: usize) -> int {
    clamped(clamped((ir.nodes@.len() + ir.values@.len()) as int) * factor)
}

/// What each node and value adds to the work that field promotion may do.
pub const PROPERTY_WORK: usize = 128;

/// What each node and value adds to the work that array planning may do.
pub const ARRAY_WORK: usize = 192;

pub fn analysis_work(ir: &OptimizedIr, factor: usize) -> (r: usize)
    ensures
        r == work_of(*ir, factor),
{
    let nodes: usize = ir.nodes.len();
    let values: usize = ir.values.len();
    let items: usize = match nodes.checked_add(values) {
        Some(items) => items,
        None => usize::MAX,
    };
    assert(items as int * factor as int >= 0) by (nonlinear_arith)
        requires
            items >= 0,
            factor >= 0,
    ;
    match items.checked_mul(factor) {
        Some(work) => work,
        None => usize::MAX,
    }
}

/// The operand slots of the frame: the function's own and those of the helpers.
pub fn operand_slots(ir: &OptimizedIr) -> (r: usize)
    ensures
        r == ir.max_stack + ir.helper_scratch_slots,
{
    ir.max_stack as usize + ir.helper_scratch_slots as usize
}

/// What is settled of a function's shape before it is lowered.
#[derive(Clone, Copy, Debug, PartialEq, Eq, Structural)]
pub struct LoweringShape {
    pub int32_loop: bool,
    pub amortized_poll: bool,
    pub defer_locals: bool,
    pub stack_slots: usize,
}

/// Settles the shape of a function; `permitted` says that every node permits an
/// amortized poll.
pub fn lowering_shape(
    ir: &OptimizedIr,
    specialization: &NumericSpecialization,
    side_path: bool,
    permitted: bool,
    owned_locals: &Vec<bool>,
) -> (r: LoweringShape)
    ensures
        r.int32_loop == is_int32_loop(*specialization, *ir),
        r.amortized_poll == (r.int32_loop || !side_path && permitted),
        r.defer_locals == defers_locals(r.amortized_poll, r.int32_loop, owned_locals@),
        r.stack_slots == ir.max_stack + ir.helper_scratch_slots,
{
    let int32_loop = uses_int32_loop(specialization, ir);
    let amortized_poll = amortizes_polls(int32_loop, side_path, permitted);
    LoweringShape {
        int32_loop,
        amortized_poll,
        defer_locals: defer_scalar_locals(amortized_poll, int32_loop, owned_locals),
        stack_slots: operand_slots(ir),
    }
}

/// A loop polls only now and then: in a loop on raw Int32, and in a function
/// without a side path where every node permits it.
pub fn amortizes_polls(int32_loop: bool, side_path: bool, permitted: bool) -> (r: bool)
    ensures
        r == (int32_loop || !side_path && permitted),
{
    int32_loop || !side_path && permitted
}

/// The node keeps what a variable holds of the field: the field is not given up
/// before it, but where only a poll is passed, and it is no access of a field
/// that may be the same.
pub open spec fn keeps_field(
    node: OptimizedNode,
    access: Option<PropertyAccessPlan>,
    boundary: PropertyBoundary,
    amortized_poll: bool,
    candidate: usize,
) -> bool {
    &&& boundary != PropertyBoundary::FlushInvalidate || amortized_poll && is_loop_poll(node)
    &&& access matches Some(other) ==> !other.aliases@.contains(candidate)
}

fn field_kept(
    node: &OptimizedNode,
    access: &Option<PropertyAccessPlan>,
    boundary: PropertyBoundary,
    amortized_poll: bool,
    candidate: usize,
) -> (r: bool)
    ensures
        r == keeps_field(*node, *access, boundary, amortized_poll, candidate),
{
    if boundary == PropertyBoundary::FlushInvalidate && !(amortized_poll && matches!(
        &node.kind,
        OptimizedNodeKind::GuardNumeric { mid_loop: true, .. }
    )) {
        return false;
    }
    match access {
        None => true,
        Some(other) => {
            let mut k: usize = 0;
            while k < other.aliases.len()
                invariant
                    k <= other.aliases@.len(),
                    access == Some(*other),
                    forall|j: int| 0 <= j < k ==> #[trigger] other.aliases@[j] != candidate,
                decreases other.aliases@.len() - k,
            {
                if other.aliases[k] == candidate {
                    assert(other.aliases@[k as int] == candidate);
                    return false;
                }
                k = k + 1;
            }
            true
        },
    }
}

/// The function, its loops, and the plan of its promoted fields.
pub struct FieldPlan<'a> {
    pub ir: &'a OptimizedIr,
    pub loops: &'a LoopAnalysis,
    pub accesses: &'a Vec<Option<PropertyAccessPlan>>,
    pub boundaries: &'a Vec<PropertyBoundary>,
    pub amortized_poll: bool,
}

impl<'a> FieldPlan<'a> {
    pub open spec fn wf(self) -> bool {
        &&& self.ir.wf()
        &&& self.accesses@.len() == self.ir.nodes@.len()
        &&& self.boundaries@.len() == self.ir.nodes@.len()
        &&& forall|b: int, k: int|
            0 <= b < self.ir.blocks@.len() && 0 <= k < self.ir.blocks@[b].nodes@.len()
                ==> #[trigger] self.ir.blocks@[b].nodes@[k] < self.ir.nodes@.len()
    }

    pub open spec fn keeps(self, id: int, candidate: usize) -> bool {
        keeps_field(self.ir.nodes@[id], self.accesses@[id], self.boundaries@[id], self.amortized_poll, candidate)
    }

    pub open spec fn block_keeps(self, b: int, candidate: usize) -> bool {
        forall|k: int|
            0 <= k < self.ir.blocks@[b].nodes@.len() ==> self.keeps(#[trigger] self.ir.blocks@[b].nodes@[k] as int, candidate)
    }

    /// Every node of the loop keeps the field.
    pub open spec fn loop_keeps(self, l: int, candidate: usize) -> bool {
        forall|b: int|
            0 <= b < self.ir.blocks@.len() && self.loops.loops@[l].members@.contains(
                (#[trigger] self.ir.blocks@[b]).start_pc,
            ) ==> self.block_keeps(b, candidate)
    }

    /// The first loop that holds the block.
    pub open spec fn loop_of(self, block: u32) -> Option<int> {
        first_at(|l: int| self.loops.loops@[l].members@.contains(block), self.loops.loops@.len())
    }

    /// An earlier access of the field is always passed on the way to the node, and
    /// nothing between them gives the field up.
    pub open spec fn seeded_by(self, seed: int, id: int, candidate: usize) -> bool {
        &&& 0 <= seed < id
        &&& self.accesses@[seed] matches Some(access) && access.candidate == candidate
        &&& self.loops.node_dominates_spec(seed, id)
        &&& forall|k: int| seed < k < id ==> #[trigger] self.keeps(k, candidate)
    }

    /// The access needs no validity check: the loop around it keeps the field, and
    /// an earlier access put it there.
    pub open spec fn forwards(self, id: int) -> bool {
        &&& self.accesses@[id] matches Some(access) && (self.loops.block_of(id) matches Some(block) && (self.loop_of(
            block,
        ) matches Some(l) && self.loop_keeps(l, access.candidate) && exists|seed: int| #[trigger]
            self.seeded_by(seed, id, access.candidate)))
    }

    fn find_loop(&self, block: u32) -> (r: Option<usize>)
        ensures
            match r {
                Some(l) => self.loop_of(block) == Some(l as int) && l < self.loops.loops@.len(),
                None => self.loop_of(block) is None,
            },
    {
        let ghost f = |l: int| self.loops.loops@[l].members@.contains(block);
        let mut l: usize = 0;
        while l < self.loops.loops.len()
            invariant
                l <= self.loops.loops@.len(),
                f == (|l: int| self.loops.loops@[l].members@.contains(block)),
                forall|k: int| 0 <= k < l ==> !#[trigger] f(k),
            decreases self.loops.loops@.len() - l,
        {
            if self.loops.loops[l].contains_block(block) {
                proof {
                    assert(f(l as int));
                    first_at_is(f, self.loops.loops@.len(), l as int);
                }
                return Some(l);
            }
            assert(!f(l as int));
            l = l + 1;
        }
        proof {
            first_at_none(f, self.loops.loops@.len());
        }
        None
    }

    fn kept_by(&self, id: usize, candidate: usize) -> (r: bool)
        requires
            self.wf(),
            id < self.ir.nodes@.len(),
        ensures
            r == self.keeps(id as int, candidate),
    {
        field_kept(&self.ir.nodes[id], &self.accesses[id], self.boundaries[id], self.amortized_poll, candidate)
    }

    fn block_kept(&self, b: usize, candidate: usize) -> (r: bool)
        requires
            self.wf(),
            b < self.ir.blocks@.len(),
        ensures
            r == self.block_keeps(b as int, candidate),
    {
        let nodes = &self.ir.blocks[b].nodes;
        let mut k: usize = 0;
        while k < nodes.len()
            invariant
                self.wf(),
                b < self.ir.blocks@.len(),
                nodes@ == self.ir.blocks@[b as int].nodes@,
                k <= nodes@.len(),
                forall|j: int| 0 <= j < k ==> self.keeps(#[trigger] self.ir.blocks@[b as int].nodes@[j] as int, candidate),
            decreases nodes@.len() - k,
        {
            assert(self.ir.blocks@[b as int].nodes@[k as int] < self.ir.nodes@.len());
            if !self.kept_by(nodes[k] as usize, candidate) {
                return false;
            }
            k = k + 1;
        }
        true
    }

    fn loop_kept(&self, l: usize, candidate: usize) -> (r: bool)
        requires
            self.wf(),
            l < self.loops.loops@.len(),
        ensures
            r == self.loop_keeps(l as int, candidate),
    {
        let mut b: usize = 0;
        while b < self.ir.blocks.len()
            invariant
                self.wf(),
                l < self.loops.loops@.len(),
                b <= self.ir.blocks@.len(),
                forall|c: int|
                    0 <= c < b && self.loops.loops@[l as int].members@.contains((#[trigger] self.ir.blocks@[c]).start_pc)
                        ==> self.block_keeps(c, candidate),
            decreases self.ir.blocks@.len() - b,
        {
            if self.loops.loops[l].contains_block(self.ir.blocks[b].start_pc) && !self.block_kept(b, candidate) {
                assert(!self.block_keeps(b as int, candidate));
                return false;
            }
            b = b + 1;
        }
        true
    }

    /// Looks for the access that put the field into its variable. Going backwards
    /// from the node, nothing before a node that gives the field up can be one.
    fn seeded(&self, id: usize, candidate: usize) -> (r: bool)
        requires
            self.wf(),
            id < self.ir.nodes@.len(),
            self.ir.nodes@.len() <= u32::MAX,
        ensures
            r == exists|seed: int| #[trigger] self.seeded_by(seed, id as int, candidate),
    {
        let mut seed: usize = id;
        while seed > 0
            invariant
                self.wf(),
                seed <= id < self.ir.nodes@.len() <= u32::MAX,
                forall|k: int| seed <= k < id ==> !#[trigger] self.seeded_by(k, id as int, candidate),
                forall|k: int| seed <= k < id ==> #[trigger] self.keeps(k, candidate),
            decreases seed,
        {
            seed = seed - 1;
            let same = match &self.accesses[seed] {
                Some(access) => access.candidate == candidate,
                None => false,
            };
            if same && self.loops.node_dominates(seed as u32, id as u32) {
                assert(self.seeded_by(seed as int, id as int, candidate));
                return true;
            }
            assert(!self.seeded_by(seed as int, id as int, candidate));
            if !self.kept_by(seed, candidate) {
                assert(!self.keeps(seed as int, candidate));
                assert forall|k: int| !#[trigger] self.seeded_by(k, id as int, candidate) by {
                    if k < seed {
                        assert(k < 0 || !(forall|j: int| k < j < id ==> #[trigger] self.keeps(j, candidate)));
                    }
                }
                return false;
            }
        }
        assert forall|k: int| !#[trigger] self.seeded_by(k, id as int, candidate) by {
        }
        false
    }

    fn forwarded(&self, id: usize) -> (r: bool)
        requires
            self.wf(),
            id < self.ir.nodes@.len() <= u32::MAX,
        ensures
            r == self.forwards(id as int),
    {
        let candidate: usize = match &self.accesses[id] {
            Some(access) => access.candidate,
            None => return false,
        };
        let block: u32 = match self.loops.block_for_node(id as u32) {
            Some(block) => block,
            None => return false,
        };
        match self.find_loop(block) {
            Some(l) => self.loop_kept(l, candidate) && self.seeded(id, candidate),
            None => false,
        }
    }

    /// The accesses in loops whose field is always in its variable.
    pub fn forwarded_sites(&self) -> (r: BTreeSet<u32>)
        requires
            self.wf(),
            self.ir.nodes@.len() <= u32::MAX,
        ensures
            forall|id: u32| #[trigger] r@.contains(id) <==> id < self.ir.nodes@.len() && self.forwards(id as int),
    {
        let mut sites: BTreeSet<u32> = BTreeSet::new();
        let mut id: usize = 0;
        while id < self.ir.nodes.len()
            invariant
                self.wf(),
                id <= self.ir.nodes@.len() <= u32::MAX,
                forall|k: u32| #[trigger] sites@.contains(k) <==> k < id && self.forwards(k as int),
            decreases self.ir.nodes@.len() - id,
        {
            if self.forwarded(id) {
                sites.insert(id as u32);
            }
            id = id + 1;
        }
        sites
    }
}

} // verus!
