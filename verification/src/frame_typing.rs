//! What a frame's names stand for in the code: values, variables, stack slots and
//! the signatures of helpers.
use crate::assemble::Known;
use crate::code::kept;
use crate::code::kept_kinds;
use crate::code::Code;
use crate::code::Ty;
use crate::element_code::StorageIds;
use crate::elements::GuardedElementSource;
use crate::frame::CachedVars;
use crate::frame::OptEnv;
use crate::inline_frames::InlineFrame;
use crate::inline_frames::InlineIds;
use crate::lower_values::OptPair;
use crate::lowering::LowerState;
use crate::machine::Machine;
use crate::lower_values::OptVars;
use vstd::prelude::*;

verus! {

broadcast use crate::code::kept_kinds;

/// A value stands at the pair's positions.
pub open spec fn pair_held(c: Code, p: OptPair) -> bool {
    c.holds(p.payload, Ty::I64) && c.holds(p.tag, Ty::I64)
}

/// The slot's variables stand there.
pub open spec fn slot_named(c: Code, v: OptVars, ty: Ty) -> bool {
    c.names(v.payload, ty) && c.names(v.tag, Ty::I64)
}

/// So do the variables of every slot of a list.
#[verifier::opaque]
pub open spec fn slots_named(c: Code, slots: Seq<OptVars>, ty: Ty) -> bool {
    forall|i: int| 0 <= i < slots.len() ==> slot_named(c, #[trigger] slots[i], ty)
}

pub broadcast proof fn slots_stay_named(a: Code, b: Code, slots: Seq<OptVars>, ty: Ty)
    requires
        #[trigger] kept(a, b),
        slots_named(a, slots, ty),
    ensures
        #[trigger] slots_named(b, slots, ty),
{
    reveal(slots_named);
}

pub broadcast proof fn slot_of_named(c: Code, slots: Seq<OptVars>, ty: Ty, i: int)
    requires
        #[trigger] slots_named(c, slots, ty),
        0 <= i < slots.len(),
    ensures
        slot_named(c, #[trigger] slots[i], ty),
{
    reveal(slots_named);
}

/// The types of a helper's parameters: the frame, and so many words.
pub open spec fn word_types(n: nat) -> Seq<Ty> {
    seq![Ty::I64] + Seq::new(n, |i: int| Ty::I32)
}

/// The variables of a promoted field stand there.
pub open spec fn cached_named(c: Code, e: CachedVars) -> bool {
    slot_named(c, e.value, Ty::I64) && c.names(e.data, Ty::I64) && c.names(e.valid, Ty::I8) && c.names(e.dirty, Ty::I8)
}

#[verifier::opaque]
pub open spec fn cache_named(c: Code, entries: Seq<CachedVars>) -> bool {
    forall|i: int| 0 <= i < entries.len() ==> cached_named(c, #[trigger] entries[i])
}

impl<'a> OptEnv<'a> {
    /// The helper takes so many words, if there is one.
    pub open spec fn takes(&self, c: Code, helper: usize, n: nat) -> bool {
        helper < self.helper_signatures@.len() ==> self.helper_signatures@[helper as int] < c.len() && c.kind(
            self.helper_signatures@[helper as int] as int,
        ) == Known::Signature(word_types(n), Some(Ty::I32))
    }

    /// The helpers take the words that they are given.
    pub open spec fn helpers_take(&self, c: Code) -> bool {
        &&& self.takes(c, self.abi.helper_free, 2)
        &&& self.takes(c, self.abi.helper_materialize_owner, 4)
        &&& self.takes(c, self.abi.helper_poll, 0)
        &&& self.takes(c, self.abi.helper_get_property, 4)
        &&& self.takes(c, self.abi.helper_call, 6)
        &&& self.takes(c, self.abi.helper_dup, 3)
        &&& self.takes(c, self.abi.helper_get_global, 3)
        &&& self.takes(c, self.abi.helper_set_property, 4)
        &&& self.takes(c, self.abi.helper_to_bool, 3)
        &&& self.takes(c, self.abi.helper_shape_guard, 6)
    }

    /// What the frame names stands in the code; slots hold tagged values.
    #[verifier::opaque]
    pub open spec fn typed(&self, c: Code) -> bool {
        &&& !self.int32_loop
        &&& self.payload_type == Ty::I64
        &&& c.holds(self.frame, Ty::I64)
        &&& c.holds(self.sret, Ty::I64)
        &&& c.holds(self.arg_buf, Ty::I64)
        &&& c.holds(self.var_buf, Ty::I64)
        &&& c.holds(self.stack_base, Ty::I64)
        &&& slots_named(c, self.arguments@, Ty::I64)
        &&& slots_named(c, self.locals@, Ty::I64)
        &&& slots_named(c, self.stack@, Ty::I64)
        &&& cache_named(c, self.cache@)
        &&& c.slotted(self.query_receiver)
        &&& c.slotted(self.query_metadata)
        &&& c.slotted(self.call_output)
        &&& self.helpers_take(c)
    }
}

pub broadcast proof fn frame_stays_typed(env: OptEnv<'_>, a: Code, b: Code)
    requires
        #[trigger] kept(a, b),
        env.typed(a),
    ensures
        #[trigger] env.typed(b),
{
    reveal(OptEnv::typed);
    reveal(cache_named);
    reveal(slots_named);
}

pub broadcast proof fn frame_of_typed(env: OptEnv<'_>, c: Code)
    requires
        #[trigger] env.typed(c),
    ensures
        !env.int32_loop,
        env.payload_type == Ty::I64,
        c.holds(env.frame, Ty::I64),
        c.holds(env.sret, Ty::I64),
        c.holds(env.arg_buf, Ty::I64),
        c.holds(env.var_buf, Ty::I64),
        c.holds(env.stack_base, Ty::I64),
        slots_named(c, env.arguments@, Ty::I64),
        slots_named(c, env.locals@, Ty::I64),
        slots_named(c, env.stack@, Ty::I64),
        cache_named(c, env.cache@),
        c.slotted(env.query_receiver),
        c.slotted(env.query_metadata),
        c.slotted(env.call_output),
        env.helpers_take(c),
{
    reveal(OptEnv::typed);
}

pub broadcast proof fn cache_stays_named(a: Code, b: Code, entries: Seq<CachedVars>)
    requires
        #[trigger] kept(a, b),
        cache_named(a, entries),
    ensures
        #[trigger] cache_named(b, entries),
{
    reveal(cache_named);
}

pub broadcast proof fn entry_of_named(c: Code, entries: Seq<CachedVars>, i: int)
    requires
        #[trigger] cache_named(c, entries),
        0 <= i < entries.len(),
    ensures
        cached_named(c, #[trigger] entries[i]),
{
    reveal(cache_named);
}

/// The variables of values stand there, by the values' numbers.
#[verifier::opaque]
pub open spec fn phis_named(c: Code, phis: Map<usize, OptVars>, ty: Ty) -> bool {
    forall|id: usize| #[trigger] phis.contains_key(id) ==> slot_named(c, phis[id], ty)
}

pub broadcast proof fn phis_stay_named(a: Code, b: Code, phis: Map<usize, OptVars>, ty: Ty)
    requires
        #[trigger] kept(a, b),
        phis_named(a, phis, ty),
    ensures
        #[trigger] phis_named(b, phis, ty),
{
    reveal(phis_named);
}

pub broadcast proof fn phi_of_named(c: Code, phis: Map<usize, OptVars>, ty: Ty, id: usize)
    requires
        #[trigger] phis_named(c, phis, ty),
        phis.contains_key(id),
    ensures
        slot_named(c, #[trigger] phis[id], ty),
{
    reveal(phis_named);
}

/// The values stand there.
#[verifier::opaque]
pub open spec fn values_held(c: Code, values: Map<usize, OptPair>) -> bool {
    forall|id: usize| #[trigger] values.contains_key(id) ==> pair_held(c, values[id])
}

pub broadcast proof fn values_stay_held(a: Code, b: Code, values: Map<usize, OptPair>)
    requires
        #[trigger] kept(a, b),
        values_held(a, values),
    ensures
        #[trigger] values_held(b, values),
{
    reveal(values_held);
}

pub broadcast proof fn value_of_held(c: Code, values: Map<usize, OptPair>, id: usize)
    requires
        #[trigger] values_held(c, values),
        values.contains_key(id),
    ensures
        pair_held(c, #[trigger] values[id]),
{
    reveal(values_held);
}

pub broadcast proof fn values_held_with(c: Code, values: Map<usize, OptPair>, id: usize, pair: OptPair)
    requires
        values_held(c, values),
        pair_held(c, pair),
    ensures
        #[trigger] values_held(c, values.insert(id, pair)),
{
    reveal(values_held);
}

/// An array's storage stands there.
pub open spec fn storage_held(c: Code, ids: StorageIds) -> bool {
    c.holds(ids.data, Ty::I64) && c.holds(ids.count, Ty::I32) && c.holds(ids.kind, Ty::I8)
}

pub open spec fn source_held(c: Code, source: Option<GuardedElementSource>) -> bool {
    source matches Some(found) ==> storage_held(c, found.storage)
}

#[verifier::opaque]
pub open spec fn sources_held(c: Code, sources: Map<u32, GuardedElementSource>) -> bool {
    forall|pc: u32| #[trigger] sources.contains_key(pc) ==> storage_held(c, sources[pc].storage)
}

pub broadcast proof fn sources_stay_held(a: Code, b: Code, sources: Map<u32, GuardedElementSource>)
    requires
        #[trigger] kept(a, b),
        sources_held(a, sources),
    ensures
        #[trigger] sources_held(b, sources),
{
    reveal(sources_held);
}

pub broadcast proof fn source_of_held(c: Code, sources: Map<u32, GuardedElementSource>, pc: u32)
    requires
        #[trigger] sources_held(c, sources),
        sources.contains_key(pc),
    ensures
        storage_held(c, (#[trigger] sources[pc]).storage),
{
    reveal(sources_held);
}

pub broadcast proof fn sources_held_with(c: Code, sources: Map<u32, GuardedElementSource>, pc: u32, source: GuardedElementSource)
    requires
        sources_held(c, sources),
        storage_held(c, source.storage),
    ensures
        #[trigger] sources_held(c, sources.insert(pc, source)),
{
    reveal(sources_held);
}

/// The variables of call targets stand there.
#[verifier::opaque]
pub open spec fn guards_named(c: Code, valid: Seq<usize>, used: Seq<usize>) -> bool {
    &&& forall|i: int| 0 <= i < valid.len() ==> c.names(#[trigger] valid[i], Ty::I8)
    &&& forall|i: int| 0 <= i < used.len() ==> c.names(#[trigger] used[i], Ty::I8)
}

pub broadcast proof fn guards_stay_named(a: Code, b: Code, valid: Seq<usize>, used: Seq<usize>)
    requires
        #[trigger] kept(a, b),
        guards_named(a, valid, used),
    ensures
        #[trigger] guards_named(b, valid, used),
{
    reveal(guards_named);
}

pub broadcast proof fn valid_of_named(c: Code, valid: Seq<usize>, used: Seq<usize>, i: int)
    requires
        #[trigger] guards_named(c, valid, used),
        0 <= i < valid.len(),
    ensures
        c.names(#[trigger] valid[i], Ty::I8),
{
    reveal(guards_named);
}

pub broadcast proof fn used_of_named(c: Code, valid: Seq<usize>, used: Seq<usize>, i: int)
    requires
        #[trigger] guards_named(c, valid, used),
        0 <= i < used.len(),
    ensures
        c.names(#[trigger] used[i], Ty::I8),
{
    reveal(guards_named);
}

/// What nodes computed stands there.
#[verifier::opaque]
pub open spec fn reusable_held(c: Code, reusable: Map<u32, OptPair>) -> bool {
    forall|id: u32| #[trigger] reusable.contains_key(id) ==> pair_held(c, reusable[id])
}

pub broadcast proof fn reusable_stay_held(a: Code, b: Code, reusable: Map<u32, OptPair>)
    requires
        #[trigger] kept(a, b),
        reusable_held(a, reusable),
    ensures
        #[trigger] reusable_held(b, reusable),
{
    reveal(reusable_held);
}

pub broadcast proof fn reusable_of_held(c: Code, reusable: Map<u32, OptPair>, id: u32)
    requires
        #[trigger] reusable_held(c, reusable),
        reusable.contains_key(id),
    ensures
        pair_held(c, #[trigger] reusable[id]),
{
    reveal(reusable_held);
}

pub broadcast proof fn reusable_held_with(c: Code, reusable: Map<u32, OptPair>, id: u32, pair: OptPair)
    requires
        reusable_held(c, reusable),
        pair_held(c, pair),
    ensures
        #[trigger] reusable_held(c, reusable.insert(id, pair)),
{
    reveal(reusable_held);
}

/// Everything that is held while a block is lowered stands there.
pub open spec fn state_held(c: Code, ls: LowerState) -> bool {
    values_held(c, ls.values@) && source_held(c, ls.source) && reusable_held(c, ls.reusable@)
}

/// The values stand there, each of its type.
pub open spec fn args_held(c: Code, args: Seq<usize>, types: Seq<Ty>) -> bool {
    args.len() == types.len() && forall|k: int| 0 <= k < args.len() ==> c.holds(#[trigger] args[k], types[k])
}

/// The addresses of an inlined frame stand there.
pub open spec fn ids_held(c: Code, ids: InlineIds) -> bool {
    &&& c.holds(ids.frame, Ty::I64)
    &&& c.holds(ids.arguments, Ty::I64)
    &&& c.holds(ids.locals, Ty::I64)
    &&& c.holds(ids.stack, Ty::I64)
}

impl<'a> InlineFrame<'a> {
    /// What the inlined frame names stands in the code.
    #[verifier::opaque]
    pub open spec fn typed(&self, c: Code) -> bool {
        self.root.typed(c) && ids_held(c, self.ids)
    }
}

pub broadcast proof fn inlined_stays_typed(f: InlineFrame<'_>, a: Code, b: Code)
    requires
        #[trigger] kept(a, b),
        f.typed(a),
    ensures
        #[trigger] f.typed(b),
{
    reveal(InlineFrame::typed);
    frame_stays_typed(*f.root, a, b);
}

pub broadcast proof fn inlined_of_typed(f: InlineFrame<'_>, c: Code)
    requires
        #[trigger] f.typed(c),
    ensures
        f.root.typed(c),
        ids_held(c, f.ids),
{
    reveal(InlineFrame::typed);
}

impl<'a> Machine<'a> {
    /// What the machine names stands in the code.
    #[verifier::opaque]
    pub open spec fn typed(&self, c: Code) -> bool {
        &&& self.env.typed(c)
        &&& phis_named(c, self.phis@, Ty::I64)
        &&& cache_named(c, self.cache.entries@)
        &&& guards_named(c, self.guards.valid@, self.guards.used@)
        &&& c.slotted(self.budget)
        &&& forall|pc: u32| #[trigger] self.blocks@.contains_key(pc) ==> c.blocked(self.blocks@[pc])
    }
}

pub broadcast proof fn machine_stays_typed(mx: Machine<'_>, a: Code, b: Code)
    requires
        #[trigger] kept(a, b),
        mx.typed(a),
    ensures
        #[trigger] mx.typed(b),
{
    reveal(Machine::typed);
    frame_stays_typed(*mx.env, a, b);
    phis_stay_named(a, b, mx.phis@, Ty::I64);
    cache_stays_named(a, b, mx.cache.entries@);
    guards_stay_named(a, b, mx.guards.valid@, mx.guards.used@);
}

pub broadcast proof fn machine_of_typed(mx: Machine<'_>, c: Code)
    requires
        #[trigger] mx.typed(c),
    ensures
        mx.env.typed(c),
        phis_named(c, mx.phis@, Ty::I64),
        cache_named(c, mx.cache.entries@),
        guards_named(c, mx.guards.valid@, mx.guards.used@),
        c.slotted(mx.budget),
{
    reveal(Machine::typed);
}

pub broadcast proof fn block_of_typed(mx: Machine<'_>, c: Code, pc: u32)
    requires
        #[trigger] mx.typed(c),
        mx.blocks@.contains_key(pc),
    ensures
        c.blocked(#[trigger] mx.blocks@[pc]),
{
    reveal(Machine::typed);
}

pub broadcast group group_frame {
    machine_stays_typed,
    machine_of_typed,
    block_of_typed,
    inlined_stays_typed,
    inlined_of_typed,
    reusable_stay_held,
    reusable_of_held,
    reusable_held_with,
    guards_stay_named,
    valid_of_named,
    used_of_named,
    phis_stay_named,
    phi_of_named,
    values_stay_held,
    value_of_held,
    values_held_with,
    sources_stay_held,
    source_of_held,
    sources_held_with,
    slots_stay_named,
    slot_of_named,
    frame_stays_typed,
    frame_of_typed,
    cache_stays_named,
    entry_of_named,
}

} // verus!
