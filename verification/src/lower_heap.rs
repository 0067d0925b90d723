//! Lowering of the opcodes that reach the heap: globals, properties, array
//! elements and lengths.
use crate::arithmetic::deopts;
use crate::arithmetic::emit_opt_guarded_propkey;
use crate::arithmetic::folded;
use crate::arithmetic::is_property_key;
use crate::arithmetic::may_deopt;
use crate::array_plan::ArrayPlan;
use crate::code::kept;
use crate::code::Code;
use crate::code::Status;
use crate::code::World;
use crate::control::CompileFailure;
use crate::element_access::dropped_three;
use crate::element_access::emit_opt_element_get;
use crate::element_access::emit_opt_element_put;
use crate::element_access::emit_opt_typed_store;
use crate::element_access::get_post;
use crate::element_access::put_post;
use crate::element_access::source_after;
use crate::element_access::typed_source;
use crate::element_access::typed_store_post;
use crate::element_access::usable_source;
use crate::elements::emit_opt_array_length;
use crate::elements::length_known;
use crate::elements::length_post;
use crate::elements::root_slot;
use crate::elements::typed_mode_known;
use crate::elements::GuardedElementSource;
use crate::exits::flush;
use crate::exits::flush_trace;
use crate::exits::flush_vars;
use crate::exits::own_failure;
use crate::exits::placed_failure;
use crate::helpers::owned_push_failure;
use crate::property_access::guarded_property_failure;
use crate::exits::stack_ownable;
use crate::frame::helper_known;
use crate::frame::runs_on;
use crate::frame::CachedVars;
use crate::frame::OptEnv;
use crate::helpers::emit_opt_owned_helper_push;
use crate::helpers::emit_opt_owned_property_replace;
use crate::helpers::owned_below;
use crate::helpers::push_failure;
use crate::helpers::push_post;
use crate::helpers::replace_post;
use crate::ir::OptimizedNode;
use crate::lower_values::vars_after;
use crate::lowering::LowerState;
use crate::lowering::Lowered;
use crate::ownership::opt_reject_owned;
use crate::property_access::borrowed_root;
use crate::property_access::emit_opt_guarded_property;
use crate::property_access::property_post;
use crate::property_access::property_provenance;
use crate::property_access::property_ready;
use crate::property_access::receiver_slot;
use crate::property_cache::access_allowed;
use crate::property_cache::access_failure;
use crate::property_cache::access_post;
use crate::property_cache::access_provenance;
use crate::property_cache::invalid_entries;
use crate::property_cache::invalidate;
use crate::property_cache::PropertyAccessPlan;
use crate::property_cache::PropertyCache;
use crate::provenance::OptProvenance;
use crate::qjs::JS_TAG_INT;
use crate::runtime::ArrayAccess;
use crate::runtime::ArrayMode;
use crate::runtime::ObservedType;
use crate::runtime::ShapeObservation;
use crate::typing::steady;
use crate::typing::closing;
use crate::typing::calm;
use crate::assemble::Known;
use crate::frame_typing::pair_held;
use crate::frame_typing::slot_named;
use crate::frame_typing::slots_named;
use crate::frame_typing::cached_named;
use crate::frame_typing::cache_named;
use crate::frame_typing::state_held;
use vstd::prelude::*;

verus! {

broadcast use {crate::typing::group_typing, crate::frame_typing::group_frame, crate::exits::own_failures};

/// Every pending write is published.
pub open spec fn published(cache: Seq<CachedVars>, a: Code, b: Code) -> bool {
    &&& a.len() <= b.len()
    &&& forall|w: World|
        #![trigger b.at(w)]
        match a.at(w) {
            Status::Run(s) => runs_on(
                b.at(w),
                s,
                a.len(),
                flush_vars(s.vars, cache, cache.len()),
                flush_trace(s.vars, s.trace, cache, cache.len()),
            ),
            st => b.at(w) == st,
        }
}

/// Every pending write is published, and every promoted field forgotten.
pub open spec fn cleared(cache: Seq<CachedVars>, a: Code, b: Code) -> bool {
    &&& a.len() <= b.len()
    &&& forall|w: World|
        #![trigger b.at(w)]
        match a.at(w) {
            Status::Run(s) => runs_on(
                b.at(w),
                s,
                a.len(),
                invalid_entries(flush_vars(s.vars, cache, cache.len()), cache, cache.len()),
                flush_trace(s.vars, s.trace, cache, cache.len()),
            ),
            st => b.at(w) == st,
        }
}

/// Publishes and forgets every promoted field.
pub fn clear_cache(code: &mut Code, cache: &Vec<CachedVars>)
    ensures
        kept(*old(code), *final(code)),
        cache_named(*old(code), cache@) ==> steady(*old(code), *final(code)),
        cleared(cache@, *old(code), *final(code)),
{
    let ghost c0 = *code;
    flush(code, cache);
    let ghost c1 = *code;
    invalidate(code, cache);
    proof {
        assert forall|w: World|
            #![trigger code.at(w)]
            match c0.at(w) {
                Status::Run(s) => runs_on(
                    code.at(w),
                    s,
                    c0.len(),
                    invalid_entries(flush_vars(s.vars, cache@, cache@.len()), cache@, cache@.len()),
                    flush_trace(s.vars, s.trace, cache@, cache@.len()),
                ),
                st => code.at(w) == st,
            } by {
            let a = c1.at(w);
        }
    }
}

pub open spec fn owned_push_ready(env: OptEnv<'_>, helper: usize, m: Lowered) -> bool {
    push_failure(env, m.depth) is None && stack_ownable(env, m.provenance, m.depth) && helper_known(
        env,
        helper,
    )
}

/// A helper's owned result is pushed.
pub open spec fn owned_pushed(env: OptEnv<'_>, pc: u32, helper: usize, extra: Seq<u32>, a: Code, m: Lowered, b: Code, m2: Lowered) -> bool {
    &&& a.len() <= b.len()
    &&& m2 == Lowered {
        depth: m.depth + 1,
        provenance: owned_below(m.provenance, m.depth).update(m.depth, OptProvenance::OwnedSlot),
        ..m
    }
    &&& forall|w: World|
        #![trigger b.at(w)]
        push_post(env, a.at(w), b.at(w), a.len(), m.provenance, m.depth as nat, pc, helper as int, extra, w)
}

/// Pushes what a helper answers: a global, a property behind its receiver, or a
/// second reference to an owned value.
pub fn lower_owned_push(code: &mut Code, env: &OptEnv<'_>, ls: &mut LowerState, pc: u32, helper: usize, extra: &Vec<u32>) -> (r: Result<
    (),
    CompileFailure,
>)
    requires
        env.wf(old(code).len()),
        old(ls)@.wf(*env, old(code).len()),
    ensures
        kept(*old(code), *final(code)),
        r is Ok && env.typed(*old(code)) && state_held(*old(code), *old(ls))
            && env.takes(*old(code), helper, extra@.len() + 2)
            ==> steady(*old(code), *final(code)),
        r is Ok && env.typed(*old(code)) && state_held(*old(code), *old(ls))
            && env.takes(*old(code), helper, extra@.len() + 2)
            ==> state_held(*final(code), *final(ls)),
        r is Ok <==> owned_push_ready(*env, helper, old(ls)@),
        r matches Err(e) ==> e == owned_push_failure(*env, old(ls)@.provenance, old(ls)@.depth),
        r is Ok ==> final(ls)@.wf(*env, final(code).len()) && owned_pushed(
            *env,
            pc,
            helper,
            extra@,
            *old(code),
            old(ls)@,
            *final(code),
            final(ls)@,
        ),
{
    if env.int32_loop {
        return Err(CompileFailure::UnsupportedOpcode);
    }
    if ls.depth >= env.stack.len() {
        return Err(CompileFailure::ResourceLimit);
    }
    match emit_opt_owned_helper_push(code, env, &mut ls.provenance, ls.depth, pc, helper, extra) {
        Ok(depth) => {
            ls.depth = depth;
            Ok(())
        },
        Err(e) => Err(e),
    }
}

/// A second owner of the value in a stack slot is pushed, after every promoted
/// field was published.
pub open spec fn owner_copied(env: OptEnv<'_>, pc: u32, source: u32, a: Code, m: Lowered, b: Code, m2: Lowered) -> bool {
    exists|mid: Code|
        {
            &&& #[trigger] cleared(env.cache@, a, mid)
            &&& owned_pushed(env, pc, env.abi.helper_dup, seq![source], mid, m, b, m2)
        }
}

/// `dup` of a value that its stack slot owns. The second reference is a real
/// one: its making may collect, so everything is published before.
pub fn lower_owned_copy(code: &mut Code, env: &OptEnv<'_>, ls: &mut LowerState, pc: u32, source: u32) -> (r: Result<
    (),
    CompileFailure,
>)
    requires
        env.wf(old(code).len()),
        old(ls)@.wf(*env, old(code).len()),
    ensures
        kept(*old(code), *final(code)),
        r is Ok && env.typed(*old(code)) && state_held(*old(code), *old(ls)) ==> steady(*old(code), *final(code)),
        r is Ok && env.typed(*old(code)) && state_held(*old(code), *old(ls)) ==> state_held(*final(code), *final(ls)),
        r is Ok <==> owned_push_ready(*env, env.abi.helper_dup, old(ls)@),
        r matches Err(e) ==> e == owned_push_failure(*env, old(ls)@.provenance, old(ls)@.depth),
        r is Ok ==> final(ls)@.wf(*env, final(code).len()) && owner_copied(
            *env,
            pc,
            source,
            *old(code),
            old(ls)@,
            *final(code),
            final(ls)@,
        ),
{
    clear_cache(code, env.cache);
    let ghost mid = *code;
    let mut extra: Vec<u32> = Vec::new();
    extra.push(source);
    proof {
        assert(extra@ =~= seq![source]);
        assert(cleared(env.cache@, *old(code), mid));
    }
    lower_owned_push(code, env, ls, pc, env.abi.helper_dup, &extra)
}

pub open spec fn key_ready(env: OptEnv<'_>, guard: Option<u32>, m: Lowered) -> bool {
    &&& m.depth > 0
    &&& m.provenance[m.depth - 1] != OptProvenance::OwnedSlot
    &&& guard is Some
    &&& may_deopt(env, m.provenance, m.depth)
}

/// Control goes on where the stack top is a property key as it stands.
pub open spec fn key_checked(env: OptEnv<'_>, pc: u32, guard: Option<u32>, a: Code, m: Lowered, b: Code, m2: Lowered) -> bool {
    &&& a.len() <= b.len()
    &&& m2 == m
    &&& forall|w: World|
        #![trigger b.at(w)]
        match a.at(w) {
            Status::Run(s) => if is_property_key(s.vars[env.stack@[m.depth - 1].tag as int]) {
                runs_on(b.at(w), s, a.len(), s.vars, s.trace)
            } else {
                deopts(env, b.at(w), s, m.provenance, m.depth, pc, guard->Some_0, w)
            },
            st => b.at(w) == st,
        }
}

/// Why a property key is not checked.
pub open spec fn key_failure(env: OptEnv<'_>, guard: Option<u32>, m: Lowered) -> CompileFailure {
    if m.depth > 0 && m.provenance[m.depth - 1] == OptProvenance::OwnedSlot {
        CompileFailure::UnsupportedOpcode
    } else {
        placed_failure(guard is Some, env, m.provenance, m.depth)
    }
}

/// `to_propkey`.
pub fn lower_property_key(code: &mut Code, env: &OptEnv<'_>, ls: &mut LowerState, pc: u32, guard: Option<u32>) -> (r: Result<
    (),
    CompileFailure,
>)
    requires
        env.wf(old(code).len()),
        old(ls)@.wf(*env, old(code).len()),
    ensures
        kept(*old(code), *final(code)),
        r is Ok && env.typed(*old(code)) && state_held(*old(code), *old(ls)) ==> steady(*old(code), *final(code)),
        r is Ok && env.typed(*old(code)) && state_held(*old(code), *old(ls)) ==> state_held(*final(code), *final(ls)),
        r is Ok <==> key_ready(*env, guard, old(ls)@),
        r matches Err(e) ==> e == key_failure(*env, guard, old(ls)@),
        r is Ok ==> final(ls)@.wf(*env, final(code).len()) && key_checked(
            *env,
            pc,
            guard,
            *old(code),
            old(ls)@,
            *final(code),
            final(ls)@,
        ),
{
    let from = ls.below(1);
    if let Err(e) = opt_reject_owned(&ls.provenance, from, ls.depth) {
        return Err(e);
    }
    let guard = match guard {
        Some(guard) => guard,
        None => {
            return Err(CompileFailure::InvalidArtifact);
        },
    };
    match emit_opt_guarded_propkey(code, env, &ls.provenance, ls.depth, pc, guard) {
        Ok(depth) => {
            ls.depth = depth;
            Ok(())
        },
        Err(e) => Err(e),
    }
}

/// The property was seen to be an object.
pub open spec fn saw_object(observations: Seq<ShapeObservation>) -> bool {
    exists|k: int| 0 <= k < observations.len() && (#[trigger] observations[k]).value == ObservedType::Object
}

fn find_object(observations: &Vec<ShapeObservation>) -> (r: bool)
    ensures
        r == saw_object(observations@),
{
    let mut k: usize = 0;
    while k < observations.len()
        invariant
            k <= observations@.len(),
            forall|j: int| 0 <= j < k ==> (#[trigger] observations@[j]).value != ObservedType::Object,
        decreases observations@.len() - k,
    {
        if observations[k].value == ObservedType::Object {
            return true;
        }
        k = k + 1;
    }
    false
}

/// A property access: what was seen there, how it was planned, and whether its
/// promoted field is known to be valid in the loop.
pub struct FieldSite<'a> {
    pub node: &'a OptimizedNode,
    pub atom: Option<u32>,
    pub observations: Option<&'a Vec<ShapeObservation>>,
    pub access: Option<&'a PropertyAccessPlan>,
    pub forwarded: bool,
    pub store: bool,
    pub guard: u32,
}

impl<'a> FieldSite<'a> {
    /// The property is read as an object of its own.
    pub open spec fn owned(self) -> bool {
        &&& !self.store
        &&& self.observations matches Some(seen) && saw_object(seen@)
    }
}

pub open spec fn field_ready(env: OptEnv<'_>, cache: PropertyCache, site: FieldSite<'_>, m: Lowered) -> bool {
    let operands = if site.store {
        2int
    } else {
        1
    };
    if site.owned() {
        &&& site.atom is Some
        &&& m.depth > 0
        &&& push_failure(env, m.depth) is None
        &&& stack_ownable(env, m.provenance, m.depth)
        &&& helper_known(env, env.abi.helper_get_property)
        &&& helper_known(env, env.abi.helper_free)
    } else {
        match site.access {
            Some(access) => {
                &&& access_allowed(cache, *access, m.depth, m.provenance)
                &&& access_failure(env, cache, *access, *site.node, m.depth, m.provenance) is None
                &&& stack_ownable(env, m.provenance, m.depth)
            },
            None => {
                &&& !env.int32_loop
                &&& m.borrowed_from(if m.depth >= 2 { m.depth - 2 } else { 0 })
                &&& site.observations is Some
                &&& property_ready(env, site.store, site.observations->Some_0@, m.provenance, m.depth)
            },
        }
    }
}

/// A property whose value is an object replaces its receiver.
pub open spec fn field_replaced(env: OptEnv<'_>, site: FieldSite<'_>, a: Code, m: Lowered, b: Code, m2: Lowered) -> bool {
    exists|mid: Code|
        {
            &&& #[trigger] cleared(env.cache@, a, mid)
            &&& mid.len() <= b.len()
            &&& m2 == Lowered {
                provenance: owned_below(m.provenance, m.depth).update(m.depth - 1, OptProvenance::OwnedSlot).update(
                    m.depth,
                    OptProvenance::Unknown,
                ),
                ..m
            }
            &&& forall|w: World|
                #![trigger b.at(w)]
                replace_post(
                    env,
                    mid.at(w),
                    b.at(w),
                    mid.len(),
                    m.provenance,
                    m.depth as nat,
                    site.node.pc,
                    site.atom->Some_0,
                    w,
                )
        }
}

/// A promoted field is read or written.
pub open spec fn field_promoted(env: OptEnv<'_>, cache: PropertyCache, site: FieldSite<'_>, a: Code, m: Lowered, b: Code, m2: Lowered) -> bool {
    let access = *site.access->Some_0;
    &&& a.len() <= b.len()
    &&& m2 == Lowered {
        depth: if access.store {
            m.depth - 2
        } else {
            m.depth
        },
        provenance: access_provenance(m.provenance, access.store, m.depth),
        ..m
    }
    &&& forall|w: World|
        #![trigger b.at(w)]
        access_post(
            env,
            cache,
            access,
            a.at(w),
            b.at(w),
            a.len(),
            site.forwarded,
            m.provenance,
            m.depth,
            site.node.pc,
            site.node.deopt_guard->Some_0,
            w,
        )
}

/// A field of an object with one of the observed shapes is read or written,
/// after every promoted field was published.
pub open spec fn field_guarded(env: OptEnv<'_>, site: FieldSite<'_>, a: Code, m: Lowered, b: Code, m2: Lowered) -> bool {
    let object = m.depth - if site.store {
        2int
    } else {
        1
    };
    exists|mid: Code|
        {
            &&& #[trigger] cleared(env.cache@, a, mid)
            &&& mid.len() <= b.len()
            &&& m2 == Lowered {
                depth: if site.store {
                    m.depth - 2
                } else {
                    m.depth
                },
                provenance: property_provenance(m.provenance, site.store, m.depth),
                ..m
            }
            &&& forall|w: World|
                #![trigger b.at(w)]
                property_post(
                    env,
                    mid.at(w),
                    b.at(w),
                    mid.len(),
                    site.store,
                    borrowed_root(env, m.provenance, object, m.depth) is Some,
                    receiver_slot(env, m.provenance, object, m.depth) as u32,
                    site.observations->Some_0@,
                    m.provenance,
                    m.depth,
                    site.node.pc,
                    site.guard,
                    w,
                )
        }
}

pub open spec fn field_lowered(env: OptEnv<'_>, cache: PropertyCache, site: FieldSite<'_>, a: Code, m: Lowered, b: Code, m2: Lowered) -> bool {
    if site.owned() {
        field_replaced(env, site, a, m, b, m2)
    } else if site.access is Some {
        field_promoted(env, cache, site, a, m, b, m2)
    } else {
        field_guarded(env, site, a, m, b, m2)
    }
}

/// Why a field is not accessed.
pub open spec fn field_failure(env: OptEnv<'_>, cache: PropertyCache, site: FieldSite<'_>, m: Lowered) -> CompileFailure {
    if site.owned() {
        if site.atom is None {
            CompileFailure::InvalidArtifact
        } else if push_failure(env, m.depth) is Some {
            push_failure(env, m.depth)->Some_0
        } else if m.depth == 0 {
            CompileFailure::InvalidArtifact
        } else {
            own_failure(env, m.provenance, m.depth)
        }
    } else {
        match site.access {
            Some(access) => if !access_allowed(cache, *access, m.depth, m.provenance) {
                CompileFailure::UnsupportedOpcode
            } else {
                match access_failure(env, cache, *access, *site.node, m.depth, m.provenance) {
                    Some(failure) => failure,
                    None => own_failure(env, m.provenance, m.depth),
                }
            },
            None => if !m.borrowed_from(if m.depth >= 2 { m.depth - 2 } else { 0 }) {
                CompileFailure::UnsupportedOpcode
            } else if env.int32_loop || site.observations is None {
                CompileFailure::InvalidArtifact
            } else {
                guarded_property_failure(env, site.store, site.observations->Some_0@, m.provenance, m.depth)
            },
        }
    }
}

/// `get_field` and `put_field`. A planned access never falls back to a path
/// that could run code: where its promoted field cannot be used, the function
/// is not compiled.
pub fn lower_field(code: &mut Code, env: &OptEnv<'_>, cache: &PropertyCache, ls: &mut LowerState, site: &FieldSite<'_>) -> (r: Result<
    (),
    CompileFailure,
>)
    requires
        env.wf(old(code).len()),
        cache.wf(),
        old(ls)@.wf(*env, old(code).len()),
    ensures
        kept(*old(code), *final(code)),
        r is Ok && env.typed(*old(code)) && state_held(*old(code), *old(ls))
            && cache_named(*old(code), cache.entries@)
            ==> steady(*old(code), *final(code)),
        r is Ok && env.typed(*old(code)) && state_held(*old(code), *old(ls))
            && cache_named(*old(code), cache.entries@)
            ==> state_held(*final(code), *final(ls)),
        r is Ok <==> field_ready(*env, *cache, *site, old(ls)@),
        r matches Err(e) ==> e == field_failure(*env, *cache, *site, old(ls)@),
        r is Ok ==> final(ls)@.wf(*env, final(code).len()) && field_lowered(
            *env,
            *cache,
            *site,
            *old(code),
            old(ls)@,
            *final(code),
            final(ls)@,
        ),
{
    let ghost c0 = *code;
    let owned = !site.store && match site.observations {
        Some(seen) => find_object(seen),
        None => false,
    };
    if owned {
        clear_cache(code, env.cache);
        let ghost mid = *code;
        let atom = match site.atom {
            Some(atom) => atom,
            None => {
                return Err(CompileFailure::InvalidArtifact);
            },
        };
        if env.int32_loop {
            return Err(CompileFailure::UnsupportedOpcode);
        }
        if ls.depth >= env.stack.len() {
            return Err(CompileFailure::ResourceLimit);
        }
        match emit_opt_owned_property_replace(code, env, &mut ls.provenance, ls.depth, site.node.pc, atom) {
            Ok(depth) => {
                ls.depth = depth;
            },
            Err(e) => {
                return Err(e);
            },
        }
        assert(cleared(env.cache@, c0, mid));
        return Ok(());
    }
    if let Some(access) = site.access {
        if !cache.can_emit_access(access, ls.depth, &ls.provenance) {
            return Err(CompileFailure::UnsupportedOpcode);
        }
        match cache.emit_access(code, env, access, site.node, site.forwarded, ls.depth, &mut ls.provenance) {
            Ok(depth) => {
                ls.depth = depth;
            },
            Err(e) => {
                return Err(e);
            },
        }
        return Ok(());
    }
    clear_cache(code, env.cache);
    let ghost mid = *code;
    let from = ls.below(2);
    if let Err(e) = opt_reject_owned(&ls.provenance, from, ls.depth) {
        return Err(e);
    }
    let seen = match site.observations {
        Some(seen) => seen,
        None => {
            return Err(CompileFailure::InvalidArtifact);
        },
    };
    if env.int32_loop {
        return Err(CompileFailure::InvalidArtifact);
    }
    match emit_opt_guarded_property(
        code,
        env,
        &mut ls.provenance,
        ls.depth,
        site.store,
        seen,
        site.node.pc,
        site.guard,
    ) {
        Ok(depth) => {
            ls.depth = depth;
        },
        Err(e) => {
            return Err(e);
        },
    }
    assert(cleared(env.cache@, c0, mid));
    Ok(())
}

/// The planned load at the node, where its key is checked or covered.
pub open spec fn planned_load(plan: ArrayPlan, node: u32) -> Option<crate::array_plan::ArrayAccessPlan> {
    match plan.access_at(node) {
        Some(access) => if access.access == ArrayAccess::Load && (access.requires_index_guard || access.bounds_covered_by_hoist) {
            Some(access)
        } else {
            None
        },
        None => None,
    }
}

/// The mode that a load expects: that of its candidate, where the array on the
/// stack is the candidate's argument.
pub open spec fn expected_mode(plan: ArrayPlan, node: u32, m: Lowered) -> Option<ArrayMode> {
    match planned_load(plan, node) {
        Some(access) => if access.candidate < plan.candidates@.len() && m.depth >= 2 && m.provenance[m.depth - 2]
            == OptProvenance::Argument(plan.candidates@[access.candidate as int].argument as usize) {
            Some(plan.candidates@[access.candidate as int].mode)
        } else {
            None
        },
        None => None,
    }
}

pub open spec fn bounds_covered(plan: ArrayPlan, node: u32) -> bool {
    planned_load(plan, node) matches Some(access) && access.bounds_covered_by_hoist
}

fn find_load(plan: &ArrayPlan, node: u32, ls: &LowerState) -> (r: (Option<ArrayMode>, bool))
    requires
        ls.depth <= ls.provenance@.len(),
    ensures
        r.0 == expected_mode(*plan, node, ls@),
        r.1 == bounds_covered(*plan, node),
{
    match plan.access(node) {
        Some(access) => {
            if access.access == ArrayAccess::Load && (access.requires_index_guard || access.bounds_covered_by_hoist) {
                let candidates = plan.candidates();
                let mode = if access.candidate < candidates.len() && ls.depth >= 2 {
                    let candidate = candidates[access.candidate];
                    let receiver: usize = ls.depth - 2;
                    if ls.provenance[receiver] == OptProvenance::Argument(candidate.argument as usize) {
                        Some(candidate.mode)
                    } else {
                        None
                    }
                } else {
                    None
                };
                (mode, access.bounds_covered_by_hoist)
            } else {
                (None, false)
            }
        },
        None => (None, false),
    }
}

pub open spec fn load_ready(env: OptEnv<'_>, guard: Option<u32>, m: Lowered) -> bool {
    &&& !env.int32_loop
    &&& m.depth >= 2
    &&& m.borrowed_from(m.depth - 2)
    &&& guard is Some
    &&& stack_ownable(env, m.provenance, m.depth)
}

/// The array and its key are replaced by the element.
pub open spec fn element_loaded(
    env: OptEnv<'_>,
    expected: Option<ArrayMode>,
    covered: bool,
    block: u32,
    pc: u32,
    guard: Option<u32>,
    a: Code,
    m: Lowered,
    b: Code,
    m2: Lowered,
) -> bool {
    let origin = m.provenance[m.depth - 2];
    &&& a.len() <= b.len()
    &&& m2 == Lowered {
        depth: m.depth - 1,
        provenance: folded(m.provenance, m.depth - 2),
        source: m2.source,
        ..m
    }
    &&& m2.source matches Some(source) ==> m2.source == source_after(m.source, origin, expected, block, source.storage)
    &&& m2.source is None ==> source_after(m.source, origin, expected, block, arbitrary()) is None
    &&& forall|w: World|
        #![trigger b.at(w)]
        get_post(
            env,
            a.at(w),
            b.at(w),
            a.len(),
            usable_source(m.source, origin),
            expected,
            covered,
            if m2.source is Some {
                Some(m2.source->Some_0.storage)
            } else {
                None
            },
            m.provenance,
            m.depth,
            pc,
            guard->Some_0,
            w,
        )
}

/// Why an element is not loaded.
pub open spec fn load_failure(env: OptEnv<'_>, guard: Option<u32>, m: Lowered) -> CompileFailure {
    if env.int32_loop || m.depth < 2 {
        CompileFailure::InvalidArtifact
    } else if !m.borrowed_from(m.depth - 2) {
        CompileFailure::UnsupportedOpcode
    } else {
        placed_failure(guard is Some, env, m.provenance, m.depth)
    }
}

/// `get_array_el`.
pub fn lower_element_load(
    code: &mut Code,
    env: &OptEnv<'_>,
    plan: &ArrayPlan,
    ls: &mut LowerState,
    node: u32,
    block: u32,
    pc: u32,
    guard: Option<u32>,
) -> (r: Result<(), CompileFailure>)
    requires
        env.wf(old(code).len()),
        old(ls)@.wf(*env, old(code).len()),
    ensures
        kept(*old(code), *final(code)),
        r is Ok && env.typed(*old(code)) && state_held(*old(code), *old(ls)) ==> steady(*old(code), *final(code)),
        r is Ok && env.typed(*old(code)) && state_held(*old(code), *old(ls)) ==> state_held(*final(code), *final(ls)),
        r is Ok <==> load_ready(*env, guard, old(ls)@),
        r matches Err(e) ==> e == load_failure(*env, guard, old(ls)@),
        r is Ok ==> final(ls)@.wf(*env, final(code).len()) && element_loaded(
            *env,
            expected_mode(*plan, node, old(ls)@),
            bounds_covered(*plan, node),
            block,
            pc,
            guard,
            *old(code),
            old(ls)@,
            *final(code),
            final(ls)@,
        ),
{
    let (expected, covered) = find_load(plan, node, ls);
    if env.int32_loop || ls.depth < 2 {
        return Err(CompileFailure::InvalidArtifact);
    }
    let from = ls.below(2);
    if let Err(e) = opt_reject_owned(&ls.provenance, from, ls.depth) {
        return Err(e);
    }
    let guard = match guard {
        Some(guard) => guard,
        None => {
            return Err(CompileFailure::InvalidArtifact);
        },
    };
    match emit_opt_element_get(
        code,
        env,
        &mut ls.provenance,
        ls.depth,
        pc,
        guard,
        block,
        &mut ls.source,
        expected,
        covered,
    ) {
        Ok(depth) => {
            ls.depth = depth;
            Ok(())
        },
        Err(e) => Err(e),
    }
}

pub open spec fn length_ready(env: OptEnv<'_>, m: Lowered) -> bool {
    let index = m.depth - 1;
    let root = root_slot(env, m.provenance[index]);
    &&& !env.int32_loop
    &&& m.depth > 0
    &&& m.provenance[index] != OptProvenance::OwnedSlot
    &&& length_known(m.source, m.provenance, index) || root is Some && root->Some_0 <= u32::MAX && stack_ownable(
        env,
        m.provenance,
        index,
    ) && helper_known(env, env.abi.helper_get_property)
}

/// The array is replaced by its length.
pub open spec fn length_read(env: OptEnv<'_>, pc: u32, a: Code, m: Lowered, b: Code, m2: Lowered) -> bool {
    let index = m.depth - 1;
    &&& a.len() <= b.len()
    &&& if length_known(m.source, m.provenance, index) {
        &&& m2 == Lowered { provenance: m.provenance.update(index, OptProvenance::ImmediatePrimitive), ..m }
        &&& forall|w: World|
            #![trigger b.at(w)]
            match a.at(w) {
                Status::Run(s) => runs_on(
                    b.at(w),
                    s,
                    a.len(),
                    vars_after(
                        s.vars,
                        env.stack@[index],
                        s.vals[m.source->Some_0.storage.count as int],
                        JS_TAG_INT as int,
                    ),
                    s.trace,
                ),
                st => b.at(w) == st,
            }
    } else {
        &&& m2 == Lowered {
            provenance: owned_below(m.provenance, index).update(index, OptProvenance::OwnedSlot),
            source: None,
            ..m
        }
        &&& forall|w: World|
            #![trigger b.at(w)]
            length_post(env, a.at(w), b.at(w), a.len(), m.provenance, m.depth, pc, w)
    }
}

/// Why a length is not read.
pub open spec fn length_failure(env: OptEnv<'_>, m: Lowered) -> CompileFailure {
    let index = m.depth - 1;
    let root = root_slot(env, m.provenance[index]);
    if env.int32_loop || m.depth > 0 && (m.provenance[index] == OptProvenance::OwnedSlot || root is None) {
        CompileFailure::UnsupportedOpcode
    } else if m.depth == 0 {
        CompileFailure::InvalidArtifact
    } else if root->Some_0 > u32::MAX {
        CompileFailure::ResourceLimit
    } else {
        own_failure(env, m.provenance, index)
    }
}

/// `get_length`.
pub fn lower_length(code: &mut Code, env: &OptEnv<'_>, ls: &mut LowerState, pc: u32) -> (r: Result<(), CompileFailure>)
    requires
        env.wf(old(code).len()),
        old(ls)@.wf(*env, old(code).len()),
    ensures
        kept(*old(code), *final(code)),
        r is Ok && env.typed(*old(code)) && state_held(*old(code), *old(ls)) ==> steady(*old(code), *final(code)),
        r is Ok && env.typed(*old(code)) && state_held(*old(code), *old(ls)) ==> state_held(*final(code), *final(ls)),
        r is Ok <==> length_ready(*env, old(ls)@),
        r matches Err(e) ==> e == length_failure(*env, old(ls)@),
        r is Ok ==> final(ls)@.wf(*env, final(code).len()) && length_read(
            *env,
            pc,
            *old(code),
            old(ls)@,
            *final(code),
            final(ls)@,
        ),
{
    let from = ls.below(1);
    if let Err(e) = opt_reject_owned(&ls.provenance, from, ls.depth) {
        return Err(e);
    }
    match emit_opt_array_length(code, env, &mut ls.provenance, ls.depth, pc, &mut ls.source) {
        Ok(depth) => {
            ls.depth = depth;
            Ok(())
        },
        Err(e) => Err(e),
    }
}

/// The candidate of a planned store.
pub open spec fn planned_store(plan: ArrayPlan, node: u32) -> Option<crate::array_plan::ArrayCandidate> {
    match plan.access_at(node) {
        Some(access) => if access.access == ArrayAccess::Store && access.candidate < plan.candidates@.len() {
            Some(plan.candidates@[access.candidate as int])
        } else {
            None
        },
        None => None,
    }
}

fn find_store(plan: &ArrayPlan, node: u32) -> (r: Option<crate::array_plan::ArrayCandidate>)
    ensures
        r == planned_store(*plan, node),
{
    match plan.access(node) {
        Some(access) => {
            let candidates = plan.candidates();
            if access.access == ArrayAccess::Store && access.candidate < candidates.len() {
                Some(candidates[access.candidate])
            } else {
                None
            }
        },
        None => None,
    }
}

pub open spec fn store_ready(env: OptEnv<'_>, plan: ArrayPlan, node: u32, guard: Option<u32>, m: Lowered) -> bool {
    &&& !env.int32_loop
    &&& m.depth >= 3
    &&& m.borrowed_from(m.depth - 3)
    &&& guard is Some
    &&& stack_ownable(env, m.provenance, m.depth)
    &&& planned_store(plan, node) matches Some(candidate) ==> m.provenance[m.depth - 3] == OptProvenance::Argument(
        candidate.argument as usize,
    ) && typed_mode_known(Some(candidate.mode))
}

/// The value is stored, and the array's checked storage stays at hand.
pub open spec fn element_stored(
    env: OptEnv<'_>,
    plan: ArrayPlan,
    node: u32,
    block: u32,
    pc: u32,
    guard: Option<u32>,
    a: Code,
    m: Lowered,
    b: Code,
    m2: Lowered,
) -> bool {
    let origin = m.provenance[m.depth - 3];
    &&& a.len() <= b.len()
    &&& m2 == Lowered {
        depth: m.depth - 3,
        provenance: dropped_three(m.provenance, m.depth - 3),
        source: m2.source,
        ..m
    }
    &&& m2.source is Some
    &&& match planned_store(plan, node) {
        Some(candidate) => {
            let cached = typed_source(m.source, origin, candidate.mode);
            &&& cached is Some ==> m2.source == m.source
            &&& cached is None ==> m2.source->Some_0 == (GuardedElementSource {
                provenance: origin,
                block_pc: block,
                storage: m2.source->Some_0.storage,
                exact_length: false,
                typed_mode: Some(candidate.mode),
            })
            &&& forall|w: World|
                #![trigger b.at(w)]
                typed_store_post(
                    env,
                    a.at(w),
                    b.at(w),
                    a.len(),
                    cached,
                    candidate.mode,
                    m2.source->Some_0.storage,
                    m.provenance,
                    m.depth,
                    pc,
                    guard->Some_0,
                    w,
                )
        },
        None => {
            &&& m2.source->Some_0 == (GuardedElementSource {
                provenance: origin,
                block_pc: block,
                storage: m2.source->Some_0.storage,
                exact_length: false,
                typed_mode: None,
            })
            &&& forall|w: World|
                #![trigger b.at(w)]
                put_post(
                    env,
                    a.at(w),
                    b.at(w),
                    a.len(),
                    m2.source->Some_0.storage,
                    m.provenance,
                    m.depth,
                    pc,
                    guard->Some_0,
                    w,
                )
        },
    }
}

/// Why an element is not stored.
pub open spec fn store_failure(env: OptEnv<'_>, plan: ArrayPlan, node: u32, guard: Option<u32>, m: Lowered) -> CompileFailure {
    if env.int32_loop || m.depth < 3 {
        CompileFailure::InvalidArtifact
    } else if !m.borrowed_from(m.depth - 3) {
        CompileFailure::UnsupportedOpcode
    } else {
        let placed = planned_store(plan, node) matches Some(candidate) ==> m.provenance[m.depth - 3]
            == OptProvenance::Argument(candidate.argument as usize) && typed_mode_known(Some(candidate.mode));
        placed_failure(guard is Some && placed, env, m.provenance, m.depth)
    }
}

/// `put_array_el`. A planned store is always the guarded one: where the array on
/// the stack is not the planned argument, the function is not compiled.
pub fn lower_element_store(
    code: &mut Code,
    env: &OptEnv<'_>,
    plan: &ArrayPlan,
    ls: &mut LowerState,
    node: u32,
    block: u32,
    pc: u32,
    guard: Option<u32>,
) -> (r: Result<(), CompileFailure>)
    requires
        env.wf(old(code).len()),
        old(ls)@.wf(*env, old(code).len()),
    ensures
        kept(*old(code), *final(code)),
        r is Ok && env.typed(*old(code)) && state_held(*old(code), *old(ls)) ==> steady(*old(code), *final(code)),
        r is Ok && env.typed(*old(code)) && state_held(*old(code), *old(ls)) ==> state_held(*final(code), *final(ls)),
        r is Ok <==> store_ready(*env, *plan, node, guard, old(ls)@),
        r matches Err(e) ==> e == store_failure(*env, *plan, node, guard, old(ls)@),
        r is Ok ==> final(ls)@.wf(*env, final(code).len()) && element_stored(
            *env,
            *plan,
            node,
            block,
            pc,
            guard,
            *old(code),
            old(ls)@,
            *final(code),
            final(ls)@,
        ),
{
    if env.int32_loop || ls.depth < 3 {
        return Err(CompileFailure::InvalidArtifact);
    }
    let from = ls.below(3);
    if let Err(e) = opt_reject_owned(&ls.provenance, from, ls.depth) {
        return Err(e);
    }
    let origin = ls.provenance[from];
    let guard = match guard {
        Some(guard) => guard,
        None => {
            return Err(CompileFailure::InvalidArtifact);
        },
    };
    let stored = match find_store(plan, node) {
        Some(candidate) => {
            if origin != OptProvenance::Argument(candidate.argument as usize) {
                return Err(CompileFailure::InvalidArtifact);
            }
            emit_opt_typed_store(
                code,
                env,
                &mut ls.provenance,
                ls.depth,
                pc,
                guard,
                block,
                candidate.mode,
                &mut ls.source,
            )
        },
        None => emit_opt_element_put(
            code,
            env,
            &mut ls.provenance,
            ls.depth,
            pc,
            guard,
            block,
            origin,
            &mut ls.source,
        ),
    };
    match stored {
        Ok(depth) => {
            ls.depth = depth;
            Ok(())
        },
        Err(e) => Err(e),
    }
}

} // verus!
