//! Lowering of the guards at loop headers: the poll, and what has to be looked
//! at again after it.
use crate::call_guards::HoistedCallGuards;
use crate::code::waits_for_known_blocks;
use crate::code::kept;
use crate::code::Code;
use crate::code::Status;
use crate::code::World;
use crate::control::CompileFailure;
use crate::elements::emit_opt_packed_loop_revalidate;
use crate::elements::revalidation_post;
use crate::elements::source_argument;
use crate::elements::typed_mode_known;
use crate::elements::GuardedElementSource;
use crate::element_code::storage_known;
use crate::entry_guards::begin_amortized_poll;
use crate::entry_guards::countdown_post;
use crate::entry_guards::emit_opt_numeric_guard;
use crate::entry_guards::finish_amortized_poll;
use crate::entry_guards::guard_exit;
use crate::entry_guards::refilled_post;
use crate::entry_guards::side_path_trace;
use crate::entry_guards::slots_admitted;
use crate::entry_guards::slots_numeric;
use crate::entry_guards::some_double;
use crate::entry_guards::takes_side_path;
use crate::entry_guards::SlotRequirements;
use crate::exits::own_failure;
use crate::exits::placed_failure;
use crate::exits::slot_stores;
use crate::exits::stack_ownable;
use crate::exits::store_slots;
use crate::frame::as_arguments;
use crate::frame::flows;
use crate::frame::exits_with;
use crate::frame::helper_flow;
use crate::frame::helper_known;
use crate::frame::runs_on;
use crate::frame::top_store;
use crate::frame::OptEnv;
use crate::guard_code::arguments_known;
use crate::guard_code::refresh_post;
use crate::guard_code::state_wf;
use crate::guard_code::GuardState;
use crate::helpers::emit_opt_free_stack_slot;
use crate::helpers::emit_opt_poll;
use crate::helpers::flat_stack_slot;
use crate::helpers::poll_flow;
use crate::lower_heap::clear_cache;
use crate::lower_heap::cleared;
use crate::lower_values::pair_stores;
use crate::lowering::LowerState;
use crate::lowering::Lowered;
use crate::property_cache::candidates_failure;
use crate::property_cache::revalidate_post;
use crate::property_cache::PropertyCache;
use crate::provenance::OptProvenance;
use crate::runtime::SidePathProfile;
use crate::typing::steady;
use crate::typing::closing;
use crate::typing::calm;
use crate::assemble::Known;
use crate::frame_typing::pair_held;
use crate::frame_typing::slot_named;
use crate::frame_typing::slots_named;
use crate::frame_typing::cached_named;
use crate::frame_typing::cache_named;
use crate::frame_typing::state_held;
use crate::frame_typing::source_held;
use crate::frame_typing::guards_named;
use crate::typing::steady_but;
use vstd::prelude::*;

verus! {

broadcast use {crate::typing::group_typing, crate::frame_typing::group_frame, crate::exits::own_failures};

/// What a loop guard is given.
pub struct PollContext<'a> {
    pub requirements: &'a SlotRequirements<'a>,
    pub side_path: Option<SidePathProfile>,
    pub hoisted: &'a HoistedCallGuards,
    pub guards: &'a GuardState,
    pub cache: &'a PropertyCache,
    /// The stack slot that counts the iterations between polls.
    pub budget: usize,
    pub defer_locals: bool,
    /// Array storage that was checked on the way into the loop.
    pub source: Option<GuardedElementSource>,
    pub pc: u32,
    pub guard: u32,
}

impl<'a> PollContext<'a> {
    pub open spec fn wf(self, env: OptEnv<'_>, n: int) -> bool {
        &&& state_wf(self.hoisted.targets@, *self.guards)
        &&& self.cache.wf()
        &&& self.source matches Some(source) ==> storage_known(source.storage, n)
        &&& env.arguments@.len() + env.locals@.len() <= usize::MAX
    }

    /// The array storage that is known can be checked again.
    pub open spec fn source_placed(self, env: OptEnv<'_>) -> bool {
        self.source matches Some(source) ==> !env.int32_loop && source_argument(env, source) is Some && typed_mode_known(
            source.typed_mode,
        )
    }

    pub open spec fn source_ready(self, env: OptEnv<'_>, m: Lowered) -> bool {
        self.source_placed(env) && (self.source is Some ==> stack_ownable(env, m.provenance, m.depth))
    }

    /// Why an amortized poll is not lowered.
    pub open spec fn amortized_failure(self, env: OptEnv<'_>, m: Lowered) -> CompileFailure {
        if !helper_known(env, env.abi.helper_poll) || !arguments_known(
            env,
            self.hoisted.targets@,
            self.hoisted.targets@.len() as int,
        ) {
            CompileFailure::InvalidArtifact
        } else if !self.source_ready(env, m) {
            placed_failure(self.source_placed(env), env, m.provenance, m.depth)
        } else {
            match candidates_failure(env, self.cache.candidates@, self.cache.candidates@.len()) {
                Some(failure) => failure,
                None => own_failure(env, m.provenance, m.depth),
            }
        }
    }

    pub open spec fn cache_ready(self, env: OptEnv<'_>, m: Lowered) -> bool {
        self.cache.entries@.len() == 0 || candidates_failure(env, self.cache.candidates@, self.cache.candidates@.len()) is None
            && (env.int32_loop || stack_ownable(env, m.provenance, m.depth))
    }

    pub open spec fn amortized_ready(self, env: OptEnv<'_>, m: Lowered) -> bool {
        &&& helper_known(env, env.abi.helper_poll)
        &&& arguments_known(env, self.hoisted.targets@, self.hoisted.targets@.len() as int)
        &&& self.source_ready(env, m)
        &&& self.cache_ready(env, m)
    }
}

/// The runtime is asked whether to go on.
pub open spec fn polled(env: OptEnv<'_>, pc: u32, a: Code, b: Code) -> bool {
    &&& a.len() <= b.len()
    &&& forall|w: World|
        #![trigger b.at(w)]
        match a.at(w) {
            Status::Run(s) => flows(b.at(w), s, a.len(), s.vars, poll_flow(env, s, s.trace, pc, w)),
            st => b.at(w) == st,
        }
}

/// Control goes on where every slot is as required, or where the frame fits the
/// side path; otherwise it has left with the frame untouched.
pub open spec fn slots_checked(
    env: OptEnv<'_>,
    requirements: SlotRequirements<'_>,
    side_path: Option<SidePathProfile>,
    pc: u32,
    guard: u32,
    a: Code,
    b: Code,
) -> bool {
    &&& a.len() <= b.len()
    &&& forall|w: World|
        #![trigger b.at(w)]
        match a.at(w) {
            Status::Run(s) => {
                let arguments = env.arguments@;
                let locals = env.locals@;
                if slots_admitted(requirements, s.vars, arguments, 0, arguments.len() as int) && slots_admitted(
                    requirements,
                    s.vars,
                    locals,
                    arguments.len() as int,
                    locals.len() as int,
                ) {
                    runs_on(b.at(w), s, a.len(), s.vars, s.trace)
                } else if takes_side_path(side_path) && slots_numeric(s.vars, arguments, arguments.len() as int) && slots_numeric(
                    s.vars,
                    locals,
                    locals.len() as int,
                ) && (some_double(s.vars, arguments, arguments.len() as int) || some_double(s.vars, locals, locals.len() as int)) {
                    runs_on(b.at(w), s, a.len(), s.vars, side_path_trace(env, s, w))
                } else {
                    exits_with(b.at(w), guard_exit(env, s, pc, guard, w))
                }
            },
            st => b.at(w) == st,
        }
}

fn check_slots(
    code: &mut Code,
    env: &OptEnv<'_>,
    requirements: &SlotRequirements<'_>,
    side_path: Option<SidePathProfile>,
    pc: u32,
    guard: u32,
)
    requires
        env.wf(old(code).len()),
        env.arguments@.len() + env.locals@.len() <= usize::MAX,
    ensures
        kept(*old(code), *final(code)),
        env.typed(*old(code)) ==> steady(*old(code), *final(code)),
        slots_checked(*env, *requirements, side_path, pc, guard, *old(code), *final(code)),
{
    let ghost c0 = *code;
    let pass = code.new_block();
    let ghost c1 = *code;
    emit_opt_numeric_guard(code, env, requirements, env.arguments, env.locals, guard, pc, pass, side_path);
    let ghost c2 = *code;
    let _ = code.switch_to(pass);
    proof {
        assert(slots_checked(*env, *requirements, side_path, pc, guard, c0, *code)) by {
            assert forall|w: World|
                #![trigger code.at(w)]
                match c0.at(w) {
                    Status::Run(s) => true,
                    st => code.at(w) == st,
                } by {
                waits_for_known_blocks(c0.insts@, w);
                let a = c1.at(w);
                let b = c2.at(w);
            }
        }
    }
}

/// Checked storage is still what it was.
pub open spec fn storage_rechecked(env: OptEnv<'_>, p: PollContext<'_>, m: Lowered, a: Code, b: Code) -> bool {
    &&& a.len() <= b.len()
    &&& match p.source {
        Some(source) => forall|w: World|
            #![trigger b.at(w)]
            revalidation_post(env, a.at(w), b.at(w), a.len(), source, m.provenance, m.depth, p.pc, p.guard, w),
        None => b.insts@ == a.insts@,
    }
}

fn recheck_storage(code: &mut Code, env: &OptEnv<'_>, p: &PollContext<'_>, ls: &LowerState) -> (r: Result<(), CompileFailure>)
    requires
        env.wf(old(code).len()),
        ls@.wf(*env, old(code).len()),
        p.wf(*env, old(code).len()),
    ensures
        kept(*old(code), *final(code)),
        r is Ok && env.typed(*old(code)) && source_held(*old(code), p.source) ==> steady(*old(code), *final(code)),
        r is Ok <==> p.source_ready(*env, ls@),
        r matches Err(e) ==> e == placed_failure(p.source_placed(*env), *env, ls@.provenance, ls@.depth),
        r is Ok ==> storage_rechecked(*env, *p, ls@, *old(code), *final(code)),
{
    match p.source {
        Some(source) => {
            if env.int32_loop {
                return Err(CompileFailure::InvalidArtifact);
            }
            emit_opt_packed_loop_revalidate(code, env, &ls.provenance, ls.depth, p.pc, p.guard, source)
        },
        None => Ok(()),
    }
}

/// A poll on every iteration.
pub open spec fn polled_always(env: OptEnv<'_>, p: PollContext<'_>, a: Code, m: Lowered, b: Code, m2: Lowered) -> bool {
    &&& m2 == m
    &&& exists|c1: Code, c2: Code|
        {
            &&& #[trigger] polled(env, p.pc, a, c1)
            &&& #[trigger] slots_checked(env, *p.requirements, p.side_path, p.pc, p.guard, c1, c2)
            &&& storage_rechecked(env, p, m, c2, b)
        }
}

fn poll_known(env: &OptEnv<'_>) -> (r: bool)
    ensures
        r == helper_known(*env, env.abi.helper_poll),
{
    env.abi.helper_poll < env.helper_signatures.len() && env.abi.helper_poll < env.abi.helper_offsets.len()
}

/// Lowers a loop guard that polls on every iteration.
pub fn lower_poll(code: &mut Code, env: &OptEnv<'_>, ls: &LowerState, p: &PollContext<'_>) -> (r: Result<(), CompileFailure>)
    requires
        env.wf(old(code).len()),
        ls@.wf(*env, old(code).len()),
        p.wf(*env, old(code).len()),
    ensures
        kept(*old(code), *final(code)),
        r is Ok && env.typed(*old(code)) && source_held(*old(code), p.source) ==> steady(*old(code), *final(code)),
        r is Ok <==> helper_known(*env, env.abi.helper_poll) && p.source_ready(*env, ls@),
        r matches Err(e) ==> e == placed_failure(
            helper_known(*env, env.abi.helper_poll) && p.source_placed(*env),
            *env,
            ls@.provenance,
            ls@.depth,
        ),
        r is Ok ==> old(code).len() <= final(code).len() && polled_always(*env, *p, *old(code), ls@, *final(code), ls@),
{
    let ghost c0 = *code;
    if !poll_known(env) {
        return Err(CompileFailure::InvalidArtifact);
    }
    emit_opt_poll(code, env, p.pc);
    let ghost c1 = *code;
    check_slots(code, env, p.requirements, p.side_path, p.pc, p.guard);
    let ghost c2 = *code;
    if let Err(e) = recheck_storage(code, env, p, ls) {
        return Err(e);
    }
    proof {
        assert(polled(*env, p.pc, c0, c1));
        assert(slots_checked(*env, *p.requirements, p.side_path, p.pc, p.guard, c1, c2));
    }
    Ok(())
}

/// One iteration is counted.
pub open spec fn counted(budget: usize, skip: usize, a: Code, b: Code) -> bool {
    &&& a.len() <= b.len()
    &&& skip < b.len()
    &&& forall|w: World| #![trigger b.at(w)] countdown_post(a.at(w), b.at(w), a.len(), budget, skip, w)
}

/// Locals that were kept in variables alone are published.
pub open spec fn locals_published(env: OptEnv<'_>, defer: bool, a: Code, b: Code) -> bool {
    &&& a.len() <= b.len()
    &&& if defer {
        forall|w: World|
            #![trigger b.at(w)]
            match a.at(w) {
                Status::Run(s) => runs_on(
                    b.at(w),
                    s,
                    a.len(),
                    s.vars,
                    slot_stores(s.trace, s.vals[env.var_buf as int], s.vars, env.locals@, env.locals@.len()),
                ),
                st => b.at(w) == st,
            }
    } else {
        b.insts@ == a.insts@
    }
}

/// The slots are checked, unless every value is a raw Int32.
pub open spec fn slots_rechecked(env: OptEnv<'_>, p: PollContext<'_>, a: Code, b: Code) -> bool {
    if env.int32_loop {
        b.insts@ == a.insts@
    } else {
        slots_checked(env, *p.requirements, None, p.pc, p.guard, a, b)
    }
}

/// The call targets are looked at again.
pub open spec fn targets_rechecked(env: OptEnv<'_>, p: PollContext<'_>, a: Code, b: Code) -> bool {
    &&& a.len() <= b.len()
    &&& forall|w: World|
        #![trigger b.at(w)]
        refresh_post(env, p.hoisted.targets@, *p.guards, a.at(w), b.at(w), a.len(), p.pc, p.guard, w)
}

/// The promoted fields are looked at again.
pub open spec fn fields_rechecked(env: OptEnv<'_>, p: PollContext<'_>, m: Lowered, a: Code, b: Code) -> bool {
    &&& a.len() <= b.len()
    &&& forall|w: World|
        #![trigger b.at(w)]
        revalidate_post(env, *p.cache, a.at(w), b.at(w), a.len(), m.provenance, m.depth, p.pc, p.guard, w)
}

/// The budget is full again, and iterations that did not poll go on.
pub open spec fn refilled(budget: usize, skip: usize, a: Code, b: Code) -> bool {
    &&& a.len() <= b.len()
    &&& forall|w: World| #![trigger b.at(w)] refilled_post(a.at(w), b.at(w), a.len(), budget, skip)
}

/// What happens where the budget is used up: everything is published, the
/// runtime asked, and whatever the loop relies on is looked at again.
pub open spec fn poll_body(env: OptEnv<'_>, p: PollContext<'_>, m: Lowered, a: Code, b: Code) -> bool {
    exists|c1: Code, c2: Code, c3: Code, c4: Code, c5: Code, c6: Code|
        {
            &&& #[trigger] cleared(env.cache@, a, c1)
            &&& #[trigger] locals_published(env, p.defer_locals, c1, c2)
            &&& #[trigger] polled(env, p.pc, c2, c3)
            &&& #[trigger] slots_rechecked(env, p, c3, c4)
            &&& #[trigger] targets_rechecked(env, p, c4, c5)
            &&& #[trigger] storage_rechecked(env, p, m, c5, c6)
            &&& fields_rechecked(env, p, m, c6, b)
        }
}

/// A poll on every so-many-th iteration.
pub open spec fn polled_sometimes(env: OptEnv<'_>, p: PollContext<'_>, a: Code, m: Lowered, b: Code, m2: Lowered) -> bool {
    &&& m2 == m
    &&& exists|skip: usize, c1: Code, c2: Code|
        {
            &&& #[trigger] counted(p.budget, skip, a, c1)
            &&& #[trigger] poll_body(env, p, m, c1, c2)
            &&& refilled(p.budget, skip, c2, b)
        }
}

fn emit_poll_body(code: &mut Code, env: &OptEnv<'_>, ls: &LowerState, p: &PollContext<'_>) -> (r: Result<(), CompileFailure>)
    requires
        env.wf(old(code).len()),
        ls@.wf(*env, old(code).len()),
        p.wf(*env, old(code).len()),
        helper_known(*env, env.abi.helper_poll),
    ensures
        kept(*old(code), *final(code)),
        r is Ok && env.typed(*old(code)) && source_held(*old(code), p.source)
            && guards_named(*old(code), p.guards.valid@, p.guards.used@)
            && cache_named(*old(code), p.cache.entries@)
            ==> steady(*old(code), *final(code)),
        r is Ok <==> p.amortized_ready(*env, ls@),
        r matches Err(e) ==> e == p.amortized_failure(*env, ls@),
        r is Ok ==> old(code).len() <= final(code).len() && poll_body(*env, *p, ls@, *old(code), *final(code)),
{
    let ghost c0 = *code;
    clear_cache(code, env.cache);
    let ghost c1 = *code;
    if p.defer_locals {
        store_slots(code, env.var_buf, env.locals, env.locals.len(), env.payload_type);
    }
    let ghost c2 = *code;
    emit_opt_poll(code, env, p.pc);
    let ghost c3 = *code;
    if !env.int32_loop {
        check_slots(code, env, p.requirements, None, p.pc, p.guard);
    }
    let ghost c4 = *code;
    if let Err(e) = p.hoisted.emit(code, env, p.guards, p.pc, p.guard) {
        return Err(e);
    }
    let ghost c5 = *code;
    if let Err(e) = recheck_storage(code, env, p, ls) {
        return Err(e);
    }
    let ghost c6 = *code;
    if let Err(e) = p.cache.revalidate_after_poll(code, env, &ls.provenance, ls.depth, p.pc, p.guard) {
        return Err(e);
    }
    proof {
        assert(cleared(env.cache@, c0, c1));
        assert(locals_published(*env, p.defer_locals, c1, c2));
        assert(polled(*env, p.pc, c2, c3));
        assert(slots_rechecked(*env, *p, c3, c4));
        assert(targets_rechecked(*env, *p, c4, c5));
        assert(storage_rechecked(*env, *p, ls@, c5, c6));
        assert(fields_rechecked(*env, *p, ls@, c6, *code));
    }
    Ok(())
}

/// Lowers a loop guard that polls only now and then. Whatever the loop keeps to
/// itself is published right before the runtime is asked, and no earlier.
pub fn lower_amortized_poll(code: &mut Code, env: &OptEnv<'_>, ls: &LowerState, p: &PollContext<'_>) -> (r: Result<
    (),
    CompileFailure,
>)
    requires
        env.wf(old(code).len()),
        ls@.wf(*env, old(code).len()),
        p.wf(*env, old(code).len()),
    ensures
        kept(*old(code), *final(code)),
        r is Ok && env.typed(*old(code)) && source_held(*old(code), p.source)
            && guards_named(*old(code), p.guards.valid@, p.guards.used@)
            && cache_named(*old(code), p.cache.entries@) && old(code).slotted(p.budget)
            ==> steady(*old(code), *final(code)),
        r is Ok <==> p.amortized_ready(*env, ls@),
        r matches Err(e) ==> e == p.amortized_failure(*env, ls@),
        r is Ok
            ==> old(code).len() <= final(code).len() && polled_sometimes(*env, *p, *old(code), ls@, *final(code), ls@),
{
    let ghost c0 = *code;
    if !poll_known(env) {
        return Err(CompileFailure::InvalidArtifact);
    }
    let skip = begin_amortized_poll(code, p.budget, !env.int32_loop);
    let ghost c1 = *code;
    if let Err(e) = emit_poll_body(code, env, ls, p) {
        return Err(e);
    }
    let ghost c2 = *code;
    finish_amortized_poll(code, p.budget, skip);
    proof {
        assert(counted(p.budget, skip, c0, c1));
        assert(poll_body(*env, *p, ls@, c1, c2));
        assert(refilled(p.budget, skip, c2, *code));
    }
    Ok(())
}

/// An eliminated node drops a value that its stack slot owns.
pub open spec fn drops_owner(pops: u16, pushes: u16, m: Lowered) -> bool {
    pops == 1 && pushes == 0 && m.depth > 0 && m.provenance[m.depth - 1] == OptProvenance::OwnedSlot
}

/// The owned value is released.
pub open spec fn slot_freed(env: OptEnv<'_>, index: int, a: Code, b: Code) -> bool {
    &&& a.len() <= b.len()
    &&& forall|w: World|
        #![trigger b.at(w)]
        match a.at(w) {
            Status::Run(s) => flows(
                b.at(w),
                s,
                a.len(),
                s.vars,
                helper_flow(
                    top_store(
                        pair_stores(
                            s.trace,
                            s.vals[env.stack_base as int] + index * 16,
                            s.vars[env.stack@[index].payload as int],
                            s.vars[env.stack@[index].tag as int],
                        ),
                        *env.abi,
                        s.vals[env.frame as int],
                        s.vals[env.stack_base as int],
                        index + 1,
                    ),
                    env,
                    s,
                    index + 1,
                    env.abi.helper_free as int,
                    as_arguments(seq![0, flat_stack_slot(env, index) as u32]),
                    w,
                ),
            ),
            st => b.at(w) == st,
        }
}

pub open spec fn elimination_ready(env: OptEnv<'_>, pops: u16, pushes: u16, m: Lowered) -> bool {
    &&& m.depth >= pops
    &&& m.depth - pops + pushes <= env.stack@.len()
    &&& drops_owner(pops, pushes, m) ==> !env.int32_loop && helper_known(env, env.abi.helper_free)
}

/// The node does nothing but move the stack, and release what it drops.
pub open spec fn eliminated(env: OptEnv<'_>, pops: u16, pushes: u16, a: Code, m: Lowered, b: Code, m2: Lowered) -> bool {
    &&& m2 == Lowered { depth: m.depth - pops + pushes, ..m }
    &&& if drops_owner(pops, pushes, m) {
        exists|mid: Code| #[trigger] cleared(env.cache@, a, mid) && slot_freed(env, m.depth - 1, mid, b)
    } else {
        b.insts@ == a.insts@
    }
}

/// Lowers a node that was eliminated.
pub fn lower_eliminated(code: &mut Code, env: &OptEnv<'_>, ls: &mut LowerState, pops: u16, pushes: u16) -> (r: Result<
    (),
    CompileFailure,
>)
    requires
        env.wf(old(code).len()),
        old(ls)@.wf(*env, old(code).len()),
    ensures
        kept(*old(code), *final(code)),
        r is Ok && env.typed(*old(code)) && state_held(*old(code), *old(ls)) ==> steady(*old(code), *final(code)),
        r is Ok && env.typed(*old(code)) && state_held(*old(code), *old(ls)) ==> state_held(*final(code), *final(ls)),
        r is Ok <==> elimination_ready(*env, pops, pushes, old(ls)@),
        r is Err ==> r == Err::<(), CompileFailure>(CompileFailure::InvalidArtifact),
        r is Ok ==> final(ls)@.wf(*env, final(code).len()) && old(code).len() <= final(code).len() && eliminated(
            *env,
            pops,
            pushes,
            *old(code),
            old(ls)@,
            *final(code),
            final(ls)@,
        ),
{
    let ghost c0 = *code;
    if ls.depth < pops as usize {
        return Err(CompileFailure::InvalidArtifact);
    }
    let kept: usize = ls.depth - pops as usize;
    if pushes as usize > env.stack.len() - kept {
        return Err(CompileFailure::InvalidArtifact);
    }
    if pops == 1 && pushes == 0 && ls.provenance[kept] == OptProvenance::OwnedSlot {
        if env.int32_loop {
            return Err(CompileFailure::InvalidArtifact);
        }
        clear_cache(code, env.cache);
        let ghost mid = *code;
        if let Err(e) = emit_opt_free_stack_slot(code, env, kept) {
            return Err(e);
        }
        assert(cleared(env.cache@, c0, mid));
        assert(slot_freed(*env, kept as int, mid, *code));
    }
    ls.depth = kept + pushes as usize;
    Ok(())
}

} // verus!
