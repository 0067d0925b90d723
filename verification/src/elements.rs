//! Array accesses: guarded lengths, loads and stores.
use crate::checks::read;
use crate::checks::rejoin;
use crate::checks::rejoined;
use crate::checks::require;
use crate::checks::seen;
use crate::checks::steers;
use crate::code::agree;
use crate::code::value;
use crate::code::waits_for_known_blocks;
use crate::code::BinaryOp;
use crate::code::kept;
use crate::code::Code;
use crate::code::ConvertOp;
use crate::code::Event;
use crate::code::IntCc;
use crate::code::State;
use crate::code::Status;
use crate::code::Ty;
use crate::code::World;
use crate::control::CompileFailure;
use crate::element_code::class_of;
use crate::element_code::find_packed;
use crate::element_code::find_typed;
use crate::element_code::finds;
use crate::element_code::packed_of;
use crate::element_code::storage_known;
use crate::element_code::typed_of;
use crate::element_code::Storage;
use crate::element_code::StorageIds;
use crate::exits::deopt_depends_on_frame;
use crate::exits::deopt_trace;
use crate::exits::opt_own_stack_for_exit;
use crate::exits::own_flow;
use crate::exits::own_failure;
use crate::exits::own_failures;
use crate::exits::placed_failure;
use crate::exits::pc_store;
use crate::exits::same_own_flow;
use crate::exits::set_pc;
use crate::exits::slot_ownable;
use crate::exits::spill;
use crate::exits::stack_ownable;
use crate::exits::store_slots;
use crate::frame::exits_with;
use crate::frame::flows;
use crate::frame::helper_known;
use crate::frame::opt_set_stack_top;
use crate::frame::runs_on;
use crate::frame::top_store;
use crate::frame::Flow;
use crate::frame::OptEnv;
use crate::helpers::emit_opt_owned_helper_push;
use crate::helpers::is_borrowed;
use crate::helpers::opt_flat_local_slot;
use crate::helpers::owned_below;
use crate::helpers::push_flow;
use crate::lower_values::group_truths;
use crate::lower_values::opt_define;
use crate::lower_values::opt_load;
use crate::lower_values::opt_store;
use crate::lower_values::opt_tag_is;
use crate::lower_values::opt_use;
use crate::lower_values::pair_stores;
use crate::lower_values::vars_after;
use crate::lower_values::OptPair;
use crate::provenance::OptProvenance;
use crate::qjs::JS_TAG_INT;
use crate::qjs::JS_TAG_OBJECT;
use crate::runtime::ArrayMode;
use crate::typing::steady;
use crate::typing::closing;
use crate::typing::calm;
use crate::assemble::Known;
use crate::frame_typing::pair_held;
use crate::frame_typing::slot_named;
use crate::frame_typing::slots_named;
use crate::frame_typing::cached_named;
use crate::frame_typing::cache_named;
use crate::frame_typing::storage_held;
use crate::frame_typing::source_held;
use crate::frame_typing::word_types;
use crate::typing::steady_but;
use crate::typing::begun;
use vstd::prelude::*;

verus! {

broadcast use {
    crate::typing::group_typing,
    crate::frame_typing::group_frame,
    vstd::std_specs::btree::group_btree_axioms,
};

/// Array storage that has been checked, and for which value.
#[derive(Clone, Copy, Debug, PartialEq, Eq, Structural)]
pub struct GuardedElementSource {
    pub provenance: OptProvenance,
    pub block_pc: u32,
    pub storage: StorageIds,
    /// The observable `length` was proved to be the element count.
    pub exact_length: bool,
    /// A query guarded fixed storage of this mode.
    pub typed_mode: Option<ArrayMode>,
}

/// Control goes on, or the instruction deoptimizes with what was observed.
pub open spec fn passes(
    env: OptEnv<'_>,
    st: Status,
    s: State,
    n: int,
    ok: bool,
    vars: Map<int, int>,
    trace: Seq<Event>,
    provenance: Seq<OptProvenance>,
    depth: int,
    pc: u32,
    guard: u32,
    w: World,
) -> bool {
    if ok {
        runs_on(st, s, n, vars, trace)
    } else {
        exits_with(st, deopt_trace(env, s, vars, trace, provenance, depth as nat, pc, guard, w))
    }
}

/// A chain of checks whose failure block deoptimizes.
pub proof fn checked_chain(
    env: OptEnv<'_>,
    s: State,
    st1: Status,
    st2: Status,
    n: int,
    failed: usize,
    ok: bool,
    vars: Map<int, int>,
    trace: Seq<Event>,
    provenance: Seq<OptProvenance>,
    depth: int,
    pc: u32,
    guard: u32,
    w: World,
)
    requires
        env.wf(n),
        steers(st1, s, n, failed, ok, vars, trace),
        rejoined(env, st1, st2, failed, provenance, depth, pc, guard, w),
    ensures
        passes(env, st2, s, n, ok, vars, trace, provenance, depth, pc, guard, w),
        ok ==> st1 is Run && st2 is Run && st2->Run_0.vals == st1->Run_0.vals,
{
    if let Status::Wait { block, args, state } = st1 {
        deopt_depends_on_frame(env, s, state, vars, trace, provenance, depth as nat, pc, guard, w);
    }
}

/// The storage behind a value: of a typed array of the mode, or of a dense array.
pub open spec fn metadata_of(
    env: OptEnv<'_>,
    s: State,
    typed: Option<ArrayMode>,
    needs_length: bool,
    payload: int,
    tag: int,
    trace: Seq<Event>,
    w: World,
) -> Storage {
    match typed {
        Some(mode) => typed_of(env, s, mode, needs_length, payload, tag, trace, w),
        None => packed_of(*env.abi, payload, tag, trace, w),
    }
}

pub open spec fn typed_mode_known(typed: Option<ArrayMode>) -> bool {
    typed matches Some(mode) ==> mode == ArrayMode::Int32 || mode == ArrayMode::Float64
}

fn find_metadata(
    code: &mut Code,
    env: &OptEnv<'_>,
    object: OptPair,
    typed: Option<ArrayMode>,
    needs_length: bool,
    failed: usize,
) -> (r: StorageIds)
    requires
        env.wf(old(code).len()),
        object.payload < old(code).len(),
        object.tag < old(code).len(),
        failed < old(code).len(),
        !env.int32_loop,
    ensures
        kept(*old(code), *final(code)),
        env.typed(*old(code)) && pair_held(*old(code), object) && old(code).blocked(failed)
            ==> steady(*old(code), *final(code)),
        storage_held(*final(code), r),
        storage_known(r, final(code).len()),
        old(code).len() < final(code).len(),
        forall|w: World|
            #![trigger final(code).at(w)]
            match old(code).at(w) {
                Status::Run(s) => finds(
                    final(code).at(w),
                    s,
                    old(code).len(),
                    failed,
                    metadata_of(
                        *env,
                        s,
                        typed,
                        needs_length,
                        s.vals[object.payload as int],
                        s.vals[object.tag as int],
                        s.trace,
                        w,
                    ),
                    r,
                ),
                st => final(code).at(w) == st,
            },
{
    match typed {
        Some(mode) => find_typed(code, env, object, mode, needs_length, failed),
        None => find_packed(code, env.abi, object, failed),
    }
}

pub open spec fn metadata_post(
    env: OptEnv<'_>,
    st: Status,
    st2: Status,
    n: int,
    object: OptPair,
    typed: Option<ArrayMode>,
    needs_length: bool,
    ids: StorageIds,
    provenance: Seq<OptProvenance>,
    depth: int,
    pc: u32,
    guard: u32,
    w: World,
) -> bool {
    match st {
        Status::Run(s) => {
            let found = metadata_of(
                env,
                s,
                typed,
                needs_length,
                s.vals[object.payload as int],
                s.vals[object.tag as int],
                s.trace,
                w,
            );
            &&& passes(env, st2, s, n, found.ok, s.vars, found.trace, provenance, depth, pc, guard, w)
            &&& found.ok ==> value(st2, ids.data) == found.data && value(st2, ids.count) == found.count && value(st2, ids.kind)
                == found.kind
        },
        st => st2 == st,
    }
}

fn metadata_guard(
    code: &mut Code,
    env: &OptEnv<'_>,
    provenance: &Vec<OptProvenance>,
    depth: usize,
    pc: u32,
    guard: u32,
    object: OptPair,
    typed: Option<ArrayMode>,
    needs_length: bool,
) -> (r: Result<StorageIds, CompileFailure>)
    requires
        env.wf(old(code).len()),
        depth <= env.stack@.len(),
        object.payload < old(code).len(),
        object.tag < old(code).len(),
        !env.int32_loop,
    ensures
        kept(*old(code), *final(code)),
        r is Ok && env.typed(*old(code)) && pair_held(*old(code), object) ==> steady(*old(code), *final(code)),
        r matches Ok(ids) ==> storage_held(*final(code), ids),
        r is Ok <==> typed_mode_known(typed) && stack_ownable(*env, provenance@, depth as int),
        r matches Err(e) ==> e == placed_failure(typed_mode_known(typed), *env, provenance@, depth as int),
        final(code).len() >= old(code).len(),
        r matches Ok(ids) ==> storage_known(ids, final(code).len()) && forall|w: World|
            #![trigger final(code).at(w)]
            metadata_post(
                *env,
                old(code).at(w),
                final(code).at(w),
                old(code).len(),
                object,
                typed,
                needs_length,
                ids,
                provenance@,
                depth as int,
                pc,
                guard,
                w,
            ),
{
    if let Some(mode) = typed {
        if mode != ArrayMode::Int32 && mode != ArrayMode::Float64 {
            return Err(CompileFailure::InvalidArtifact);
        }
    }
    let failed = code.new_cold_block();
    let ghost c1 = *code;
    let ids = find_metadata(code, env, object, typed, needs_length, failed);
    let ghost c2 = *code;
    if let Err(e) = rejoin(code, env, failed, provenance, depth, pc, guard) {
        return Err(e);
    }
    proof {
        assert forall|w: World|
            #![trigger code.at(w)]
            metadata_post(
                *env,
                old(code).at(w),
                code.at(w),
                old(code).len(),
                object,
                typed,
                needs_length,
                ids,
                provenance@,
                depth as int,
                pc,
                guard,
                w,
            ) by {
            waits_for_known_blocks(old(code).insts@, w);
            let a1 = c1.at(w);
            let a2 = c2.at(w);
            if let Status::Run(s) = old(code).at(w) {
                let found = metadata_of(
                    *env,
                    s,
                    typed,
                    needs_length,
                    s.vals[object.payload as int],
                    s.vals[object.tag as int],
                    s.trace,
                    w,
                );
                checked_chain(
                    *env,
                    s,
                    a2,
                    code.at(w),
                    old(code).len(),
                    failed,
                    found.ok,
                    s.vars,
                    found.trace,
                    provenance@,
                    depth as int,
                    pc,
                    guard,
                    w,
                );
            }
        }
    }
    Ok(ids)
}

/// Goes on where the value is a dense array whose length is its element count,
/// and deoptimizes otherwise.
pub fn emit_opt_packed_metadata_guard(
    code: &mut Code,
    env: &OptEnv<'_>,
    provenance: &Vec<OptProvenance>,
    depth: usize,
    pc: u32,
    guard: u32,
    object: OptPair,
    source_provenance: OptProvenance,
    block_pc: u32,
) -> (r: Result<GuardedElementSource, CompileFailure>)
    requires
        env.wf(old(code).len()),
        depth <= env.stack@.len(),
        object.payload < old(code).len(),
        object.tag < old(code).len(),
        !env.int32_loop,
    ensures
        kept(*old(code), *final(code)),
        r is Ok && env.typed(*old(code)) && pair_held(*old(code), object) ==> steady(*old(code), *final(code)),
        r matches Ok(source) ==> storage_held(*final(code), source.storage),
        r is Ok <==> stack_ownable(*env, provenance@, depth as int),
        r matches Err(e) ==> e == own_failure(*env, provenance@, depth as int),
        final(code).len() >= old(code).len(),
        r matches Ok(source) ==> source == (GuardedElementSource {
            provenance: source_provenance,
            block_pc,
            storage: source.storage,
            exact_length: true,
            typed_mode: None,
        }) && storage_known(source.storage, final(code).len()) && forall|w: World|
            #![trigger final(code).at(w)]
            metadata_post(
                *env,
                old(code).at(w),
                final(code).at(w),
                old(code).len(),
                object,
                None,
                true,
                source.storage,
                provenance@,
                depth as int,
                pc,
                guard,
                w,
            ),
{
    match metadata_guard(code, env, provenance, depth, pc, guard, object, None, true) {
        Ok(storage) => Ok(
            GuardedElementSource { provenance: source_provenance, block_pc, storage, exact_length: true, typed_mode: None },
        ),
        Err(e) => Err(e),
    }
}

/// Goes on where the runtime says that the value is a typed array with fixed
/// storage of the mode, and deoptimizes otherwise.
pub fn emit_opt_typed_metadata_guard(
    code: &mut Code,
    env: &OptEnv<'_>,
    provenance: &Vec<OptProvenance>,
    depth: usize,
    pc: u32,
    guard: u32,
    object: OptPair,
    source_provenance: OptProvenance,
    block_pc: u32,
    mode: ArrayMode,
    needs_length: bool,
) -> (r: Result<GuardedElementSource, CompileFailure>)
    requires
        env.wf(old(code).len()),
        depth <= env.stack@.len(),
        object.payload < old(code).len(),
        object.tag < old(code).len(),
        !env.int32_loop,
    ensures
        kept(*old(code), *final(code)),
        r is Ok && env.typed(*old(code)) && pair_held(*old(code), object) ==> steady(*old(code), *final(code)),
        r matches Ok(source) ==> storage_held(*final(code), source.storage),
        r is Ok <==> typed_mode_known(Some(mode)) && stack_ownable(*env, provenance@, depth as int),
        r matches Err(e) ==> e == placed_failure(typed_mode_known(Some(mode)), *env, provenance@, depth as int),
        final(code).len() >= old(code).len(),
        r matches Ok(source) ==> source == (GuardedElementSource {
            provenance: source_provenance,
            block_pc,
            storage: source.storage,
            exact_length: needs_length,
            typed_mode: Some(mode),
        }) && storage_known(source.storage, final(code).len()) && forall|w: World|
            #![trigger final(code).at(w)]
            metadata_post(
                *env,
                old(code).at(w),
                final(code).at(w),
                old(code).len(),
                object,
                Some(mode),
                needs_length,
                source.storage,
                provenance@,
                depth as int,
                pc,
                guard,
                w,
            ),
{
    match metadata_guard(code, env, provenance, depth, pc, guard, object, Some(mode), needs_length) {
        Ok(storage) => Ok(
            GuardedElementSource {
                provenance: source_provenance,
                block_pc,
                storage,
                exact_length: needs_length,
                typed_mode: Some(mode),
            },
        ),
        Err(e) => Err(e),
    }
}

/// The argument that guarded storage belongs to.
pub open spec fn source_argument(env: OptEnv<'_>, source: GuardedElementSource) -> Option<int> {
    match source.provenance {
        OptProvenance::Argument(argument) => if argument < env.arguments@.len() {
            Some(argument as int)
        } else {
            None
        },
        _ => None,
    }
}

pub open spec fn revalidation_post(
    env: OptEnv<'_>,
    st: Status,
    st2: Status,
    n: int,
    expected: GuardedElementSource,
    provenance: Seq<OptProvenance>,
    depth: int,
    pc: u32,
    guard: u32,
    w: World,
) -> bool {
    match st {
        Status::Run(s) => {
            let slot = env.arguments@[source_argument(env, expected)->Some_0];
            let found = metadata_of(
                env,
                s,
                expected.typed_mode,
                expected.exact_length,
                s.vars[slot.payload as int],
                s.vars[slot.tag as int],
                s.trace,
                w,
            );
            let same = found.ok && found.count == s.vals[expected.storage.count as int] && found.data
                == s.vals[expected.storage.data as int];
            passes(env, st2, s, n, same, s.vars, found.trace, provenance, depth, pc, guard, w)
        },
        st => st2 == st,
    }
}

/// Looks at guarded storage again after a poll: its count and address must be
/// what they were.
pub fn emit_opt_packed_loop_revalidate(
    code: &mut Code,
    env: &OptEnv<'_>,
    provenance: &Vec<OptProvenance>,
    depth: usize,
    pc: u32,
    guard: u32,
    expected: GuardedElementSource,
) -> (r: Result<(), CompileFailure>)
    requires
        env.wf(old(code).len()),
        depth <= env.stack@.len(),
        storage_known(expected.storage, old(code).len()),
        !env.int32_loop,
    ensures
        kept(*old(code), *final(code)),
        r is Ok && env.typed(*old(code)) && storage_held(*old(code), expected.storage)
            ==> steady(*old(code), *final(code)),
        r is Ok <==> source_argument(*env, expected) is Some && typed_mode_known(expected.typed_mode) && stack_ownable(
            *env,
            provenance@,
            depth as int,
        ),
        r matches Err(e) ==> e == placed_failure(source_argument(*env, expected) is Some && typed_mode_known(expected.typed_mode), *env, provenance@, depth as int),
        final(code).len() >= old(code).len(),
        r is Ok ==> forall|w: World|
            #![trigger final(code).at(w)]
            revalidation_post(
                *env,
                old(code).at(w),
                final(code).at(w),
                old(code).len(),
                expected,
                provenance@,
                depth as int,
                pc,
                guard,
                w,
            ),
{
    broadcast use group_truths;

    let argument = match expected.provenance {
        OptProvenance::Argument(argument) => argument,
        _ => return Err(CompileFailure::InvalidArtifact),
    };
    if argument >= env.arguments.len() {
        return Err(CompileFailure::InvalidArtifact);
    }
    if let Some(mode) = expected.typed_mode {
        if mode != ArrayMode::Int32 && mode != ArrayMode::Float64 {
            return Err(CompileFailure::InvalidArtifact);
        }
    }
    let failed = code.new_cold_block();
    let object = opt_use(code, env.arguments[argument], env.payload_type);
    let ghost c1 = *code;
    let current = find_metadata(code, env, object, expected.typed_mode, expected.exact_length, failed);
    let ghost c2 = *code;
    let same_count = code.compare(IntCc::Equal, Ty::I32, current.count, expected.storage.count);
    let same_data = code.compare(IntCc::Equal, Ty::I64, current.data, expected.storage.data);
    let unchanged = code.binary(BinaryOp::And, Ty::I8, same_count, same_data);
    require(code, unchanged, failed);
    let ghost c3 = *code;
    if let Err(e) = rejoin(code, env, failed, provenance, depth, pc, guard) {
        return Err(e);
    }
    proof {
        assert forall|w: World|
            #![trigger code.at(w)]
            revalidation_post(
                *env,
                old(code).at(w),
                code.at(w),
                old(code).len(),
                expected,
                provenance@,
                depth as int,
                pc,
                guard,
                w,
            ) by {
            waits_for_known_blocks(old(code).insts@, w);
            let a1 = c1.at(w);
            let a2 = c2.at(w);
            let a3 = c3.at(w);
            if let Status::Run(s) = old(code).at(w) {
                let slot = env.arguments@[argument as int];
                let found = metadata_of(
                    *env,
                    s,
                    expected.typed_mode,
                    expected.exact_length,
                    s.vars[slot.payload as int],
                    s.vars[slot.tag as int],
                    s.trace,
                    w,
                );
                assert(metadata_of(
                    *env,
                    a1->Run_0,
                    expected.typed_mode,
                    expected.exact_length,
                    s.vars[slot.payload as int],
                    s.vars[slot.tag as int],
                    s.trace,
                    w,
                ) == found);
                let same = found.ok && found.count == s.vals[expected.storage.count as int] && found.data
                    == s.vals[expected.storage.data as int];
                checked_chain(
                    *env,
                    s,
                    a3,
                    code.at(w),
                    old(code).len(),
                    failed,
                    same,
                    s.vars,
                    found.trace,
                    provenance@,
                    depth as int,
                    pc,
                    guard,
                    w,
                );
            }
        }
    }
    Ok(())
}

/// The frame spilled to a depth, the program counter published, and live slots
/// made owners.
pub open spec fn published(
    env: OptEnv<'_>,
    s: State,
    provenance: Seq<OptProvenance>,
    spilled: nat,
    owned: nat,
    pc: u32,
    w: World,
) -> Flow {
    own_flow(
        pc_store(spill(s.trace, env, s, s.vars, spilled), *env.abi, s.vals[env.frame as int], pc, w),
        env,
        s,
        provenance,
        owned,
        w,
    )
}

/// Publishes the frame so that the runtime may run.
pub fn publish_frame(
    code: &mut Code,
    env: &OptEnv<'_>,
    provenance: &Vec<OptProvenance>,
    spilled: usize,
    owned: usize,
    pc: u32,
) -> (r: Result<(), CompileFailure>)
    requires
        env.wf(old(code).len()),
        spilled <= env.stack@.len(),
        owned <= env.stack@.len(),
    ensures
        kept(*old(code), *final(code)),
        r is Ok && env.typed(*old(code)) ==> steady(*old(code), *final(code)),
        r is Ok <==> stack_ownable(*env, provenance@, owned as int),
        r matches Err(e) ==> e == own_failure(*env, provenance@, owned as int),
        final(code).len() >= old(code).len(),
        r is Ok ==> forall|w: World|
            #![trigger final(code).at(w)]
            match old(code).at(w) {
                Status::Run(s) => flows(
                    final(code).at(w),
                    s,
                    old(code).len(),
                    s.vars,
                    published(*env, s, provenance@, spilled as nat, owned as nat, pc, w),
                ),
                st => final(code).at(w) == st,
            },
{
    store_slots(code, env.arg_buf, env.arguments, env.arguments.len(), env.payload_type);
    let ghost c1 = *code;
    store_slots(code, env.var_buf, env.locals, env.locals.len(), env.payload_type);
    let ghost c2 = *code;
    store_slots(code, env.stack_base, env.stack, spilled, env.payload_type);
    let ghost c3 = *code;
    let _ = set_pc(code, env, pc);
    let ghost c4 = *code;
    if let Err(e) = opt_own_stack_for_exit(code, env, owned, provenance) {
        return Err(e);
    }
    proof {
        assert forall|w: World|
            #![trigger code.at(w)]
            match old(code).at(w) {
                Status::Run(s) => flows(
                    code.at(w),
                    s,
                    old(code).len(),
                    s.vars,
                    published(*env, s, provenance@, spilled as nat, owned as nat, pc, w),
                ),
                st => code.at(w) == st,
            } by {
            let a1 = c1.at(w);
            let a2 = c2.at(w);
            let a3 = c3.at(w);
            let a4 = c4.at(w);
            if let Status::Run(s) = old(code).at(w) {
                same_own_flow(a4->Run_0.trace, *env, s, a4->Run_0, provenance@, owned as nat, w);
            }
        }
    }
    Ok(())
}

/// The guarded storage is that of the value at `index`, and its length is exact.
pub open spec fn length_known(source: Option<GuardedElementSource>, provenance: Seq<OptProvenance>, index: int) -> bool {
    source matches Some(known) && known.exact_length && known.provenance == provenance[index] && is_borrowed(provenance[index])
}

/// The slot of the argument or local that a borrowed value comes from.
pub open spec fn root_slot(env: OptEnv<'_>, p: OptProvenance) -> Option<int> {
    match p {
        OptProvenance::Argument(argument) => Some(argument as int),
        OptProvenance::Local(local) => Some(env.arguments@.len() + local),
        _ => None,
    }
}

/// The length of a dense array stands in its first property, whatever its
/// storage holds; any other value is asked through the runtime.
pub open spec fn length_post(
    env: OptEnv<'_>,
    st: Status,
    st2: Status,
    n: int,
    provenance: Seq<OptProvenance>,
    depth: int,
    pc: u32,
    w: World,
) -> bool {
    let index = depth - 1;
    match st {
        Status::Run(s) => {
            let slot = env.stack@[index];
            let payload = s.vars[slot.payload as int];
            let tag = s.vars[slot.tag as int];
            let frame = s.vals[env.frame as int];
            let base = s.vals[env.stack_base as int];
            let ready = published(env, s, provenance, index as nat, index as nat, pc, w);
            let classified = read(ready.trace, Ty::I16, payload + env.abi.elements.object_class_id, w);
            if !ready.running {
                exits_with(st2, ready.trace)
            } else if tag == JS_TAG_OBJECT && class_of(ready.trace, w) == env.abi.elements.array_class_id {
                let t1 = read(classified, Ty::I64, payload + env.abi.property.object_properties, w);
                let properties = seen(classified, Ty::I64, w);
                let p = seen(t1, Ty::I64, w);
                let t2 = read(t1, Ty::I64, properties, w);
                let t = seen(t2, Ty::I64, w);
                let t3 = read(t2, Ty::I64, properties + 8, w);
                runs_on(
                    st2,
                    s,
                    n,
                    vars_after(s.vars, slot, p, t),
                    top_store(pair_stores(t3, base + index * 16, p, t), *env.abi, frame, base, depth),
                )
            } else {
                let asked = State {
                    trace: if tag == JS_TAG_OBJECT {
                        classified
                    } else {
                        ready.trace
                    },
                    ..s
                };
                let flow = push_flow(
                    env,
                    asked,
                    owned_below(provenance, index),
                    index as nat,
                    pc,
                    env.abi.helper_get_property as int,
                    seq![root_slot(env, provenance[index])->Some_0 as u32, env.abi.length_atom],
                    w,
                );
                if flow.running {
                    let p = seen(flow.trace, Ty::I64, w);
                    let t1 = read(flow.trace, Ty::I64, base + index * 16, w);
                    let t = seen(t1, Ty::I64, w);
                    let t2 = read(t1, Ty::I64, base + index * 16 + 8, w);
                    runs_on(
                        st2,
                        s,
                        n,
                        vars_after(
                            vars_after(crate::helpers::blank_vars(env, s.vars, index), slot, p, t),
                            slot,
                            p,
                            t,
                        ),
                        top_store(pair_stores(t2, base + index * 16, p, t), *env.abi, frame, base, depth),
                    )
                } else {
                    exits_with(st2, flow.trace)
                }
            }
        },
        st => st2 == st,
    }
}

/// A dense array's length is on its way to `found`; any other value is at `generic`.
spec fn direct_length(
    env: OptEnv<'_>,
    st: Status,
    st2: Status,
    n: int,
    object: OptPair,
    generic: usize,
    found: usize,
    w: World,
) -> bool {
    match st {
        Status::Run(s) => {
            let payload = s.vals[object.payload as int];
            let tag = s.vals[object.tag as int];
            let classified = read(s.trace, Ty::I16, payload + env.abi.elements.object_class_id, w);
            if tag == JS_TAG_OBJECT && class_of(s.trace, w) == env.abi.elements.array_class_id {
                let t1 = read(classified, Ty::I64, payload + env.abi.property.object_properties, w);
                let properties = seen(classified, Ty::I64, w);
                let t2 = read(t1, Ty::I64, properties, w);
                &&& st2 matches Status::Wait { block, args, state }
                &&& block == found
                &&& args == seq![seen(t1, Ty::I64, w), seen(t2, Ty::I64, w)]
                &&& state.vars == s.vars
                &&& state.trace == read(t2, Ty::I64, properties + 8, w)
                &&& agree(s, state, n)
            } else {
                crate::checks::waits_at(
                    st2,
                    s,
                    n,
                    generic,
                    s.vars,
                    if tag == JS_TAG_OBJECT {
                        classified
                    } else {
                        s.trace
                    },
                )
            }
        },
        st => st2 == st,
    }
}

fn read_dense_length(code: &mut Code, env: &OptEnv<'_>, object: OptPair, generic: usize, found: usize)
    requires
        object.payload < old(code).len(),
        object.tag < old(code).len(),
        generic < old(code).len(),
        found < old(code).len(),
    ensures
        kept(*old(code), *final(code)),
        env.typed(*old(code)) && pair_held(*old(code), object) && old(code).blocked(generic)
            && old(code).blocked(found)
            ==> closing(*old(code), *final(code)),
        final(code).len() > old(code).len(),
        forall|w: World|
            #![trigger final(code).at(w)]
            direct_length(*env, old(code).at(w), final(code).at(w), old(code).len(), object, generic, found, w),
{
    let object_ok = opt_tag_is(code, object.tag, JS_TAG_OBJECT);
    require(code, object_ok, generic);
    let class = code.load(Ty::I16, object.payload, env.abi.elements.object_class_id);
    let class_wide = code.convert(ConvertOp::ZeroExtend, Ty::I16, Ty::I64, class);
    let is_array = code.compare_imm(IntCc::Equal, Ty::I64, class_wide, env.abi.elements.array_class_id);
    require(code, is_array, generic);
    let ghost c1 = *code;
    let properties = code.load(Ty::I64, object.payload, env.abi.property.object_properties);
    let length = opt_load(code, properties, 0);
    code.jump_pair(found, length.payload, length.tag);
    proof {
        assert forall|w: World|
            #![trigger code.at(w)]
            direct_length(*env, old(code).at(w), code.at(w), old(code).len(), object, generic, found, w) by {
            let a1 = c1.at(w);
        }
    }
}

/// The length becomes the stack top: `found` brings it, or the runtime is asked.
spec fn joined_length(
    env: OptEnv<'_>,
    st: Status,
    st2: Status,
    n: int,
    provenance: Seq<OptProvenance>,
    depth: int,
    pc: u32,
    extra: Seq<u32>,
    found: usize,
    w: World,
) -> bool {
    let index = depth - 1;
    let slot = env.stack@[index];
    match st {
        Status::Run(s) => {
            let base = s.vals[env.stack_base as int];
            let flow = push_flow(env, s, provenance, index as nat, pc, env.abi.helper_get_property as int, extra, w);
            if flow.running {
                let p = seen(flow.trace, Ty::I64, w);
                let t1 = read(flow.trace, Ty::I64, base + index * 16, w);
                let t = seen(t1, Ty::I64, w);
                let t2 = read(t1, Ty::I64, base + index * 16 + 8, w);
                runs_on(
                    st2,
                    s,
                    n,
                    vars_after(vars_after(crate::helpers::blank_vars(env, s.vars, index), slot, p, t), slot, p, t),
                    top_store(
                        pair_stores(t2, base + index * 16, p, t),
                        *env.abi,
                        s.vals[env.frame as int],
                        base,
                        depth,
                    ),
                )
            } else {
                exits_with(st2, flow.trace)
            }
        },
        Status::Wait { block, args, state } => if block == found && args.len() == 2 {
            let base = state.vals[env.stack_base as int];
            runs_on(
                st2,
                state,
                n,
                vars_after(state.vars, slot, args[0], args[1]),
                top_store(
                    pair_stores(state.trace, base + index * 16, args[0], args[1]),
                    *env.abi,
                    state.vals[env.frame as int],
                    base,
                    depth,
                ),
            )
        } else {
            block != found ==> st2 == st
        },
        st => st2 == st,
    }
}

/// The value that arrives at `found` becomes the stack top.
spec fn settled(env: OptEnv<'_>, st: Status, st2: Status, n: int, depth: int, found: usize) -> bool {
    let index = depth - 1;
    match st {
        Status::Run(_) => st2 is Stuck,
        Status::Wait { block, args, state } => if block == found && args.len() == 2 {
            let base = state.vals[env.stack_base as int];
            runs_on(
                st2,
                state,
                n,
                vars_after(state.vars, env.stack@[index], args[0], args[1]),
                top_store(
                    pair_stores(state.trace, base + index * 16, args[0], args[1]),
                    *env.abi,
                    state.vals[env.frame as int],
                    base,
                    depth,
                ),
            )
        } else {
            block != found ==> st2 == st
        },
        st => st2 == st,
    }
}

fn settle(code: &mut Code, env: &OptEnv<'_>, depth: usize, found: usize)
    requires
        env.wf(old(code).len()),
        !env.int32_loop,
        0 < depth <= env.stack@.len(),
    ensures
        kept(*old(code), *final(code)),
        env.typed(*old(code)) && old(code).unstarted(found as int) ==> begun(*old(code), *final(code), found),
        final(code).len() >= old(code).len(),
        forall|w: World|
            #![trigger final(code).at(w)]
            settled(*env, old(code).at(w), final(code).at(w), old(code).len(), depth as int, found),
{
    let index: usize = depth - 1;
    let _ = code.switch_to(found);
    let payload = code.param(0, Ty::I64);
    let tag = code.param(1, Ty::I64);
    let result = OptPair { payload, tag };
    opt_define(code, env.stack[index], result);
    let ghost c5 = *code;
    opt_store(code, env.stack_base, index, result, Ty::I64);
    let ghost c6 = *code;
    opt_set_stack_top(code, env, depth);
    proof {
        assert forall|w: World|
            #![trigger code.at(w)]
            settled(*env, old(code).at(w), code.at(w), old(code).len(), depth as int, found) by {
            let a5 = c5.at(w);
            let a6 = c6.at(w);
        }
    }
}

#[verifier::rlimit(40)]
fn join_length(
    code: &mut Code,
    env: &OptEnv<'_>,
    provenance: &mut Vec<OptProvenance>,
    depth: usize,
    pc: u32,
    extra: &Vec<u32>,
    found: usize,
) -> (r: Result<(), CompileFailure>)
    requires
        env.wf(old(code).len()),
        !env.int32_loop,
        0 < depth <= env.stack@.len(),
        depth <= old(provenance)@.len(),
        found < old(code).len(),
        stack_ownable(*env, old(provenance)@, depth - 1),
    ensures
        kept(*old(code), *final(code)),
        r is Ok && env.typed(*old(code)) && old(code).blocked(found) && old(code).unstarted(found as int)
            && extra@.len() == 2
            ==> steady_but(*old(code), *final(code), found),
        r is Ok <==> helper_known(*env, env.abi.helper_get_property),
        r matches Err(e) ==> e == CompileFailure::InvalidArtifact,
        final(code).len() >= old(code).len(),
        r is Ok
            ==> final(provenance)@ == owned_below(old(provenance)@, depth - 1).update(depth - 1, OptProvenance::OwnedSlot),
        r is Ok ==> forall|w: World|
            #![trigger final(code).at(w)]
            joined_length(
                *env,
                old(code).at(w),
                final(code).at(w),
                old(code).len(),
                old(provenance)@,
                depth as int,
                pc,
                extra@,
                found,
                w,
            ),
{
    let index: usize = depth - 1;
    proof {
        own_failures(*env, provenance@, index as int);
    }
    if let Err(e) = emit_opt_owned_helper_push(code, env, provenance, index, pc, env.abi.helper_get_property, extra) {
        return Err(e);
    }
    let ghost c3 = *code;
    let answered = opt_use(code, env.stack[index], Ty::I64);
    code.jump_pair(found, answered.payload, answered.tag);
    let ghost c4 = *code;
    settle(code, env, depth, found);
    provenance.set(index, OptProvenance::OwnedSlot);
    proof {
        assert(provenance@ =~= owned_below(old(provenance)@, depth - 1).update(depth - 1, OptProvenance::OwnedSlot));
        assert forall|w: World|
            #![trigger code.at(w)]
            joined_length(
                *env,
                old(code).at(w),
                code.at(w),
                old(code).len(),
                old(provenance)@,
                depth as int,
                pc,
                extra@,
                found,
                w,
            ) by {
            let a3 = c3.at(w);
            let a4 = c4.at(w);
        }
    }
    Ok(())
}

/// Pushing an owned value depends on the state through the frame's addresses,
/// the variables and what was observed.
pub proof fn push_depends_on_frame(
    env: OptEnv<'_>,
    s: State,
    t: State,
    provenance: Seq<OptProvenance>,
    depth: nat,
    pc: u32,
    helper: int,
    extra: Seq<u32>,
    w: World,
)
    requires
        t.vals[env.frame as int] == s.vals[env.frame as int],
        t.vals[env.stack_base as int] == s.vals[env.stack_base as int],
        t.vals[env.sret as int] == s.vals[env.sret as int],
        t.vals[env.arg_buf as int] == s.vals[env.arg_buf as int],
        t.vals[env.var_buf as int] == s.vals[env.var_buf as int],
        t.vars == s.vars,
        t.trace == s.trace,
    ensures
        push_flow(env, s, provenance, depth, pc, helper, extra, w) == push_flow(env, t, provenance, depth, pc, helper, extra, w),
{
    let vars = crate::helpers::blank_vars(env, s.vars, depth as int);
    let spilled = spill(s.trace, env, s, vars, depth + 1);
    let at_pc = pc_store(spilled, *env.abi, s.vals[env.frame as int], pc, w);
    same_own_flow(at_pc, env, s, t, provenance, depth, w);
}

/// The length of a borrowed value, asked for with the frame published.
#[verifier::rlimit(60)]
fn ask_length(
    code: &mut Code,
    env: &OptEnv<'_>,
    provenance: &mut Vec<OptProvenance>,
    depth: usize,
    pc: u32,
    receiver: u32,
) -> (r: Result<(), CompileFailure>)
    requires
        env.wf(old(code).len()),
        !env.int32_loop,
        0 < depth <= env.stack@.len(),
        depth <= old(provenance)@.len(),
        root_slot(*env, old(provenance)@[depth - 1]) == Some(receiver as int),
    ensures
        kept(*old(code), *final(code)),
        r is Ok && env.typed(*old(code)) ==> steady(*old(code), *final(code)),
        r is Ok <==> stack_ownable(*env, old(provenance)@, depth - 1) && helper_known(*env, env.abi.helper_get_property),
        r matches Err(e) ==> e == own_failure(*env, old(provenance)@, depth - 1),
        final(code).len() >= old(code).len(),
        r is Ok
            ==> final(provenance)@ == owned_below(old(provenance)@, depth - 1).update(depth - 1, OptProvenance::OwnedSlot),
        r is Ok ==> forall|w: World|
            #![trigger final(code).at(w)]
            length_post(
                *env,
                old(code).at(w),
                final(code).at(w),
                old(code).len(),
                old(provenance)@,
                depth as int,
                pc,
                w,
            ),
{
    proof {
        own_failures(*env, provenance@, depth - 1);
    }
    let index: usize = depth - 1;
    let ghost before = provenance@;
    let object = opt_use(code, env.stack[index], Ty::I64);
    let ghost c1 = *code;
    if let Err(e) = publish_frame(code, env, provenance, index, index, pc) {
        return Err(e);
    }
    crate::helpers::mark_owned(provenance, index);
    proof {
        assert forall|w: World|
            #![trigger code.at(w)]
            match old(code).at(w) {
                Status::Run(s) => {
                    let ready = published(*env, s, before, index as nat, index as nat, pc, w);
                    &&& flows(code.at(w), s, old(code).len(), s.vars, ready)
                    &&& ready.running ==> value(code.at(w), object.payload)
                        == s.vars[env.stack@[depth - 1].payload as int] && value(code.at(w), object.tag)
                        == s.vars[env.stack@[depth - 1].tag as int]
                },
                st => code.at(w) == st,
            } by {
            let a1 = c1.at(w);
            if let Status::Run(s) = old(code).at(w) {
                let at_pc = pc_store(
                    spill(s.trace, *env, s, s.vars, index as nat),
                    *env.abi,
                    s.vals[env.frame as int],
                    pc,
                    w,
                );
                same_own_flow(at_pc, *env, s, a1->Run_0, before, index as nat, w);
            }
        }
    }
    let ghost c2 = *code;
    let generic = code.new_block();
    let found = code.new_block();
    read_dense_length(code, env, object, generic, found);
    let ghost c3 = *code;
    let _ = code.switch_to(generic);
    let ghost c4 = *code;
    let mut extra: Vec<u32> = Vec::new();
    extra.push(receiver);
    extra.push(env.abi.length_atom);
    proof {
        assert(stack_ownable(*env, provenance@, index as int)) by {
            assert forall|i: int| 0 <= i < index implies slot_ownable(*env, #[trigger] provenance@[i]) by {
                assert(slot_ownable(*env, before[i]));
            }
        }
    }
    let ghost prov1 = provenance@;
    if let Err(e) = join_length(code, env, provenance, depth, pc, &extra, found) {
        return Err(e);
    }
    proof {
        assert(extra@ =~= seq![receiver, env.abi.length_atom]);
        assert(provenance@ =~= owned_below(before, depth - 1).update(depth - 1, OptProvenance::OwnedSlot));
        assert forall|w: World|
            #![trigger code.at(w)]
            length_post(*env, old(code).at(w), code.at(w), old(code).len(), before, depth as int, pc, w) by {
            waits_for_known_blocks(old(code).insts@, w);
            let a2 = c2.at(w);
            let a3 = c3.at(w);
            let a4 = c4.at(w);
            if let Status::Run(s) = old(code).at(w) {
                if let Status::Run(t) = a4 {
                    let asked = State { trace: t.trace, ..s };
                    push_depends_on_frame(
                        *env,
                        asked,
                        t,
                        prov1,
                        index as nat,
                        pc,
                        env.abi.helper_get_property as int,
                        extra@,
                        w,
                    );
                }
            }
        }
    }
    Ok(())
}

/// The length of the array on the stack top. Where guarded storage with an
/// exact length is at hand, it is the element count.
pub fn emit_opt_array_length(
    code: &mut Code,
    env: &OptEnv<'_>,
    provenance: &mut Vec<OptProvenance>,
    depth: usize,
    pc: u32,
    guarded_source: &mut Option<GuardedElementSource>,
) -> (r: Result<usize, CompileFailure>)
    requires
        env.wf(old(code).len()),
        depth <= env.stack@.len(),
        depth <= old(provenance)@.len(),
        *old(guarded_source) matches Some(source) ==> storage_known(source.storage, old(code).len()),
    ensures
        kept(*old(code), *final(code)),
        r is Ok && env.typed(*old(code)) && source_held(*old(code), *old(guarded_source))
            ==> steady(*old(code), *final(code)),
        r is Ok && env.typed(*old(code)) && source_held(*old(code), *old(guarded_source))
            ==> source_held(*final(code), *final(guarded_source)),
        ({
            let index = depth - 1;
            let known = depth > 0 && length_known(*old(guarded_source), old(provenance)@, index);
            let root = root_slot(*env, old(provenance)@[index]);
            &&& r is Ok <==> !env.int32_loop && depth > 0 && (known || root is Some && root->Some_0 <= u32::MAX && stack_ownable(
                *env,
                old(provenance)@,
                index,
            ) && helper_known(*env, env.abi.helper_get_property))
            &&& r matches Err(e) ==> e == (if env.int32_loop || depth > 0 && root is None {
                CompileFailure::UnsupportedOpcode
            } else if depth == 0 {
                CompileFailure::InvalidArtifact
            } else if root->Some_0 > u32::MAX {
                CompileFailure::ResourceLimit
            } else {
                own_failure(*env, old(provenance)@, index)
            })
        }),
        final(code).len() >= old(code).len(),
        r matches Ok(d) ==> d == depth,
        r is Ok && length_known(*old(guarded_source), old(provenance)@, depth - 1) ==> {
            &&& *final(guarded_source) == *old(guarded_source)
            &&& final(provenance)@ == old(provenance)@.update(depth - 1, OptProvenance::ImmediatePrimitive)
            &&& forall|w: World|
                #![trigger final(code).at(w)]
                match old(code).at(w) {
                    Status::Run(s) => runs_on(
                        final(code).at(w),
                        s,
                        old(code).len(),
                        vars_after(
                            s.vars,
                            env.stack@[depth - 1],
                            s.vals[old(guarded_source)->Some_0.storage.count as int],
                            JS_TAG_INT as int,
                        ),
                        s.trace,
                    ),
                    st => final(code).at(w) == st,
                }
        },
        r is Ok && !length_known(*old(guarded_source), old(provenance)@, depth - 1) ==> {
            &&& *final(guarded_source) is None
            &&& final(provenance)@ == owned_below(old(provenance)@, depth - 1).update(depth - 1, OptProvenance::OwnedSlot)
            &&& forall|w: World|
                #![trigger final(code).at(w)]
                length_post(
                    *env,
                    old(code).at(w),
                    final(code).at(w),
                    old(code).len(),
                    old(provenance)@,
                    depth as int,
                    pc,
                    w,
                )
        },
{
    proof {
        own_failures(*env, provenance@, if depth > 0 { depth - 1 } else { 0 });
    }
    if env.int32_loop {
        return Err(CompileFailure::UnsupportedOpcode);
    }
    if depth == 0 {
        return Err(CompileFailure::InvalidArtifact);
    }
    let index: usize = depth - 1;
    let origin = provenance[index];
    let borrowed = matches!(origin, OptProvenance::Argument(_) | OptProvenance::Local(_));
    if let Some(source) = *guarded_source {
        if source.exact_length && source.provenance == origin && borrowed {
            let payload = code.convert(ConvertOp::SignExtend, Ty::I32, Ty::I64, source.storage.count);
            let tag = code.iconst(Ty::I64, JS_TAG_INT as i64);
            opt_define(code, env.stack[index], OptPair { payload, tag });
            provenance.set(index, OptProvenance::ImmediatePrimitive);
            return Ok(depth);
        }
    }
    let receiver: u32 = match origin {
        OptProvenance::Argument(argument) => {
            if argument > 0xffff_ffff {
                return Err(CompileFailure::ResourceLimit);
            }
            argument as u32
        },
        OptProvenance::Local(local) => match opt_flat_local_slot(env, local) {
            Ok(slot) => slot,
            Err(e) => return Err(e),
        },
        _ => return Err(CompileFailure::UnsupportedOpcode),
    };
    if let Err(e) = ask_length(code, env, provenance, depth, pc, receiver) {
        return Err(e);
    }
    *guarded_source = None;
    Ok(depth)
}

} // verus!
