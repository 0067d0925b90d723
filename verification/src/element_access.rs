//! Element loads and stores, and array metadata on the way into loops.
use crate::array_plan::ArrayCandidate;
use crate::array_plan::ArrayLoopHoist;
use crate::array_plan::ArrayPlan;
use crate::checks::rejoin;
use crate::checks::require;
use crate::checks::steers;
use crate::checks::wrote;
use crate::code::unsigned;
use crate::code::value;
use crate::code::waits_for_known_blocks;
use crate::code::wrap;
use crate::code::BinaryOp;
use crate::code::kept;
use crate::code::Code;
use crate::code::ConvertOp;
use crate::code::Event;
use crate::code::IntCc;
use crate::code::State;
use crate::code::Status;
use crate::code::Ty;
use crate::code::World;
use crate::control::CompileFailure;
use crate::element_code::address_of;
use crate::element_code::element_of;
use crate::element_code::element_written;
use crate::element_code::find_storage;
use crate::element_code::find_typed;
use crate::element_code::finds;
use crate::element_code::load_element;
use crate::element_code::storable;
use crate::element_code::storage_known;
use crate::element_code::storage_of;
use crate::element_code::store_element;
use crate::element_code::typed_of;
use crate::element_code::Storage;
use crate::element_code::StorageIds;
use crate::elements::checked_chain;
use crate::elements::emit_opt_packed_metadata_guard;
use crate::elements::emit_opt_typed_metadata_guard;
use crate::elements::metadata_of;
use crate::elements::passes;
use crate::elements::typed_mode_known;
use crate::elements::GuardedElementSource;
use crate::exits::placed_failure;
use crate::exits::stack_ownable;
use crate::frame::runs_on;
use crate::frame::OptEnv;
use crate::helpers::is_borrowed;
use crate::ir::OptimizedIr;
use crate::ir::OptimizedNodeKind;
use crate::lower_values::element_address;
use crate::lower_values::group_truths;
use crate::lower_values::number_of;
use crate::lower_values::opt_define;
use crate::lower_values::opt_f64;
use crate::lower_values::opt_tag_is;
use crate::lower_values::opt_use;
use crate::lower_values::vars_after;
use crate::provenance::OptProvenance;
use crate::qjs::JS_TAG_FLOAT64;
use crate::qjs::JS_TAG_INT;
use crate::qjs::JS_TAG_OBJECT;
use crate::runtime::ArrayMode;
use crate::exits::own_failures;
use crate::typing::steady;
use crate::typing::closing;
use crate::typing::calm;
use crate::assemble::Known;
use crate::frame_typing::pair_held;
use crate::frame_typing::slot_named;
use crate::frame_typing::slots_named;
use crate::frame_typing::cached_named;
use crate::frame_typing::cache_named;
use crate::frame_typing::storage_held;
use crate::frame_typing::source_held;
use crate::frame_typing::sources_held;
use vstd::prelude::*;

verus! {

broadcast use {crate::typing::group_typing, crate::frame_typing::group_frame};

/// What an element load found, and where.
pub struct Loaded {
    pub ok: bool,
    pub trace: Seq<Event>,
    pub payload: int,
    pub tag: int,
    pub data: int,
    pub count: int,
    pub kind: int,
}

/// The kind of storage that a mode stands for; a generic site has none.
pub open spec fn kind_number(mode: ArrayMode) -> int {
    match mode {
        ArrayMode::Packed => 0,
        ArrayMode::Int32 => 1,
        ArrayMode::Float64 => 2,
        ArrayMode::Generic => -1,
    }
}

/// The storage that an access may use: storage that has been checked for the
/// same value, or what a look at the object finds.
pub open spec fn storage_for(
    env: OptEnv<'_>,
    s: State,
    cached: Option<StorageIds>,
    expected: Option<ArrayMode>,
    covered: bool,
    payload: int,
    index: int,
    w: World,
) -> Storage {
    match cached {
        Some(ids) => {
            let kind = s.vals[ids.kind as int];
            let count = s.vals[ids.count as int];
            Storage {
                ok: (expected matches Some(mode) ==> kind == kind_number(mode)) && (covered || unsigned(Ty::I32, index)
                    < unsigned(Ty::I32, count)),
                trace: s.trace,
                data: s.vals[ids.data as int],
                count,
                kind,
            }
        },
        None => storage_of(*env.abi, expected, false, payload, index, s.trace, w),
    }
}

/// Loads the element of the object below the key on the stack top.
pub open spec fn loaded_element(
    env: OptEnv<'_>,
    s: State,
    cached: Option<StorageIds>,
    expected: Option<ArrayMode>,
    covered: bool,
    depth: int,
    w: World,
) -> Loaded {
    let object = env.stack@[depth - 2];
    let key = env.stack@[depth - 1];
    let payload = s.vars[object.payload as int];
    let index = wrap(Ty::I32, s.vars[key.payload as int]);
    if s.vars[object.tag as int] != JS_TAG_OBJECT || s.vars[key.tag as int] != JS_TAG_INT {
        Loaded { ok: false, trace: s.trace, payload: 0, tag: 0, data: 0, count: 0, kind: 0 }
    } else {
        let storage = storage_for(env, s, cached, expected, covered, payload, index, w);
        if !storage.ok {
            Loaded { ok: false, trace: storage.trace, payload: 0, tag: 0, data: 0, count: 0, kind: 0 }
        } else {
            let e = element_of(storage.kind, storage.data, index, storage.trace, w);
            Loaded {
                ok: e.ok,
                trace: e.trace,
                payload: e.payload,
                tag: e.tag,
                data: storage.data,
                count: storage.count,
                kind: storage.kind,
            }
        }
    }
}

/// The storage that is at hand for the value at `index`.
pub open spec fn usable_source(source: Option<GuardedElementSource>, provenance: OptProvenance) -> Option<StorageIds> {
    match source {
        Some(known) => if known.provenance == provenance && is_borrowed(provenance) {
            Some(known.storage)
        } else {
            None
        },
        None => None,
    }
}

fn known_source(source: &Option<GuardedElementSource>, provenance: OptProvenance) -> (r: Option<StorageIds>)
    ensures
        r == usable_source(*source, provenance),
{
    match source {
        Some(known) => if known.provenance == provenance && matches!(
            provenance,
            OptProvenance::Argument(_) | OptProvenance::Local(_)
        ) {
            Some(known.storage)
        } else {
            None
        },
        None => None,
    }
}

/// Finds the storage of an element access; control leaves for `failed` where it
/// cannot be used.
fn find_access(
    code: &mut Code,
    env: &OptEnv<'_>,
    cached: Option<StorageIds>,
    expected: Option<ArrayMode>,
    covered: bool,
    payload: usize,
    index: usize,
    failed: usize,
) -> (r: StorageIds)
    requires
        payload < old(code).len(),
        index < old(code).len(),
        failed < old(code).len(),
        cached matches Some(ids) ==> storage_known(ids, old(code).len()),
    ensures
        kept(*old(code), *final(code)),
        (cached matches Some(ids) ==> storage_held(*old(code), ids)) && old(code).holds(payload, Ty::I64)
            && old(code).holds(index, Ty::I32) && old(code).blocked(failed)
            ==> steady(*old(code), *final(code)),
        (cached matches Some(ids) ==> storage_held(*old(code), ids)) ==> storage_held(*final(code), r),
        storage_known(r, final(code).len()),
        old(code).len() <= final(code).len(),
        cached matches Some(ids) ==> r == ids,
        forall|w: World|
            #![trigger final(code).at(w)]
            match old(code).at(w) {
                Status::Run(s) => finds(
                    final(code).at(w),
                    s,
                    old(code).len(),
                    failed,
                    storage_for(*env, s, cached, expected, covered, s.vals[payload as int], s.vals[index as int], w),
                    r,
                ),
                st => final(code).at(w) == st,
            },
{
    match cached {
        Some(ids) => {
            if let Some(mode) = expected {
                let number: i64 = match mode {
                    ArrayMode::Packed => 0,
                    ArrayMode::Int32 => 1,
                    ArrayMode::Float64 => 2,
                    ArrayMode::Generic => -1,
                };
                let mode_ok = code.compare_imm(IntCc::Equal, Ty::I8, ids.kind, number);
                require(code, mode_ok, failed);
            }
            if !covered {
                let in_bounds = code.compare(IntCc::UnsignedLessThan, Ty::I32, index, ids.count);
                require(code, in_bounds, failed);
            }
            ids
        },
        None => find_storage(code, env.abi, expected, false, payload, index, failed),
    }
}

pub open spec fn get_post(
    env: OptEnv<'_>,
    st: Status,
    st2: Status,
    n: int,
    cached: Option<StorageIds>,
    expected: Option<ArrayMode>,
    covered: bool,
    source: Option<StorageIds>,
    provenance: Seq<OptProvenance>,
    depth: int,
    pc: u32,
    guard: u32,
    w: World,
) -> bool {
    match st {
        Status::Run(s) => {
            let e = loaded_element(env, s, cached, expected, covered, depth, w);
            &&& passes(
                env,
                st2,
                s,
                n,
                e.ok,
                if e.ok {
                    vars_after(s.vars, env.stack@[depth - 2], e.payload, e.tag)
                } else {
                    s.vars
                },
                e.trace,
                provenance,
                depth,
                pc,
                guard,
                w,
            )
            &&& e.ok && source is Some ==> value(st2, source->Some_0.data) == e.data && value(st2, source->Some_0.count)
                == e.count && value(st2, source->Some_0.kind) == e.kind
        },
        st => st2 == st,
    }
}

/// The storage that later accesses of the same value may use.
pub open spec fn source_after(
    before: Option<GuardedElementSource>,
    provenance: OptProvenance,
    expected: Option<ArrayMode>,
    block_pc: u32,
    found: StorageIds,
) -> Option<GuardedElementSource> {
    if usable_source(before, provenance) is Some {
        before
    } else if expected == Some(ArrayMode::Packed) {
        Some(GuardedElementSource { provenance, block_pc, storage: found, exact_length: false, typed_mode: None })
    } else {
        None
    }
}

/// Loads an array element. Anything but an in-bounds primitive element of an
/// admitted array deoptimizes before any effect.
#[verifier::spinoff_prover]
#[verifier::rlimit(100)]
pub fn emit_opt_element_get(
    code: &mut Code,
    env: &OptEnv<'_>,
    provenance: &mut Vec<OptProvenance>,
    depth: usize,
    pc: u32,
    guard: u32,
    block_pc: u32,
    guarded_source: &mut Option<GuardedElementSource>,
    expected_mode: Option<ArrayMode>,
    bounds_covered_by_hoist: bool,
) -> (r: Result<usize, CompileFailure>)
    requires
        env.wf(old(code).len()),
        !env.int32_loop,
        depth <= env.stack@.len(),
        depth <= old(provenance)@.len(),
        *old(guarded_source) matches Some(source) ==> storage_known(source.storage, old(code).len()),
    ensures
        kept(*old(code), *final(code)),
        r is Ok && env.typed(*old(code)) && source_held(*old(code), *old(guarded_source))
            ==> steady(*old(code), *final(code)),
        r is Ok && env.typed(*old(code)) && source_held(*old(code), *old(guarded_source))
            ==> source_held(*final(code), *final(guarded_source)),
        r is Ok <==> depth >= 2 && stack_ownable(*env, old(provenance)@, depth as int),
        r matches Err(e) ==> e == placed_failure(depth >= 2, *env, old(provenance)@, depth as int),
        final(code).len() >= old(code).len(),
        r matches Ok(d) ==> d == depth - 1 && final(provenance)@ == crate::arithmetic::folded(old(provenance)@, depth - 2),
        r is Ok ==> {
            let origin = old(provenance)@[depth - 2];
            &&& *final(guarded_source) matches Some(source) ==> storage_known(source.storage, final(code).len())
                && *final(guarded_source) == source_after(
                *old(guarded_source),
                origin,
                expected_mode,
                block_pc,
                source.storage,
            )
            &&& *final(guarded_source) is None ==> source_after(
                *old(guarded_source),
                origin,
                expected_mode,
                block_pc,
                arbitrary(),
            ) is None
            &&& forall|w: World|
                #![trigger final(code).at(w)]
                get_post(
                    *env,
                    old(code).at(w),
                    final(code).at(w),
                    old(code).len(),
                    usable_source(*old(guarded_source), origin),
                    expected_mode,
                    bounds_covered_by_hoist,
                    if *final(guarded_source) is Some {
                        Some(final(guarded_source)->Some_0.storage)
                    } else {
                        None
                    },
                    old(provenance)@,
                    depth as int,
                    pc,
                    guard,
                    w,
                )
        },
{
    broadcast use group_truths;

    if depth < 2 {
        return Err(CompileFailure::InvalidArtifact);
    }
    let object_index: usize = depth - 2;
    let origin = provenance[object_index];
    let cached = known_source(guarded_source, origin);
    let failed = code.new_block();
    let object = opt_use(code, env.stack[object_index], Ty::I64);
    let key = opt_use(code, env.stack[object_index + 1], Ty::I64);
    let object_ok = opt_tag_is(code, object.tag, JS_TAG_OBJECT);
    let key_ok = opt_tag_is(code, key.tag, JS_TAG_INT);
    let tags_ok = code.binary(BinaryOp::And, Ty::I8, object_ok, key_ok);
    require(code, tags_ok, failed);
    let index = code.convert(ConvertOp::Reduce, Ty::I64, Ty::I32, key.payload);
    let ghost c1 = *code;
    let storage = find_access(
        code,
        env,
        cached,
        expected_mode,
        bounds_covered_by_hoist,
        object.payload,
        index,
        failed,
    );
    let ghost c2 = *code;
    let pair = load_element(code, storage, index, failed);
    let ghost c3 = *code;
    if let Err(e) = rejoin(code, env, failed, provenance, depth, pc, guard) {
        return Err(e);
    }
    let ghost c4 = *code;
    opt_define(code, env.stack[object_index], pair);
    provenance.set(object_index, OptProvenance::ImmediatePrimitive);
    provenance.set(object_index + 1, OptProvenance::Unknown);
    if cached.is_none() {
        let packed = match expected_mode {
            Some(ArrayMode::Packed) => true,
            _ => false,
        };
        *guarded_source = if packed {
            Some(
                GuardedElementSource {
                    provenance: origin,
                    block_pc,
                    storage,
                    exact_length: false,
                    typed_mode: None,
                },
            )
        } else {
            None
        };
    }
    proof {
        assert forall|w: World|
            #![trigger code.at(w)]
            get_post(
                *env,
                old(code).at(w),
                code.at(w),
                old(code).len(),
                cached,
                expected_mode,
                bounds_covered_by_hoist,
                if *guarded_source is Some {
                    Some(guarded_source->Some_0.storage)
                } else {
                    None
                },
                old(provenance)@,
                depth as int,
                pc,
                guard,
                w,
            ) by {
            waits_for_known_blocks(old(code).insts@, w);
            let a1 = c1.at(w);
            let a2 = c2.at(w);
            let a3 = c3.at(w);
            let a4 = c4.at(w);
            if let Status::Run(s) = old(code).at(w) {
                let e = loaded_element(*env, s, cached, expected_mode, bounds_covered_by_hoist, depth as int, w);
                checked_chain(
                    *env,
                    s,
                    a3,
                    a4,
                    old(code).len(),
                    failed,
                    e.ok,
                    s.vars,
                    e.trace,
                    old(provenance)@,
                    depth as int,
                    pc,
                    guard,
                    w,
                );
            }
        }
    }
    Ok(object_index + 1)
}

/// The operands of a store are gone from the stack.
pub open spec fn dropped_three(provenance: Seq<OptProvenance>, base: int) -> Seq<OptProvenance> {
    provenance.update(base, OptProvenance::Unknown).update(base + 1, OptProvenance::Unknown).update(
        base + 2,
        OptProvenance::Unknown,
    )
}

/// Stores the stack top into the element of the object two below it.
pub open spec fn put_element(env: OptEnv<'_>, s: State, depth: int, w: World) -> Loaded {
    let object = env.stack@[depth - 3];
    let key = env.stack@[depth - 2];
    let input = env.stack@[depth - 1];
    let index = wrap(Ty::I32, s.vars[key.payload as int]);
    if s.vars[object.tag as int] != JS_TAG_OBJECT || s.vars[key.tag as int] != JS_TAG_INT {
        Loaded { ok: false, trace: s.trace, payload: 0, tag: 0, data: 0, count: 0, kind: 0 }
    } else {
        let storage = storage_of(*env.abi, None, true, s.vars[object.payload as int], index, s.trace, w);
        if !storage.ok {
            Loaded { ok: false, trace: storage.trace, payload: 0, tag: 0, data: 0, count: 0, kind: 0 }
        } else {
            let e = element_written(
                storage.kind,
                storage.data,
                index,
                s.vars[input.payload as int],
                s.vars[input.tag as int],
                storage.trace,
                w,
            );
            Loaded {
                ok: e.ok,
                trace: e.trace,
                payload: 0,
                tag: 0,
                data: storage.data,
                count: storage.count,
                kind: storage.kind,
            }
        }
    }
}

pub open spec fn put_post(
    env: OptEnv<'_>,
    st: Status,
    st2: Status,
    n: int,
    source: StorageIds,
    provenance: Seq<OptProvenance>,
    depth: int,
    pc: u32,
    guard: u32,
    w: World,
) -> bool {
    match st {
        Status::Run(s) => {
            let e = put_element(env, s, depth, w);
            &&& passes(env, st2, s, n, e.ok, s.vars, e.trace, provenance, depth, pc, guard, w)
            &&& e.ok ==> value(st2, source.data) == e.data && value(st2, source.count) == e.count && value(st2, source.kind)
                == e.kind
        },
        st => st2 == st,
    }
}

/// Stores an array element. Anything that would run code, lose a reference or
/// grow the array deoptimizes before any effect.
#[verifier::rlimit(40)]
pub fn emit_opt_element_put(
    code: &mut Code,
    env: &OptEnv<'_>,
    provenance: &mut Vec<OptProvenance>,
    depth: usize,
    pc: u32,
    guard: u32,
    block_pc: u32,
    source_provenance: OptProvenance,
    guarded_source: &mut Option<GuardedElementSource>,
) -> (r: Result<usize, CompileFailure>)
    requires
        env.wf(old(code).len()),
        !env.int32_loop,
        depth <= env.stack@.len(),
        depth <= old(provenance)@.len(),
    ensures
        kept(*old(code), *final(code)),
        r is Ok && env.typed(*old(code)) && source_held(*old(code), *old(guarded_source))
            ==> steady(*old(code), *final(code)),
        r is Ok && env.typed(*old(code)) && source_held(*old(code), *old(guarded_source))
            ==> source_held(*final(code), *final(guarded_source)),
        r is Ok <==> depth >= 3 && stack_ownable(*env, old(provenance)@, depth as int),
        r matches Err(e) ==> e == placed_failure(depth >= 3, *env, old(provenance)@, depth as int),
        final(code).len() >= old(code).len(),
        r matches Ok(d) ==> d == depth - 3 && final(provenance)@ == dropped_three(old(provenance)@, depth - 3),
        r is Ok ==> {
            &&& *final(guarded_source) matches Some(source) && source == (GuardedElementSource {
                provenance: source_provenance,
                block_pc,
                storage: source.storage,
                exact_length: false,
                typed_mode: None,
            }) && storage_known(source.storage, final(code).len())
            &&& forall|w: World|
                #![trigger final(code).at(w)]
                put_post(
                    *env,
                    old(code).at(w),
                    final(code).at(w),
                    old(code).len(),
                    final(guarded_source)->Some_0.storage,
                    old(provenance)@,
                    depth as int,
                    pc,
                    guard,
                    w,
                )
        },
{
    broadcast use group_truths;

    if depth < 3 {
        return Err(CompileFailure::InvalidArtifact);
    }
    let object_index: usize = depth - 3;
    let failed = code.new_block();
    let object = opt_use(code, env.stack[object_index], Ty::I64);
    let key = opt_use(code, env.stack[object_index + 1], Ty::I64);
    let input = opt_use(code, env.stack[object_index + 2], Ty::I64);
    let object_ok = opt_tag_is(code, object.tag, JS_TAG_OBJECT);
    let key_ok = opt_tag_is(code, key.tag, JS_TAG_INT);
    let tags_ok = code.binary(BinaryOp::And, Ty::I8, object_ok, key_ok);
    require(code, tags_ok, failed);
    let index = code.convert(ConvertOp::Reduce, Ty::I64, Ty::I32, key.payload);
    let ghost c1 = *code;
    let storage = find_storage(code, env.abi, None, true, object.payload, index, failed);
    let ghost c2 = *code;
    store_element(code, storage, index, input, failed);
    let ghost c3 = *code;
    if let Err(e) = rejoin(code, env, failed, provenance, depth, pc, guard) {
        return Err(e);
    }
    provenance.set(object_index, OptProvenance::Unknown);
    provenance.set(object_index + 1, OptProvenance::Unknown);
    provenance.set(object_index + 2, OptProvenance::Unknown);
    *guarded_source = Some(
        GuardedElementSource { provenance: source_provenance, block_pc, storage, exact_length: false, typed_mode: None },
    );
    proof {
        assert forall|w: World|
            #![trigger code.at(w)]
            put_post(
                *env,
                old(code).at(w),
                code.at(w),
                old(code).len(),
                storage,
                old(provenance)@,
                depth as int,
                pc,
                guard,
                w,
            ) by {
            waits_for_known_blocks(old(code).insts@, w);
            let a1 = c1.at(w);
            let a2 = c2.at(w);
            let a3 = c3.at(w);
            if let Status::Run(s) = old(code).at(w) {
                let e = put_element(*env, s, depth as int, w);
                checked_chain(
                    *env,
                    s,
                    a3,
                    code.at(w),
                    old(code).len(),
                    failed,
                    e.ok,
                    s.vars,
                    e.trace,
                    old(provenance)@,
                    depth as int,
                    pc,
                    guard,
                    w,
                );
            }
        }
    }
    Ok(object_index)
}

/// The storage that has been queried for the same value and mode.
pub open spec fn typed_source(source: Option<GuardedElementSource>, provenance: OptProvenance, mode: ArrayMode) -> Option<StorageIds> {
    match source {
        Some(known) => if known.provenance == provenance && known.typed_mode == Some(mode) {
            Some(known.storage)
        } else {
            None
        },
        None => None,
    }
}

/// Stores the stack top into a typed array of the mode. Every exit precedes
/// the write, which neither allocates nor releases anything.
pub open spec fn typed_written(
    env: OptEnv<'_>,
    s: State,
    cached: Option<StorageIds>,
    mode: ArrayMode,
    depth: int,
    w: World,
) -> Loaded {
    let object = env.stack@[depth - 3];
    let key = env.stack@[depth - 2];
    let input = env.stack@[depth - 1];
    let index = wrap(Ty::I32, s.vars[key.payload as int]);
    let payload = s.vars[input.payload as int];
    let tag = s.vars[input.tag as int];
    let failure = Loaded { ok: false, trace: s.trace, payload: 0, tag: 0, data: 0, count: 0, kind: 0 };
    if s.vars[key.tag as int] != JS_TAG_INT || !storable(kind_number(mode), tag) {
        failure
    } else {
        let storage = match cached {
            Some(ids) => Storage {
                ok: true,
                trace: s.trace,
                data: s.vals[ids.data as int],
                count: s.vals[ids.count as int],
                kind: s.vals[ids.kind as int],
            },
            None => typed_of(
                env,
                s,
                mode,
                false,
                s.vars[object.payload as int],
                s.vars[object.tag as int],
                s.trace,
                w,
            ),
        };
        if !storage.ok || unsigned(Ty::I32, index) >= unsigned(Ty::I32, storage.count) {
            Loaded { trace: storage.trace, ..failure }
        } else {
            Loaded {
                ok: true,
                trace: if mode == ArrayMode::Int32 {
                    wrote(storage.trace, Ty::I32, address_of(storage.data, index, 4), wrap(Ty::I32, payload))
                } else {
                    wrote(storage.trace, Ty::F64, address_of(storage.data, index, 8), number_of(payload, tag, w))
                },
                payload: 0,
                tag: 0,
                data: storage.data,
                count: storage.count,
                kind: storage.kind,
            }
        }
    }
}

pub open spec fn typed_store_post(
    env: OptEnv<'_>,
    st: Status,
    st2: Status,
    n: int,
    cached: Option<StorageIds>,
    mode: ArrayMode,
    source: StorageIds,
    provenance: Seq<OptProvenance>,
    depth: int,
    pc: u32,
    guard: u32,
    w: World,
) -> bool {
    match st {
        Status::Run(s) => {
            let e = typed_written(env, s, cached, mode, depth, w);
            &&& passes(env, st2, s, n, e.ok, s.vars, e.trace, provenance, depth, pc, guard, w)
            &&& e.ok ==> value(st2, source.data) == e.data && value(st2, source.count) == e.count && value(st2, source.kind)
                == e.kind
        },
        st => st2 == st,
    }
}

/// The checked part of a typed store, up to the write.
#[verifier::rlimit(60)]
fn write_typed(
    code: &mut Code,
    env: &OptEnv<'_>,
    cached: Option<StorageIds>,
    mode: ArrayMode,
    depth: usize,
    failed: usize,
) -> (r: StorageIds)
    requires
        env.wf(old(code).len()),
        !env.int32_loop,
        3 <= depth <= env.stack@.len(),
        failed < old(code).len(),
        typed_mode_known(Some(mode)),
        cached matches Some(ids) ==> storage_known(ids, old(code).len()),
    ensures
        kept(*old(code), *final(code)),
        env.typed(*old(code)) && (cached matches Some(ids) ==> storage_held(*old(code), ids))
            && old(code).blocked(failed)
            ==> steady(*old(code), *final(code)),
        (cached matches Some(ids) ==> storage_held(*old(code), ids)) ==> storage_held(*final(code), r),
        storage_known(r, final(code).len()),
        old(code).len() < final(code).len(),
        cached matches Some(ids) ==> r == ids,
        forall|w: World|
            #![trigger final(code).at(w)]
            match old(code).at(w) {
                Status::Run(s) => {
                    let e = typed_written(*env, s, cached, mode, depth as int, w);
                    &&& steers(final(code).at(w), s, old(code).len(), failed, e.ok, s.vars, e.trace)
                    &&& e.ok ==> value(final(code).at(w), r.data) == e.data && value(final(code).at(w), r.count) == e.count
                        && value(final(code).at(w), r.kind) == e.kind
                },
                st => final(code).at(w) == st,
            },
{
    broadcast use group_truths;

    let base: usize = depth - 3;
    let object = opt_use(code, env.stack[base], Ty::I64);
    let key = opt_use(code, env.stack[base + 1], Ty::I64);
    let input = opt_use(code, env.stack[base + 2], Ty::I64);
    let key_int = opt_tag_is(code, key.tag, JS_TAG_INT);
    let input_int = opt_tag_is(code, input.tag, JS_TAG_INT);
    let input_ok: usize = if mode == ArrayMode::Int32 {
        input_int
    } else {
        let input_float = opt_tag_is(code, input.tag, JS_TAG_FLOAT64);
        code.binary(BinaryOp::Or, Ty::I8, input_int, input_float)
    };
    let operands_ok = code.binary(BinaryOp::And, Ty::I8, key_int, input_ok);
    let ghost c1 = *code;
    require(code, operands_ok, failed);
    let ghost c2 = *code;
    let storage = match cached {
        Some(ids) => ids,
        None => find_typed(code, env, object, mode, false, failed),
    };
    let ghost c3 = *code;
    let index = code.convert(ConvertOp::Reduce, Ty::I64, Ty::I32, key.payload);
    let in_bounds = code.compare(IntCc::UnsignedLessThan, Ty::I32, index, storage.count);
    require(code, in_bounds, failed);
    let ghost c4 = *code;
    if mode == ArrayMode::Int32 {
        let address = element_address(code, storage.data, index, 4);
        let ghost c5 = *code;
        let integer = code.convert(ConvertOp::Reduce, Ty::I64, Ty::I32, input.payload);
        code.store(Ty::I32, integer, address, 0);
        proof {
            assert forall|w: World|
                #![trigger code.at(w)]
                match c4.at(w) {
                    Status::Run(s) => runs_on(
                        code.at(w),
                        s,
                        c4.len(),
                        s.vars,
                        wrote(
                            s.trace,
                            Ty::I32,
                            address_of(s.vals[storage.data as int], s.vals[index as int], 4),
                            wrap(Ty::I32, s.vals[input.payload as int]),
                        ),
                    ),
                    st => code.at(w) == st,
                } by {
                let a5 = c5.at(w);
            }
        }
    } else {
        let address = element_address(code, storage.data, index, 8);
        let ghost c5 = *code;
        let double = opt_f64(code, input);
        let ghost c6 = *code;
        code.store(Ty::F64, double, address, 0);
        proof {
            assert forall|w: World|
                #![trigger code.at(w)]
                match c4.at(w) {
                    Status::Run(s) => runs_on(
                        code.at(w),
                        s,
                        c4.len(),
                        s.vars,
                        wrote(
                            s.trace,
                            Ty::F64,
                            address_of(s.vals[storage.data as int], s.vals[index as int], 8),
                            number_of(s.vals[input.payload as int], s.vals[input.tag as int], w),
                        ),
                    ),
                    st => code.at(w) == st,
                } by {
                let a5 = c5.at(w);
                let a6 = c6.at(w);
            }
        }
    }
    proof {
        assert forall|w: World|
            #![trigger code.at(w)]
            match old(code).at(w) {
                Status::Run(s) => {
                    let e = typed_written(*env, s, cached, mode, depth as int, w);
                    &&& steers(code.at(w), s, old(code).len(), failed, e.ok, s.vars, e.trace)
                    &&& e.ok ==> value(code.at(w), storage.data) == e.data && value(code.at(w), storage.count) == e.count
                        && value(code.at(w), storage.kind) == e.kind
                },
                st => code.at(w) == st,
            } by {
            let a1 = c1.at(w);
            let a2 = c2.at(w);
            let a3 = c3.at(w);
            let a4 = c4.at(w);
            if let Status::Run(s) = old(code).at(w) {
                if a2 is Run && cached is None {
                    let object_slot = env.stack@[depth - 3];
                    assert(typed_of(
                        *env,
                        a2->Run_0,
                        mode,
                        false,
                        s.vars[object_slot.payload as int],
                        s.vars[object_slot.tag as int],
                        s.trace,
                        w,
                    ) == typed_of(
                        *env,
                        s,
                        mode,
                        false,
                        s.vars[object_slot.payload as int],
                        s.vars[object_slot.tag as int],
                        s.trace,
                        w,
                    ));
                }
            }
        }
    }
    storage
}

/// Stores into a typed array whose storage the runtime guards.
pub fn emit_opt_typed_store(
    code: &mut Code,
    env: &OptEnv<'_>,
    provenance: &mut Vec<OptProvenance>,
    depth: usize,
    pc: u32,
    guard: u32,
    block_pc: u32,
    mode: ArrayMode,
    guarded_source: &mut Option<GuardedElementSource>,
) -> (r: Result<usize, CompileFailure>)
    requires
        env.wf(old(code).len()),
        !env.int32_loop,
        depth <= env.stack@.len(),
        depth <= old(provenance)@.len(),
        *old(guarded_source) matches Some(source) ==> storage_known(source.storage, old(code).len()),
    ensures
        kept(*old(code), *final(code)),
        r is Ok && env.typed(*old(code)) && source_held(*old(code), *old(guarded_source))
            ==> steady(*old(code), *final(code)),
        r is Ok && env.typed(*old(code)) && source_held(*old(code), *old(guarded_source))
            ==> source_held(*final(code), *final(guarded_source)),
        r is Ok <==> depth >= 3 && typed_mode_known(Some(mode)) && stack_ownable(*env, old(provenance)@, depth as int),
        r matches Err(e) ==> e == placed_failure(depth >= 3 && typed_mode_known(Some(mode)), *env, old(provenance)@, depth as int),
        final(code).len() >= old(code).len(),
        r matches Ok(d) ==> d == depth - 3 && final(provenance)@ == dropped_three(old(provenance)@, depth - 3),
        r is Ok ==> {
            let cached = typed_source(*old(guarded_source), old(provenance)@[depth - 3], mode);
            &&& *final(guarded_source) is Some
            &&& storage_known(final(guarded_source)->Some_0.storage, final(code).len())
            &&& cached is Some ==> *final(guarded_source) == *old(guarded_source)
            &&& cached is None ==> final(guarded_source)->Some_0 == (GuardedElementSource {
                provenance: old(provenance)@[depth - 3],
                block_pc,
                storage: final(guarded_source)->Some_0.storage,
                exact_length: false,
                typed_mode: Some(mode),
            })
            &&& forall|w: World|
                #![trigger final(code).at(w)]
                typed_store_post(
                    *env,
                    old(code).at(w),
                    final(code).at(w),
                    old(code).len(),
                    cached,
                    mode,
                    final(guarded_source)->Some_0.storage,
                    old(provenance)@,
                    depth as int,
                    pc,
                    guard,
                    w,
                )
        },
{
    proof {
        own_failures(*env, provenance@, depth as int);
    }
    if depth < 3 || (mode != ArrayMode::Int32 && mode != ArrayMode::Float64) {
        return Err(CompileFailure::InvalidArtifact);
    }
    let base: usize = depth - 3;
    let origin = provenance[base];
    let cached: Option<StorageIds> = match guarded_source {
        Some(known) => match known.typed_mode {
            Some(known_mode) => if known.provenance == origin && known_mode == mode {
                Some(known.storage)
            } else {
                None
            },
            None => None,
        },
        None => None,
    };
    let failed = code.new_cold_block();
    let ghost c1 = *code;
    let storage = write_typed(code, env, cached, mode, depth, failed);
    let ghost c2 = *code;
    if let Err(e) = rejoin(code, env, failed, provenance, depth, pc, guard) {
        return Err(e);
    }
    provenance.set(base, OptProvenance::Unknown);
    provenance.set(base + 1, OptProvenance::Unknown);
    provenance.set(base + 2, OptProvenance::Unknown);
    if cached.is_none() {
        *guarded_source = Some(
            GuardedElementSource {
                provenance: origin,
                block_pc,
                storage,
                exact_length: false,
                typed_mode: Some(mode),
            },
        );
    }
    proof {
        assert forall|w: World|
            #![trigger code.at(w)]
            typed_store_post(
                *env,
                old(code).at(w),
                code.at(w),
                old(code).len(),
                cached,
                mode,
                storage,
                old(provenance)@,
                depth as int,
                pc,
                guard,
                w,
            ) by {
            waits_for_known_blocks(old(code).insts@, w);
            let a1 = c1.at(w);
            let a2 = c2.at(w);
            if let Status::Run(s) = old(code).at(w) {
                let e = typed_written(*env, s, cached, mode, depth as int, w);
                checked_chain(
                    *env,
                    s,
                    a2,
                    code.at(w),
                    old(code).len(),
                    failed,
                    e.ok,
                    s.vars,
                    e.trace,
                    old(provenance)@,
                    depth as int,
                    pc,
                    guard,
                    w,
                );
            }
        }
    }
    Ok(base)
}

/// The guard at the header of a loop.
pub open spec fn header_guard(ir: OptimizedIr, header: u32) -> Option<u32> {
    match crate::runtime::first_at(|i: int| ir.blocks@[i].start_pc == header, ir.blocks@.len()) {
        Some(i) => {
            let nodes = ir.blocks@[i].nodes@;
            match crate::runtime::first_at(|k: int| is_loop_guard(ir, nodes[k]), nodes.len()) {
                Some(k) => Some(loop_guard(ir, nodes[k])),
                None => None,
            }
        },
        None => None,
    }
}

pub open spec fn is_loop_guard(ir: OptimizedIr, id: u32) -> bool {
    &&& id < ir.nodes@.len()
    &&& ir.nodes@[id as int].kind matches OptimizedNodeKind::GuardNumeric { mid_loop, .. } && mid_loop
}

pub open spec fn loop_guard(ir: OptimizedIr, id: u32) -> u32 {
    match ir.nodes@[id as int].kind {
        OptimizedNodeKind::GuardNumeric { guard, .. } => guard,
        _ => 0,
    }
}

fn find_header_guard(ir: &OptimizedIr, header: u32) -> (r: Option<u32>)
    ensures
        r == header_guard(*ir, header),
{
    let ghost f = |i: int| ir.blocks@[i].start_pc == header;
    let mut i: usize = 0;
    while i < ir.blocks.len()
        invariant
            i <= ir.blocks@.len(),
            f == (|i: int| ir.blocks@[i].start_pc == header),
            forall|k: int| 0 <= k < i ==> !#[trigger] f(k),
        decreases ir.blocks@.len() - i,
    {
        if ir.blocks[i].start_pc == header {
            proof {
                crate::runtime::first_at_is(f, ir.blocks@.len(), i as int);
            }
            let nodes = &ir.blocks[i].nodes;
            let ghost g = |k: int| is_loop_guard(*ir, nodes@[k]);
            let mut j: usize = 0;
            while j < nodes.len()
                invariant
                    j <= nodes@.len(),
                    i < ir.blocks@.len(),
                    nodes@ == ir.blocks@[i as int].nodes@,
                    f == (|i: int| ir.blocks@[i].start_pc == header),
                    crate::runtime::first_at(f, ir.blocks@.len()) == Some(i as int),
                    g == (|k: int| is_loop_guard(*ir, nodes@[k])),
                    forall|k: int| 0 <= k < j ==> !#[trigger] g(k),
                decreases nodes@.len() - j,
            {
                let id = nodes[j];
                if (id as usize) < ir.nodes.len() {
                    if let OptimizedNodeKind::GuardNumeric { guard, mid_loop } = &ir.nodes[id as usize].kind {
                        if *mid_loop {
                            proof {
                                assert(g(j as int));
                                crate::runtime::first_at_is(g, nodes@.len(), j as int);
                            }
                            return Some(*guard);
                        }
                    }
                }
                assert(!g(j as int));
                j = j + 1;
            }
            proof {
                crate::runtime::first_at_none(g, nodes@.len());
            }
            return None;
        }
        i = i + 1;
    }
    proof {
        crate::runtime::first_at_none(f, ir.blocks@.len());
    }
    None
}

/// The hoist belongs to this edge into a loop.
pub open spec fn hoist_on(hoist: ArrayLoopHoist, preheader: u32, header: u32) -> bool {
    hoist.preheader == preheader && hoist.header == header
}

/// The storage that an edge into a loop makes available.
pub open spec fn hoist_mode(mode: ArrayMode) -> Option<ArrayMode> {
    if mode == ArrayMode::Packed {
        None
    } else {
        Some(mode)
    }
}

pub open spec fn hoist_post(
    env: OptEnv<'_>,
    st: Status,
    st2: Status,
    n: int,
    candidate: ArrayCandidate,
    source: StorageIds,
    provenance: Seq<OptProvenance>,
    depth: int,
    header: u32,
    guard: u32,
    w: World,
) -> bool {
    match st {
        Status::Run(s) => {
            let slot = env.arguments@[candidate.argument as int];
            let found = metadata_of(
                env,
                s,
                hoist_mode(candidate.mode),
                true,
                s.vars[slot.payload as int],
                s.vars[slot.tag as int],
                s.trace,
                w,
            );
            &&& passes(env, st2, s, n, found.ok, s.vars, found.trace, provenance, depth, header, guard, w)
            &&& found.ok ==> value(st2, source.data) == found.data && value(st2, source.count) == found.count && value(
                st2,
                source.kind,
            ) == found.kind
        },
        st => st2 == st,
    }
}

/// A hoist belongs where it stands: its candidate and argument exist, and the
/// loop has a guard to leave through.
pub open spec fn hoist_placed(env: OptEnv<'_>, plan: ArrayPlan, ir: OptimizedIr, hoist: ArrayLoopHoist) -> bool {
    &&& hoist.candidate < plan.candidates@.len()
    &&& plan.candidates@[hoist.candidate as int].argument < env.arguments@.len()
    &&& header_guard(ir, hoist.header) is Some
    &&& plan.candidates@[hoist.candidate as int].mode != ArrayMode::Generic
}

/// A hoist can be emitted: it belongs there, and the stack can be made an owner.
pub open spec fn hoist_ready(
    env: OptEnv<'_>,
    plan: ArrayPlan,
    ir: OptimizedIr,
    hoist: ArrayLoopHoist,
    provenance: Seq<OptProvenance>,
    depth: int,
) -> bool {
    hoist_placed(env, plan, ir, hoist) && stack_ownable(env, provenance, depth)
}

fn emit_hoist(
    code: &mut Code,
    env: &OptEnv<'_>,
    provenance: &Vec<OptProvenance>,
    depth: usize,
    plan: &ArrayPlan,
    hoist: ArrayLoopHoist,
    ir: &OptimizedIr,
) -> (r: Result<GuardedElementSource, CompileFailure>)
    requires
        env.wf(old(code).len()),
        !env.int32_loop,
        depth <= env.stack@.len(),
    ensures
        kept(*old(code), *final(code)),
        r is Ok && env.typed(*old(code)) ==> steady(*old(code), *final(code)),
        r matches Ok(source) ==> storage_held(*final(code), source.storage),
        r is Ok <==> hoist_ready(*env, *plan, *ir, hoist, provenance@, depth as int),
        r matches Err(e) ==> e == placed_failure(
            hoist_placed(*env, *plan, *ir, hoist),
            *env,
            provenance@,
            depth as int,
        ),
        final(code).len() >= old(code).len(),
        r matches Ok(source) ==> {
            let candidate = plan.candidates@[hoist.candidate as int];
            &&& source == (GuardedElementSource {
                provenance: OptProvenance::Argument(candidate.argument as usize),
                block_pc: hoist.header,
                storage: source.storage,
                exact_length: true,
                typed_mode: hoist_mode(candidate.mode),
            })
            &&& storage_known(source.storage, final(code).len())
            &&& forall|w: World|
                #![trigger final(code).at(w)]
                hoist_post(
                    *env,
                    old(code).at(w),
                    final(code).at(w),
                    old(code).len(),
                    candidate,
                    source.storage,
                    provenance@,
                    depth as int,
                    hoist.header,
                    header_guard(*ir, hoist.header)->Some_0,
                    w,
                )
        },
{
    if hoist.candidate >= plan.candidates.len() {
        return Err(CompileFailure::InvalidArtifact);
    }
    let candidate = plan.candidates[hoist.candidate];
    let argument = candidate.argument as usize;
    if argument >= env.arguments.len() {
        return Err(CompileFailure::InvalidArtifact);
    }
    let guard = match find_header_guard(ir, hoist.header) {
        Some(guard) => guard,
        None => return Err(CompileFailure::InvalidArtifact),
    };
    let object = opt_use(code, env.arguments[argument], Ty::I64);
    let ghost c1 = *code;
    let source = match candidate.mode {
        ArrayMode::Packed => emit_opt_packed_metadata_guard(
            code,
            env,
            provenance,
            depth,
            hoist.header,
            guard,
            object,
            OptProvenance::Argument(argument),
            hoist.header,
        ),
        ArrayMode::Generic => Err(CompileFailure::InvalidArtifact),
        mode => emit_opt_typed_metadata_guard(
            code,
            env,
            provenance,
            depth,
            hoist.header,
            guard,
            object,
            OptProvenance::Argument(argument),
            hoist.header,
            mode,
            true,
        ),
    };
    match source {
        Err(e) => Err(e),
        Ok(source) => {
            proof {
                assert forall|w: World|
                    #![trigger code.at(w)]
                    hoist_post(
                        *env,
                        old(code).at(w),
                        code.at(w),
                        old(code).len(),
                        candidate,
                        source.storage,
                        provenance@,
                        depth as int,
                        hoist.header,
                        guard,
                        w,
                    ) by {
                    let a1 = c1.at(w);
                    if let Status::Run(s) = old(code).at(w) {
                        let slot = env.arguments@[argument as int];
                        let found = metadata_of(
                            *env,
                            s,
                            hoist_mode(candidate.mode),
                            true,
                            s.vars[slot.payload as int],
                            s.vars[slot.tag as int],
                            s.trace,
                            w,
                        );
                        assert(metadata_of(
                            *env,
                            a1->Run_0,
                            hoist_mode(candidate.mode),
                            true,
                            s.vars[slot.payload as int],
                            s.vars[slot.tag as int],
                            s.trace,
                            w,
                        ) == found);
                        crate::exits::deopt_depends_on_frame(
                            *env,
                            s,
                            a1->Run_0,
                            s.vars,
                            found.trace,
                            provenance@,
                            depth as nat,
                            hoist.header,
                            guard,
                            w,
                        );
                    }
                }
            }
            Ok(source)
        },
    }
}

/// Makes array metadata available on an edge into a loop, exactly once.
pub fn emit_opt_array_loop_hoists(
    code: &mut Code,
    env: &OptEnv<'_>,
    provenance: &Vec<OptProvenance>,
    depth: usize,
    plan: &ArrayPlan,
    preheader: u32,
    successor: u32,
    sources: &mut std::collections::BTreeMap<u32, GuardedElementSource>,
    ir: &OptimizedIr,
) -> (r: Result<(), CompileFailure>)
    requires
        env.wf(old(code).len()),
        !env.int32_loop || plan.hoists@.len() == 0,
        depth <= env.stack@.len(),
    ensures
        kept(*old(code), *final(code)),
        r is Ok && env.typed(*old(code)) ==> steady(*old(code), *final(code)),
        r is Ok && env.typed(*old(code)) && sources_held(*old(code), old(sources)@)
            ==> sources_held(*final(code), final(sources)@),
        final(code).len() >= old(code).len(),
        ({
            let found = crate::runtime::first_at(
                |i: int| hoist_on(plan.hoists@[i], preheader, successor),
                plan.hoists@.len(),
            );
            match found {
                None => r is Ok && final(code).insts@ == old(code).insts@ && final(sources)@ == old(sources)@,
                Some(i) => {
                    let hoist = plan.hoists@[i];
                    &&& r is Ok <==> hoist_ready(*env, *plan, *ir, hoist, provenance@, depth as int)
                        && !old(sources)@.contains_key(successor) && forall|j: int|
                        i < j < plan.hoists@.len() ==> !hoist_on(#[trigger] plan.hoists@[j], preheader, successor)
                    &&& r matches Err(e) ==> e == placed_failure(
                        hoist_placed(*env, *plan, *ir, hoist),
                        *env,
                        provenance@,
                        depth as int,
                    )
                    &&& r is Ok ==> {
                        let source = final(sources)@[successor];
                        let candidate = plan.candidates@[hoist.candidate as int];
                        &&& final(sources)@ == old(sources)@.insert(successor, source)
                        &&& source == (GuardedElementSource {
                            provenance: OptProvenance::Argument(candidate.argument as usize),
                            block_pc: successor,
                            storage: source.storage,
                            exact_length: true,
                            typed_mode: hoist_mode(candidate.mode),
                        })
                        &&& storage_known(source.storage, final(code).len())
                        &&& forall|w: World|
                            #![trigger final(code).at(w)]
                            hoist_post(
                                *env,
                                old(code).at(w),
                                final(code).at(w),
                                old(code).len(),
                                candidate,
                                source.storage,
                                provenance@,
                                depth as int,
                                successor,
                                header_guard(*ir, successor)->Some_0,
                                w,
                            )
                    }
                },
            }
        }),
{
    broadcast use vstd::std_specs::btree::group_btree_axioms;

    let ghost f = |i: int| hoist_on(plan.hoists@[i], preheader, successor);
    let mut i: usize = 0;
    while i < plan.hoists.len()
        invariant
            kept(*old(code), *code),
            env.typed(*old(code)) ==> steady(*old(code), *code),
            sources@ == old(sources)@,
            i <= plan.hoists@.len(),
            f == (|i: int| hoist_on(plan.hoists@[i], preheader, successor)),
            env.wf(old(code).len()),
            !env.int32_loop || plan.hoists@.len() == 0,
            depth <= env.stack@.len(),
            forall|k: int| 0 <= k < i ==> !#[trigger] f(k),
            *code == *old(code),
            *sources == *old(sources),
        decreases plan.hoists@.len() - i,
    {
        let hoist = plan.hoists[i];
        if hoist.preheader == preheader && hoist.header == successor {
            proof {
                crate::runtime::first_at_is(f, plan.hoists@.len(), i as int);
            }
            let mut j: usize = i + 1;
            let mut repeated = false;
            while j < plan.hoists.len()
                invariant
                    kept(*old(code), *code),
                    env.typed(*old(code)) ==> steady(*old(code), *code),
                    sources@ == old(sources)@,
                    i < j <= plan.hoists@.len(),
                    repeated == exists|k: int| i < k < j && hoist_on(#[trigger] plan.hoists@[k], preheader, successor),
                decreases plan.hoists@.len() - j,
            {
                if plan.hoists[j].preheader == preheader && plan.hoists[j].header == successor {
                    assert(hoist_on(plan.hoists@[j as int], preheader, successor));
                    repeated = true;
                }
                j = j + 1;
            }
            let source = match emit_hoist(code, env, provenance, depth, plan, hoist, ir) {
                Ok(source) => source,
                Err(e) => return Err(e),
            };
            if repeated || sources.contains_key(&successor) {
                proof {
                    own_failures(*env, provenance@, depth as int);
                }
                return Err(CompileFailure::InvalidArtifact);
            }
            let _ = sources.insert(successor, source);
            return Ok(());
        }
        i = i + 1;
    }
    proof {
        crate::runtime::first_at_none(f, plan.hoists@.len());
    }
    Ok(())
}

} // verus!
