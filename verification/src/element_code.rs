//! Emitted looks at the storage of arrays and typed arrays.
use crate::checks::read;
use crate::checks::require;
use crate::checks::seen;
use crate::checks::steers;
use crate::checks::wrote;
use crate::code::binary_value;
use crate::code::quiet;
use crate::code::truth;
use crate::code::unsigned;
use crate::code::value;
use crate::code::waits_for_known_blocks;
use crate::code::wrap;
use crate::code::BinaryOp;
use crate::code::kept;
use crate::code::Code;
use crate::code::ConvertOp;
use crate::code::Event;
use crate::code::IntCc;
use crate::code::State;
use crate::code::Status;
use crate::code::Ty;
use crate::code::World;
use crate::frame::runs_on;
use crate::frame::OptEnv;
use crate::frame::RuntimeAbi;
use crate::lower_values::element_address;
use crate::lower_values::group_truths;
use crate::lower_values::number_of;
use crate::lower_values::opt_f64;
use crate::lower_values::opt_load;
use crate::lower_values::opt_store_at;
use crate::lower_values::opt_tag_is;
use crate::lower_values::pair_stores;
use crate::lower_values::OptPair;
use crate::qjs::JS_TAG_FLOAT64;
use crate::qjs::JS_TAG_INT;
use crate::qjs::JS_TAG_OBJECT;
use crate::runtime::ArrayMode;
use crate::typing::steady;
use crate::typing::closing;
use crate::typing::calm;
use crate::assemble::Known;
use crate::frame_typing::pair_held;
use crate::frame_typing::slot_named;
use crate::frame_typing::slots_named;
use crate::frame_typing::cached_named;
use crate::frame_typing::cache_named;
use crate::frame_typing::storage_held;
use vstd::prelude::*;

verus! {

broadcast use {crate::typing::group_typing, crate::frame_typing::group_frame};

/// What a look at an array's storage found. The kind is 0 for tagged elements,
/// 1 for 32-bit integers, 2 for doubles.
pub struct Storage {
    pub ok: bool,
    pub trace: Seq<Event>,
    pub data: int,
    pub count: int,
    pub kind: int,
}

pub open spec fn not_found(trace: Seq<Event>) -> Storage {
    Storage { ok: false, trace, data: 0, count: 0, kind: 0 }
}

/// The class number of an object, as the read after `trace` gives it.
pub open spec fn class_of(trace: Seq<Event>, w: World) -> int {
    wrap(Ty::I64, unsigned(Ty::I16, seen(trace, Ty::I16, w)))
}

pub open spec fn is_fast(abi: RuntimeAbi, trace: Seq<Event>, w: World) -> bool {
    binary_value(BinaryOp::And, Ty::I8, seen(trace, Ty::I8, w), abi.elements.fast_array_mask as int) != 0
}

/// A dense array whose observable length is its element count.
pub open spec fn packed_of(abi: RuntimeAbi, payload: int, tag: int, trace: Seq<Event>, w: World) -> Storage {
    let t1 = read(trace, Ty::I8, payload + abi.elements.object_flags, w);
    let t2 = read(t1, Ty::I16, payload + abi.elements.object_class_id, w);
    let t3 = read(t2, Ty::I32, payload + abi.elements.array_count, w);
    let t4 = read(t3, Ty::I64, payload + abi.elements.array_data, w);
    let t5 = read(t4, Ty::I64, payload + abi.property.object_properties, w);
    let count = seen(t2, Ty::I32, w);
    let data = seen(t3, Ty::I64, w);
    let properties = seen(t4, Ty::I64, w);
    let t6 = read(t5, Ty::I64, properties, w);
    let t7 = read(t6, Ty::I64, properties + 8, w);
    let length = seen(t5, Ty::I64, w);
    let length_tag = seen(t6, Ty::I64, w);
    if tag != JS_TAG_OBJECT {
        not_found(trace)
    } else if !is_fast(abi, trace, w) {
        not_found(t1)
    } else if class_of(t1, w) != abi.elements.array_class_id {
        not_found(t2)
    } else {
        Storage {
            ok: length_tag == JS_TAG_INT && wrap(Ty::I32, length) == count && (count == 0 || data != 0),
            trace: t7,
            data,
            count,
            kind: 0,
        }
    }
}

/// A found storage, as values in the code.
#[derive(Clone, Copy, Debug, PartialEq, Eq, Structural)]
pub struct StorageIds {
    pub data: usize,
    pub count: usize,
    pub kind: usize,
}

pub open spec fn storage_known(ids: StorageIds, n: int) -> bool {
    ids.data < n && ids.count < n && ids.kind < n
}

/// Control goes on with the storage that was found, or is at `failed`.
pub open spec fn finds(st: Status, s: State, n: int, failed: usize, found: Storage, ids: StorageIds) -> bool {
    &&& steers(st, s, n, failed, found.ok, s.vars, found.trace)
    &&& found.ok ==> value(st, ids.data) == found.data && value(st, ids.count) == found.count && value(st, ids.kind) == found.kind
}

fn class_number(code: &mut Code, abi: &RuntimeAbi, payload: usize) -> (r: usize)
    requires
        payload < old(code).len(),
    ensures
        kept(*old(code), *final(code)),
        old(code).holds(payload, Ty::I64) ==> steady(*old(code), *final(code)),
        final(code).kind(r as int) == Known::Value(Ty::I64),
        r == old(code).len() + 1,
        final(code).len() == old(code).len() + 2,
        forall|w: World|
            #![trigger final(code).at(w)]
            match old(code).at(w) {
                Status::Run(s) => runs_on(
                    final(code).at(w),
                    s,
                    old(code).len(),
                    s.vars,
                    read(s.trace, Ty::I16, s.vals[payload as int] + abi.elements.object_class_id, w),
                ) && value(final(code).at(w), r) == class_of(s.trace, w),
                st => final(code).at(w) == st,
            },
{
    let class = code.load(Ty::I16, payload, abi.elements.object_class_id);
    code.convert(ConvertOp::ZeroExtend, Ty::I16, Ty::I64, class)
}

fn fast_flag(code: &mut Code, abi: &RuntimeAbi, payload: usize) -> (r: usize)
    requires
        payload < old(code).len(),
    ensures
        kept(*old(code), *final(code)),
        old(code).holds(payload, Ty::I64) ==> steady(*old(code), *final(code)),
        final(code).kind(r as int) == Known::Value(Ty::I8),
        r == old(code).len() + 2,
        final(code).len() == old(code).len() + 3,
        forall|w: World|
            #![trigger final(code).at(w)]
            match old(code).at(w) {
                Status::Run(s) => runs_on(
                    final(code).at(w),
                    s,
                    old(code).len(),
                    s.vars,
                    read(s.trace, Ty::I8, s.vals[payload as int] + abi.elements.object_flags, w),
                ) && value(final(code).at(w), r) == truth(is_fast(*abi, s.trace, w)),
                st => final(code).at(w) == st,
            },
{
    let flags = code.load(Ty::I8, payload, abi.elements.object_flags);
    let fast = code.binary_imm(BinaryOp::And, Ty::I8, flags, abi.elements.fast_array_mask);
    code.compare_imm(IntCc::NotEqual, Ty::I8, fast, 0)
}

/// Looks for a dense array with an exact length; control leaves for `failed`
/// where the value is none.
#[verifier::rlimit(60)]
pub fn find_packed(code: &mut Code, abi: &RuntimeAbi, object: OptPair, failed: usize) -> (r: StorageIds)
    requires
        object.payload < old(code).len(),
        object.tag < old(code).len(),
        failed < old(code).len(),
    ensures
        kept(*old(code), *final(code)),
        pair_held(*old(code), object) && old(code).blocked(failed) ==> steady(*old(code), *final(code)),
        storage_held(*final(code), r),
        storage_known(r, final(code).len()),
        old(code).len() < final(code).len(),
        forall|w: World|
            #![trigger final(code).at(w)]
            match old(code).at(w) {
                Status::Run(s) => finds(
                    final(code).at(w),
                    s,
                    old(code).len(),
                    failed,
                    packed_of(*abi, s.vals[object.payload as int], s.vals[object.tag as int], s.trace, w),
                    r,
                ),
                st => final(code).at(w) == st,
            },
{
    broadcast use group_truths;

    let object_ok = opt_tag_is(code, object.tag, JS_TAG_OBJECT);
    require(code, object_ok, failed);
    let ghost c1 = *code;
    let fast = fast_flag(code, abi, object.payload);
    let ghost c2 = *code;
    require(code, fast, failed);
    let ghost c3 = *code;
    let class = class_number(code, abi, object.payload);
    let ghost c4 = *code;
    let packed = code.compare_imm(IntCc::Equal, Ty::I64, class, abi.elements.array_class_id);
    require(code, packed, failed);
    let count = code.load(Ty::I32, object.payload, abi.elements.array_count);
    let data = code.load(Ty::I64, object.payload, abi.elements.array_data);
    let properties = code.load(Ty::I64, object.payload, abi.property.object_properties);
    let ghost c5 = *code;
    let length = opt_load(code, properties, 0);
    let length_is_int = opt_tag_is(code, length.tag, JS_TAG_INT);
    let length_payload = code.convert(ConvertOp::Reduce, Ty::I64, Ty::I32, length.payload);
    let same = code.compare(IntCc::Equal, Ty::I32, length_payload, count);
    let exact_dense = code.binary(BinaryOp::And, Ty::I8, length_is_int, same);
    require(code, exact_dense, failed);
    let ghost c6 = *code;
    let empty = code.compare_imm(IntCc::Equal, Ty::I32, count, 0);
    let has_data = code.compare_imm(IntCc::NotEqual, Ty::I64, data, 0);
    let usable_data = code.binary(BinaryOp::Or, Ty::I8, empty, has_data);
    require(code, usable_data, failed);
    let kind = code.iconst(Ty::I8, 0);
    let r = StorageIds { data, count, kind };
    proof {
        assert forall|w: World|
            #![trigger code.at(w)]
            match old(code).at(w) {
                Status::Run(s) => finds(
                    code.at(w),
                    s,
                    old(code).len(),
                    failed,
                    packed_of(*abi, s.vals[object.payload as int], s.vals[object.tag as int], s.trace, w),
                    r,
                ),
                st => code.at(w) == st,
            } by {
            let a1 = c1.at(w);
            let a2 = c2.at(w);
            let a3 = c3.at(w);
            let a4 = c4.at(w);
            let a5 = c5.at(w);
            let a6 = c6.at(w);
        }
    }
    r
}

pub open spec fn mode_number(abi: RuntimeAbi, mode: ArrayMode) -> int {
    if mode == ArrayMode::Int32 {
        abi.elements.mode_int32 as int
    } else {
        abi.elements.mode_float64 as int
    }
}

pub open spec fn slot_address(trace: Seq<Event>, slot: usize, w: World) -> Seq<Event> {
    trace.push(Event::SlotAddr { slot: slot as int, offset: 0, address: seen(trace, Ty::I64, w) })
}

/// Everything up to and including the runtime's answer to the query for a typed
/// array's storage.
pub open spec fn query_trace(
    env: OptEnv<'_>,
    s: State,
    mode: ArrayMode,
    needs_length: bool,
    payload: int,
    tag: int,
    trace: Seq<Event>,
    w: World,
) -> Seq<Event> {
    let receiver = seen(trace, Ty::I64, w);
    let t1 = pair_stores(slot_address(trace, env.query_receiver, w), receiver, payload, tag);
    let metadata = seen(t1, Ty::I64, w);
    let t2 = wrote(
        slot_address(t1, env.query_metadata, w),
        Ty::I32,
        metadata,
        wrap(Ty::I32, env.abi.elements.metadata_size as int),
    );
    let t3 = read(t2, Ty::I64, s.vals[env.frame as int] + env.abi.ctx, w);
    let context = seen(t2, Ty::I64, w);
    t3.push(
        Event::Call {
            callee: wrap(Ty::I64, env.abi.elements.array_query as int),
            args: seq![
                context,
                receiver,
                wrap(Ty::I32, mode_number(*env.abi, mode)),
                wrap(
                    Ty::I32,
                    if needs_length {
                        env.abi.elements.query_length as int
                    } else {
                        0
                    },
                ),
                metadata,
            ],
            result: seen(t3, Ty::I32, w),
        },
    )
}

/// A typed array with fixed storage of the given mode, as the runtime's query
/// answers.
pub open spec fn typed_of(
    env: OptEnv<'_>,
    s: State,
    mode: ArrayMode,
    needs_length: bool,
    payload: int,
    tag: int,
    trace: Seq<Event>,
    w: World,
) -> Storage {
    let receiver = seen(trace, Ty::I64, w);
    let t1 = pair_stores(slot_address(trace, env.query_receiver, w), receiver, payload, tag);
    let metadata = seen(t1, Ty::I64, w);
    let asked = query_trace(env, s, mode, needs_length, payload, tag, trace, w);
    let status = wrap(Ty::I32, (w.observe)(asked.len() - 1));
    let t4 = read(asked, Ty::I32, metadata + 4, w);
    let t5 = read(t4, Ty::I32, metadata + 8, w);
    if status != env.abi.elements.query_ok {
        not_found(asked)
    } else if seen(asked, Ty::I32, w) != wrap(Ty::I32, mode_number(*env.abi, mode)) {
        not_found(t4)
    } else {
        Storage {
            ok: true,
            trace: read(t5, Ty::I64, metadata + 16, w),
            data: seen(t5, Ty::I64, w),
            count: seen(t4, Ty::I32, w),
            kind: if mode == ArrayMode::Int32 {
                1
            } else {
                2
            },
        }
    }
}

/// Asks the runtime for a typed array's storage: the address of the metadata,
/// the expected mode, and the answer.
fn ask_typed(code: &mut Code, env: &OptEnv<'_>, object: OptPair, mode: ArrayMode, needs_length: bool) -> (r: (usize, usize, usize))
    requires
        env.wf(old(code).len()),
        object.payload < old(code).len(),
        object.tag < old(code).len(),
        !env.int32_loop,
    ensures
        kept(*old(code), *final(code)),
        env.typed(*old(code)) && pair_held(*old(code), object) ==> steady(*old(code), *final(code)),
        final(code).kind(r.0 as int) == Known::Value(Ty::I64),
        final(code).kind(r.1 as int) == Known::Value(Ty::I32),
        final(code).kind(r.2 as int) == Known::Value(Ty::I32),
        r.0 < final(code).len() && r.1 < final(code).len() && r.2 < final(code).len(),
        old(code).len() < final(code).len(),
        forall|w: World|
            #![trigger final(code).at(w)]
            match old(code).at(w) {
                Status::Run(s) => {
                    let payload = s.vals[object.payload as int];
                    let tag = s.vals[object.tag as int];
                    let asked = query_trace(*env, s, mode, needs_length, payload, tag, s.trace, w);
                    let t1 = pair_stores(
                        slot_address(s.trace, env.query_receiver, w),
                        seen(s.trace, Ty::I64, w),
                        payload,
                        tag,
                    );
                    &&& runs_on(final(code).at(w), s, old(code).len(), s.vars, asked)
                    &&& value(final(code).at(w), r.0) == seen(t1, Ty::I64, w)
                    &&& value(final(code).at(w), r.1) == wrap(Ty::I32, mode_number(*env.abi, mode))
                    &&& value(final(code).at(w), r.2) == wrap(Ty::I32, (w.observe)(asked.len() - 1))
                },
                st => final(code).at(w) == st,
            },
{
    let receiver = code.slot_addr(env.query_receiver, 0);
    opt_store_at(code, receiver, 0, object, Ty::I64);
    let ghost c1 = *code;
    let metadata = code.slot_addr(env.query_metadata, 0);
    let size = code.iconst(Ty::I32, env.abi.elements.metadata_size as i64);
    code.store(Ty::I32, size, metadata, 0);
    let mut params: Vec<Ty> = Vec::new();
    params.push(Ty::I64);
    params.push(Ty::I64);
    params.push(Ty::I32);
    params.push(Ty::I32);
    params.push(Ty::I64);
    let signature = code.new_signature(params, Some(Ty::I32));
    let query = code.iconst(Ty::I64, env.abi.elements.array_query);
    let context = code.load(Ty::I64, env.frame, env.abi.ctx);
    let expected = code.iconst(
        Ty::I32,
        if mode == ArrayMode::Int32 {
            env.abi.elements.mode_int32
        } else {
            env.abi.elements.mode_float64
        },
    );
    let flags = code.iconst(
        Ty::I32,
        if needs_length {
            env.abi.elements.query_length
        } else {
            0
        },
    );
    let mut args: Vec<usize> = Vec::new();
    args.push(context);
    args.push(receiver);
    args.push(expected);
    args.push(flags);
    args.push(metadata);
    let ghost c2 = *code;
    let ghost list = args@;
    let status = code.call(signature, Ty::I32, query, args);
    proof {
        assert forall|w: World|
            #![trigger code.at(w)]
            match old(code).at(w) {
                Status::Run(s) => {
                    let payload = s.vals[object.payload as int];
                    let tag = s.vals[object.tag as int];
                    let asked = query_trace(*env, s, mode, needs_length, payload, tag, s.trace, w);
                    let t1 = pair_stores(
                        slot_address(s.trace, env.query_receiver, w),
                        seen(s.trace, Ty::I64, w),
                        payload,
                        tag,
                    );
                    &&& runs_on(code.at(w), s, old(code).len(), s.vars, asked)
                    &&& value(code.at(w), metadata) == seen(t1, Ty::I64, w)
                    &&& value(code.at(w), expected) == wrap(Ty::I32, mode_number(*env.abi, mode))
                    &&& value(code.at(w), status) == wrap(Ty::I32, (w.observe)(asked.len() - 1))
                },
                st => code.at(w) == st,
            } by {
            let a1 = c1.at(w);
            let a2 = c2.at(w);
            if let Status::Run(s) = old(code).at(w) {
                let q = a2->Run_0;
                assert(q.get(list) =~= seq![
                    q.vals[context as int],
                    q.vals[receiver as int],
                    q.vals[expected as int],
                    q.vals[flags as int],
                    q.vals[metadata as int],
                ]);
            }
        }
    }
    (metadata, expected, status)
}

/// Looks for a typed array with fixed storage of the given mode; control leaves
/// for `failed` where the value is none.
pub fn find_typed(
    code: &mut Code,
    env: &OptEnv<'_>,
    object: OptPair,
    mode: ArrayMode,
    needs_length: bool,
    failed: usize,
) -> (r: StorageIds)
    requires
        env.wf(old(code).len()),
        object.payload < old(code).len(),
        object.tag < old(code).len(),
        failed < old(code).len(),
        !env.int32_loop,
    ensures
        kept(*old(code), *final(code)),
        env.typed(*old(code)) && pair_held(*old(code), object) && old(code).blocked(failed)
            ==> steady(*old(code), *final(code)),
        storage_held(*final(code), r),
        storage_known(r, final(code).len()),
        old(code).len() < final(code).len(),
        forall|w: World|
            #![trigger final(code).at(w)]
            match old(code).at(w) {
                Status::Run(s) => finds(
                    final(code).at(w),
                    s,
                    old(code).len(),
                    failed,
                    typed_of(
                        *env,
                        s,
                        mode,
                        needs_length,
                        s.vals[object.payload as int],
                        s.vals[object.tag as int],
                        s.trace,
                        w,
                    ),
                    r,
                ),
                st => final(code).at(w) == st,
            },
{
    let (metadata, expected, status) = ask_typed(code, env, object, mode, needs_length);
    let ghost c1 = *code;
    let accepted = code.compare_imm(IntCc::Equal, Ty::I32, status, env.abi.elements.query_ok);
    require(code, accepted, failed);
    let live_mode = code.load(Ty::I32, metadata, 4);
    let mode_matches = code.compare(IntCc::Equal, Ty::I32, live_mode, expected);
    require(code, mode_matches, failed);
    let count = code.load(Ty::I32, metadata, 8);
    let data = code.load(Ty::I64, metadata, 16);
    let kind = code.iconst(
        Ty::I8,
        if mode == ArrayMode::Int32 {
            1
        } else {
            2
        },
    );
    let r = StorageIds { data, count, kind };
    proof {
        assert forall|w: World|
            #![trigger code.at(w)]
            match old(code).at(w) {
                Status::Run(s) => finds(
                    code.at(w),
                    s,
                    old(code).len(),
                    failed,
                    typed_of(
                        *env,
                        s,
                        mode,
                        needs_length,
                        s.vals[object.payload as int],
                        s.vals[object.tag as int],
                        s.trace,
                        w,
                    ),
                    r,
                ),
                st => code.at(w) == st,
            } by {
            let a1 = c1.at(w);
        }
    }
    r
}

/// The kind of array that a class number stands for.
pub open spec fn kind_of(abi: RuntimeAbi, class: int) -> Option<int> {
    if class == abi.elements.array_class_id {
        Some(0)
    } else if class == abi.elements.int32_array_class_id {
        Some(1)
    } else if class == abi.elements.float64_array_class_id {
        Some(2)
    } else {
        None
    }
}

/// The kinds that a site admits: all of them, or the one that was observed.
pub open spec fn kind_admitted(expected: Option<ArrayMode>, kind: int) -> bool {
    match expected {
        None => true,
        Some(ArrayMode::Packed) => kind == 0,
        Some(ArrayMode::Int32) => kind == 1,
        Some(ArrayMode::Float64) => kind == 2,
        Some(ArrayMode::Generic) => false,
    }
}

/// A typed array whose buffer is fixed and attached, and not immutable where it
/// is written.
pub open spec fn typed_backing(abi: RuntimeAbi, writes: bool, payload: int, trace: Seq<Event>, w: World) -> Storage {
    let typed = seen(trace, Ty::I64, w);
    let t1 = read(trace, Ty::I64, payload + abi.elements.typed_array_ptr, w);
    let t2 = read(t1, Ty::I8, typed + abi.elements.typed_array_track_rab, w);
    let buffer = seen(t2, Ty::I64, w);
    let t3 = read(t2, Ty::I64, typed + abi.elements.typed_array_buffer, w);
    let array_buffer = seen(t3, Ty::I64, w);
    let t4 = read(t3, Ty::I64, buffer + abi.elements.object_union, w);
    let t5 = read(t4, Ty::I8, array_buffer + abi.elements.array_buffer_detached, w);
    let t6 = read(t5, Ty::I8, array_buffer + abi.elements.array_buffer_immutable, w);
    if typed == 0 {
        not_found(t1)
    } else if seen(t1, Ty::I8, w) != 0 {
        not_found(t2)
    } else if buffer == 0 {
        not_found(t3)
    } else if array_buffer == 0 {
        not_found(t4)
    } else if writes {
        Storage { ok: seen(t4, Ty::I8, w) == 0 && seen(t5, Ty::I8, w) == 0, trace: t6, data: 0, count: 0, kind: 0 }
    } else {
        Storage { ok: seen(t4, Ty::I8, w) == 0, trace: t5, data: 0, count: 0, kind: 0 }
    }
}

/// An array of an admitted kind, with the element in bounds.
pub open spec fn storage_of(
    abi: RuntimeAbi,
    expected: Option<ArrayMode>,
    writes: bool,
    payload: int,
    index: int,
    trace: Seq<Event>,
    w: World,
) -> Storage {
    let t1 = read(trace, Ty::I8, payload + abi.elements.object_flags, w);
    let t2 = read(t1, Ty::I16, payload + abi.elements.object_class_id, w);
    let kind = kind_of(abi, class_of(t1, w));
    let backing = typed_backing(abi, writes, payload, t2, w);
    let t3 = if kind == Some(0int) {
        t2
    } else {
        backing.trace
    };
    let count = seen(t3, Ty::I32, w);
    let t4 = read(t3, Ty::I32, payload + abi.elements.array_count, w);
    let data = seen(t4, Ty::I64, w);
    let t5 = read(t4, Ty::I64, payload + abi.elements.array_data, w);
    if index < 0 {
        not_found(trace)
    } else if !is_fast(abi, trace, w) {
        not_found(t1)
    } else if kind is None || !kind_admitted(expected, kind->Some_0) {
        not_found(t2)
    } else if kind != Some(0int) && !backing.ok {
        not_found(backing.trace)
    } else if unsigned(Ty::I32, index) >= unsigned(Ty::I32, count) {
        not_found(t4)
    } else {
        Storage { ok: data != 0, trace: t5, data, count, kind: kind->Some_0 }
    }
}

/// Checks the buffer of a typed array; control leaves for `failed` where it
/// cannot be used.
fn check_backing(code: &mut Code, abi: &RuntimeAbi, writes: bool, payload: usize, failed: usize)
    requires
        payload < old(code).len(),
        failed < old(code).len(),
    ensures
        kept(*old(code), *final(code)),
        old(code).holds(payload, Ty::I64) && old(code).blocked(failed) ==> steady(*old(code), *final(code)),
        old(code).len() < final(code).len(),
        forall|w: World|
            #![trigger final(code).at(w)]
            match old(code).at(w) {
                Status::Run(s) => {
                    let b = typed_backing(*abi, writes, s.vals[payload as int], s.trace, w);
                    steers(final(code).at(w), s, old(code).len(), failed, b.ok, s.vars, b.trace)
                },
                st => final(code).at(w) == st,
            },
{
    broadcast use group_truths;

    let typed = code.load(Ty::I64, payload, abi.elements.typed_array_ptr);
    let has_typed = code.compare_imm(IntCc::NotEqual, Ty::I64, typed, 0);
    require(code, has_typed, failed);
    let tracks = code.load(Ty::I8, typed, abi.elements.typed_array_track_rab);
    let stable = code.compare_imm(IntCc::Equal, Ty::I8, tracks, 0);
    require(code, stable, failed);
    let buffer = code.load(Ty::I64, typed, abi.elements.typed_array_buffer);
    let has_buffer = code.compare_imm(IntCc::NotEqual, Ty::I64, buffer, 0);
    require(code, has_buffer, failed);
    let ghost c1 = *code;
    let array_buffer = code.load(Ty::I64, buffer, abi.elements.object_union);
    let has_array_buffer = code.compare_imm(IntCc::NotEqual, Ty::I64, array_buffer, 0);
    require(code, has_array_buffer, failed);
    let detached = code.load(Ty::I8, array_buffer, abi.elements.array_buffer_detached);
    let usable: usize = if writes {
        let immutable = code.load(Ty::I8, array_buffer, abi.elements.array_buffer_immutable);
        let attached = code.compare_imm(IntCc::Equal, Ty::I8, detached, 0);
        let mutable = code.compare_imm(IntCc::Equal, Ty::I8, immutable, 0);
        code.binary(BinaryOp::And, Ty::I8, attached, mutable)
    } else {
        code.compare_imm(IntCc::Equal, Ty::I8, detached, 0)
    };
    let ghost c2 = *code;
    require(code, usable, failed);
    proof {
        assert forall|w: World|
            #![trigger code.at(w)]
            match old(code).at(w) {
                Status::Run(s) => {
                    let b = typed_backing(*abi, writes, s.vals[payload as int], s.trace, w);
                    steers(code.at(w), s, old(code).len(), failed, b.ok, s.vars, b.trace)
                },
                st => code.at(w) == st,
            } by {
            let a1 = c1.at(w);
            let a2 = c2.at(w);
        }
    }
}

/// The kind of an object's class as a value, and whether the site admits it.
fn classify(code: &mut Code, abi: &RuntimeAbi, expected: Option<ArrayMode>, class: usize) -> (r: (usize, usize))
    requires
        class < old(code).len(),
    ensures
        kept(*old(code), *final(code)),
        old(code).holds(class, Ty::I64) ==> steady(*old(code), *final(code)),
        final(code).kind(r.0 as int) == Known::Value(Ty::I8),
        final(code).kind(r.1 as int) == Known::Value(Ty::I8),
        r.0 < final(code).len() && r.1 < final(code).len(),
        old(code).len() < final(code).len(),
        forall|w: World|
            #![trigger final(code).at(w)]
            quiet(old(code).at(w), final(code).at(w), old(code).len()) && (old(code).at(w) matches Status::Run(s) ==> {
                let kind = kind_of(*abi, s.vals[class as int]);
                &&& value(final(code).at(w), r.1) == truth(kind is Some && kind_admitted(expected, kind->Some_0))
                &&& kind is Some ==> value(final(code).at(w), r.0) == kind->Some_0
            }),
{
    broadcast use group_truths;

    let is_packed = code.compare_imm(IntCc::Equal, Ty::I64, class, abi.elements.array_class_id);
    let is_int32 = code.compare_imm(IntCc::Equal, Ty::I64, class, abi.elements.int32_array_class_id);
    let is_float64 = code.compare_imm(IntCc::Equal, Ty::I64, class, abi.elements.float64_array_class_id);
    let zero = code.iconst(Ty::I8, 0);
    let one = code.iconst(Ty::I8, 1);
    let two = code.iconst(Ty::I8, 2);
    let typed = code.select(Ty::I8, is_int32, one, two);
    let kind = code.select(Ty::I8, is_packed, zero, typed);
    let not_packed = code.binary_imm(BinaryOp::Xor, Ty::I8, is_packed, 1);
    let not_int32 = code.binary_imm(BinaryOp::Xor, Ty::I8, is_int32, 1);
    let ghost c1 = *code;
    let allowed: usize = match expected {
        None => {
            let array = code.binary(BinaryOp::Or, Ty::I8, is_packed, is_int32);
            code.binary(BinaryOp::Or, Ty::I8, array, is_float64)
        },
        Some(ArrayMode::Packed) => is_packed,
        Some(ArrayMode::Int32) => code.binary(BinaryOp::And, Ty::I8, not_packed, is_int32),
        Some(ArrayMode::Float64) => {
            let other = code.binary(BinaryOp::And, Ty::I8, not_packed, not_int32);
            code.binary(BinaryOp::And, Ty::I8, other, is_float64)
        },
        Some(ArrayMode::Generic) => zero,
    };
    proof {
        assert forall|w: World|
            #![trigger code.at(w)]
            quiet(old(code).at(w), code.at(w), old(code).len()) && (old(code).at(w) matches Status::Run(s) ==> {
                let k = kind_of(*abi, s.vals[class as int]);
                &&& value(code.at(w), allowed) == truth(k is Some && kind_admitted(expected, k->Some_0))
                &&& k is Some ==> value(code.at(w), kind) == k->Some_0
            }) by {
            let a1 = c1.at(w);
        }
    }
    (kind, allowed)
}

/// Looks for an array of an admitted kind with the element in bounds; control
/// leaves for `failed` where there is none.
#[verifier::rlimit(30)]
pub fn find_storage(
    code: &mut Code,
    abi: &RuntimeAbi,
    expected: Option<ArrayMode>,
    writes: bool,
    payload: usize,
    index: usize,
    failed: usize,
) -> (r: StorageIds)
    requires
        payload < old(code).len(),
        index < old(code).len(),
        failed < old(code).len(),
    ensures
        kept(*old(code), *final(code)),
        old(code).holds(payload, Ty::I64) && old(code).holds(index, Ty::I32) && old(code).blocked(failed)
            ==> steady(*old(code), *final(code)),
        storage_held(*final(code), r),
        storage_known(r, final(code).len()),
        old(code).len() < final(code).len(),
        forall|w: World|
            #![trigger final(code).at(w)]
            match old(code).at(w) {
                Status::Run(s) => finds(
                    final(code).at(w),
                    s,
                    old(code).len(),
                    failed,
                    storage_of(*abi, expected, writes, s.vals[payload as int], s.vals[index as int], s.trace, w),
                    r,
                ),
                st => final(code).at(w) == st,
            },
{
    let non_negative = code.compare_imm(IntCc::SignedGreaterThanOrEqual, Ty::I32, index, 0);
    require(code, non_negative, failed);
    let ghost c1 = *code;
    let fast = fast_flag(code, abi, payload);
    let ghost c2 = *code;
    require(code, fast, failed);
    let ghost c3 = *code;
    let class = class_number(code, abi, payload);
    let ghost c4 = *code;
    let (kind, allowed) = classify(code, abi, expected, class);
    let ghost c5 = *code;
    require(code, allowed, failed);
    let typed = code.new_block();
    let ready = code.new_block();
    code.branch(kind, typed, ready);
    let _ = code.switch_to(typed);
    let ghost c6 = *code;
    check_backing(code, abi, writes, payload, failed);
    let ghost c7 = *code;
    code.jump(ready);
    let _ = code.switch_to(ready);
    let ghost c8 = *code;
    let count = code.load(Ty::I32, payload, abi.elements.array_count);
    let in_bounds = code.compare(IntCc::UnsignedLessThan, Ty::I32, index, count);
    require(code, in_bounds, failed);
    let data = code.load(Ty::I64, payload, abi.elements.array_data);
    let has_data = code.compare_imm(IntCc::NotEqual, Ty::I64, data, 0);
    require(code, has_data, failed);
    let r = StorageIds { data, count, kind };
    proof {
        assert forall|w: World|
            #![trigger code.at(w)]
            match old(code).at(w) {
                Status::Run(s) => finds(
                    code.at(w),
                    s,
                    old(code).len(),
                    failed,
                    storage_of(*abi, expected, writes, s.vals[payload as int], s.vals[index as int], s.trace, w),
                    r,
                ),
                st => code.at(w) == st,
            } by {
            waits_for_known_blocks(old(code).insts@, w);
            let a1 = c1.at(w);
            let a2 = c2.at(w);
            let a3 = c3.at(w);
            let a4 = c4.at(w);
            let a5 = c5.at(w);
            let a6 = c6.at(w);
            let a7 = c7.at(w);
            let a8 = c8.at(w);
        }
    }
    r
}

pub open spec fn address_of(data: int, index: int, stride: int) -> int {
    wrap(Ty::I64, data + wrap(Ty::I64, unsigned(Ty::I32, index) * stride))
}

/// What a load of an element found.
pub struct Element {
    pub ok: bool,
    pub trace: Seq<Event>,
    pub payload: int,
    pub tag: int,
}

/// The element, by the kind of the storage. A tagged element must be a
/// primitive: a copy of a heap reference would own nothing.
pub open spec fn element_of(kind: int, data: int, index: int, trace: Seq<Event>, w: World) -> Element {
    if kind == 0 {
        let address = address_of(data, index, 16);
        let payload = seen(trace, Ty::I64, w);
        let t1 = read(trace, Ty::I64, address, w);
        let tag = seen(t1, Ty::I64, w);
        Element { ok: tag >= 0, trace: read(t1, Ty::I64, address + 8, w), payload, tag }
    } else if kind == 1 {
        Element {
            ok: true,
            trace: read(trace, Ty::I32, address_of(data, index, 4), w),
            payload: seen(trace, Ty::I32, w),
            tag: JS_TAG_INT as int,
        }
    } else {
        Element {
            ok: true,
            trace: read(trace, Ty::F64, address_of(data, index, 8), w),
            payload: seen(trace, Ty::F64, w),
            tag: JS_TAG_FLOAT64 as int,
        }
    }
}

/// Loads an element; control leaves for `failed` where it is a heap reference.
#[verifier::rlimit(60)]
pub fn load_element(code: &mut Code, storage: StorageIds, index: usize, failed: usize) -> (r: OptPair)
    requires
        storage_known(storage, old(code).len()),
        index < old(code).len(),
        failed < old(code).len(),
    ensures
        kept(*old(code), *final(code)),
        storage_held(*old(code), storage) && old(code).holds(index, Ty::I32) && old(code).blocked(failed)
            ==> steady(*old(code), *final(code)),
        pair_held(*final(code), r),
        r.payload < final(code).len(),
        r.tag < final(code).len(),
        old(code).len() < final(code).len(),
        forall|w: World|
            #![trigger final(code).at(w)]
            match old(code).at(w) {
                Status::Run(s) => {
                    let e = element_of(
                        s.vals[storage.kind as int],
                        s.vals[storage.data as int],
                        s.vals[index as int],
                        s.trace,
                        w,
                    );
                    &&& steers(final(code).at(w), s, old(code).len(), failed, e.ok, s.vars, e.trace)
                    &&& e.ok ==> value(final(code).at(w), r.payload) == e.payload && value(final(code).at(w), r.tag) == e.tag
                },
                st => final(code).at(w) == st,
            },
{
    let packed_kind = code.compare_imm(IntCc::Equal, Ty::I8, storage.kind, 0);
    let packed = code.new_block();
    let typed = code.new_block();
    let integers = code.new_block();
    let doubles = code.new_block();
    let done = code.new_block();
    code.branch(packed_kind, packed, typed);
    let _ = code.switch_to(packed);
    let ghost c1 = *code;
    let address = element_address(code, storage.data, index, 16);
    let ghost c2 = *code;
    let pair = opt_load(code, address, 0);
    let primitive = code.compare_imm(IntCc::SignedGreaterThanOrEqual, Ty::I64, pair.tag, 0);
    require(code, primitive, failed);
    code.jump_pair(done, pair.payload, pair.tag);
    let _ = code.switch_to(typed);
    let int_kind = code.compare_imm(IntCc::Equal, Ty::I8, storage.kind, 1);
    code.branch(int_kind, integers, doubles);
    let _ = code.switch_to(integers);
    let ghost c3 = *code;
    let int_address = element_address(code, storage.data, index, 4);
    let ghost c4 = *code;
    let integer = code.load(Ty::I32, int_address, 0);
    let int_payload = code.convert(ConvertOp::SignExtend, Ty::I32, Ty::I64, integer);
    let int_tag = code.iconst(Ty::I64, JS_TAG_INT as i64);
    code.jump_pair(done, int_payload, int_tag);
    let _ = code.switch_to(doubles);
    let ghost c5 = *code;
    let double_address = element_address(code, storage.data, index, 8);
    let ghost c6 = *code;
    let double = code.load(Ty::F64, double_address, 0);
    let double_payload = code.convert(ConvertOp::Bitcast, Ty::F64, Ty::I64, double);
    let double_tag = code.iconst(Ty::I64, JS_TAG_FLOAT64 as i64);
    code.jump_pair(done, double_payload, double_tag);
    let _ = code.switch_to(done);
    let ghost c7 = *code;
    let payload = code.param(0, Ty::I64);
    let tag = code.param(1, Ty::I64);
    let r = OptPair { payload, tag };
    proof {
        assert forall|w: World|
            #![trigger code.at(w)]
            match old(code).at(w) {
                Status::Run(s) => {
                    let e = element_of(
                        s.vals[storage.kind as int],
                        s.vals[storage.data as int],
                        s.vals[index as int],
                        s.trace,
                        w,
                    );
                    &&& steers(code.at(w), s, old(code).len(), failed, e.ok, s.vars, e.trace)
                    &&& e.ok ==> value(code.at(w), r.payload) == e.payload && value(code.at(w), r.tag) == e.tag
                },
                st => code.at(w) == st,
            } by {
            waits_for_known_blocks(old(code).insts@, w);
            let a1 = c1.at(w);
            let a2 = c2.at(w);
            let a3 = c3.at(w);
            let a4 = c4.at(w);
            let a5 = c5.at(w);
            let a6 = c6.at(w);
            let a7 = c7.at(w);
        }
    }
    r
}

/// Which values may be written into storage of a kind without a conversion
/// that could run code: any primitive, an Int32, or a number.
pub open spec fn storable(kind: int, tag: int) -> bool {
    if kind == 0 {
        tag >= 0
    } else if kind == 1 {
        tag == JS_TAG_INT
    } else {
        tag == JS_TAG_INT || tag == JS_TAG_FLOAT64
    }
}

/// Writes an element. A tagged element must replace a primitive: the reference
/// that another one held would be lost.
pub open spec fn element_written(
    kind: int,
    data: int,
    index: int,
    payload: int,
    tag: int,
    trace: Seq<Event>,
    w: World,
) -> Element {
    if !storable(kind, tag) {
        Element { ok: false, trace, payload: 0, tag: 0 }
    } else if kind == 0 {
        let address = address_of(data, index, 16);
        let t1 = read(trace, Ty::I64, address + 8, w);
        if seen(trace, Ty::I64, w) >= 0 {
            Element { ok: true, trace: pair_stores(t1, address, payload, tag), payload: 0, tag: 0 }
        } else {
            Element { ok: false, trace: t1, payload: 0, tag: 0 }
        }
    } else if kind == 1 {
        Element {
            ok: true,
            trace: wrote(trace, Ty::I32, address_of(data, index, 4), wrap(Ty::I32, payload)),
            payload: 0,
            tag: 0,
        }
    } else {
        Element {
            ok: true,
            trace: wrote(trace, Ty::F64, address_of(data, index, 8), number_of(payload, tag, w)),
            payload: 0,
            tag: 0,
        }
    }
}

/// Whether a value may be written into storage of a kind.
fn storable_flag(code: &mut Code, kind: usize, tag: usize) -> (r: usize)
    requires
        kind < old(code).len(),
        tag < old(code).len(),
    ensures
        kept(*old(code), *final(code)),
        old(code).holds(kind, Ty::I8) && old(code).holds(tag, Ty::I64) ==> steady(*old(code), *final(code)),
        final(code).kind(r as int) == Known::Value(Ty::I8),
        r < final(code).len(),
        old(code).len() < final(code).len(),
        forall|w: World|
            #![trigger final(code).at(w)]
            quiet(old(code).at(w), final(code).at(w), old(code).len()) && (old(code).at(w) matches Status::Run(s) ==> value(
                final(code).at(w),
                r,
            ) == truth(storable(s.vals[kind as int], s.vals[tag as int]))),
{
    broadcast use group_truths;

    let primitive = code.compare_imm(IntCc::SignedGreaterThanOrEqual, Ty::I64, tag, 0);
    let integer = opt_tag_is(code, tag, JS_TAG_INT);
    let double = opt_tag_is(code, tag, JS_TAG_FLOAT64);
    let number = code.binary(BinaryOp::Or, Ty::I8, integer, double);
    let is_int = code.compare_imm(IntCc::Equal, Ty::I8, kind, 1);
    let typed = code.select(Ty::I8, is_int, integer, number);
    code.select(Ty::I8, kind, typed, primitive)
}

/// Writes an element; control leaves for `failed` before anything is written
/// where that would lose a reference or need a conversion.
#[verifier::rlimit(60)]
pub fn store_element(code: &mut Code, storage: StorageIds, index: usize, pair: OptPair, failed: usize)
    requires
        storage_known(storage, old(code).len()),
        index < old(code).len(),
        failed < old(code).len(),
        pair.payload < old(code).len(),
        pair.tag < old(code).len(),
    ensures
        kept(*old(code), *final(code)),
        storage_held(*old(code), storage) && old(code).holds(index, Ty::I32) && pair_held(*old(code), pair)
            && old(code).blocked(failed)
            ==> steady(*old(code), *final(code)),
        old(code).len() < final(code).len(),
        forall|w: World|
            #![trigger final(code).at(w)]
            match old(code).at(w) {
                Status::Run(s) => {
                    let e = element_written(
                        s.vals[storage.kind as int],
                        s.vals[storage.data as int],
                        s.vals[index as int],
                        s.vals[pair.payload as int],
                        s.vals[pair.tag as int],
                        s.trace,
                        w,
                    );
                    steers(final(code).at(w), s, old(code).len(), failed, e.ok, s.vars, e.trace)
                },
                st => final(code).at(w) == st,
            },
{
    let storable_value = storable_flag(code, storage.kind, pair.tag);
    let ghost c0 = *code;
    require(code, storable_value, failed);
    let packed_kind = code.compare_imm(IntCc::Equal, Ty::I8, storage.kind, 0);
    let packed = code.new_block();
    let typed = code.new_block();
    let integers = code.new_block();
    let doubles = code.new_block();
    let done = code.new_block();
    code.branch(packed_kind, packed, typed);
    let _ = code.switch_to(packed);
    let ghost c1 = *code;
    let address = element_address(code, storage.data, index, 16);
    let ghost c2 = *code;
    let old_tag = code.load(Ty::I64, address, 8);
    let old_primitive = code.compare_imm(IntCc::SignedGreaterThanOrEqual, Ty::I64, old_tag, 0);
    require(code, old_primitive, failed);
    opt_store_at(code, address, 0, pair, Ty::I64);
    let ghost c3 = *code;
    code.jump(done);
    let _ = code.switch_to(typed);
    let int_kind = code.compare_imm(IntCc::Equal, Ty::I8, storage.kind, 1);
    code.branch(int_kind, integers, doubles);
    let _ = code.switch_to(integers);
    let ghost c4 = *code;
    let int_address = element_address(code, storage.data, index, 4);
    let ghost c5 = *code;
    let integer = code.convert(ConvertOp::Reduce, Ty::I64, Ty::I32, pair.payload);
    code.store(Ty::I32, integer, int_address, 0);
    code.jump(done);
    let _ = code.switch_to(doubles);
    let ghost c6 = *code;
    let double_address = element_address(code, storage.data, index, 8);
    let ghost c7 = *code;
    let double = opt_f64(code, pair);
    let ghost c8 = *code;
    code.store(Ty::F64, double, double_address, 0);
    code.jump(done);
    let _ = code.switch_to(done);
    proof {
        assert forall|w: World|
            #![trigger code.at(w)]
            match old(code).at(w) {
                Status::Run(s) => {
                    let e = element_written(
                        s.vals[storage.kind as int],
                        s.vals[storage.data as int],
                        s.vals[index as int],
                        s.vals[pair.payload as int],
                        s.vals[pair.tag as int],
                        s.trace,
                        w,
                    );
                    steers(code.at(w), s, old(code).len(), failed, e.ok, s.vars, e.trace)
                },
                st => code.at(w) == st,
            } by {
            waits_for_known_blocks(old(code).insts@, w);
            let a0 = c0.at(w);
            let a1 = c1.at(w);
            let a2 = c2.at(w);
            let a3 = c3.at(w);
            let a4 = c4.at(w);
            let a5 = c5.at(w);
            let a6 = c6.at(w);
            let a7 = c7.at(w);
            let a8 = c8.at(w);
        }
    }
}

/// A store that fails its checks writes nothing.
pub proof fn failed_store_writes_nothing(
    kind: int,
    data: int,
    index: int,
    payload: int,
    tag: int,
    trace: Seq<Event>,
    w: World,
    i: int,
)
    requires
        !element_written(kind, data, index, payload, tag, trace, w).ok,
        trace.len() <= i < element_written(kind, data, index, payload, tag, trace, w).trace.len(),
    ensures
        element_written(kind, data, index, payload, tag, trace, w).trace[i] is Load,
{
}

} // verus!
