//! Which memory an access to an array's element touches, and what it finds there.
use crate::checks::seen;
use crate::code::Event;
use crate::code::State;
use crate::code::Status;
use crate::code::Ty;
use crate::code::World;
use crate::code::wrap;
use crate::element_access::kind_number;
use crate::element_access::loaded_element;
use crate::element_access::put_element;
use crate::element_access::storage_for;
use crate::element_access::typed_written;
use crate::element_code::StorageIds;
use crate::element_code::address_of;
use crate::element_code::element_of;
use crate::element_code::element_written;
use crate::element_code::kind_admitted;
use crate::element_code::kind_of;
use crate::element_code::packed_of;
use crate::element_code::storable;
use crate::element_code::storage_of;
use crate::element_code::typed_backing;
use crate::element_code::typed_of;
use crate::elements::GuardedElementSource;
use crate::elements::metadata_of;
use crate::elements::revalidation_post;
use crate::elements::source_argument;
use crate::frame::OptEnv;
use crate::frame::RuntimeAbi;
use crate::number_laws::is_int32;
use crate::provenance::OptProvenance;
use crate::runtime::ArrayMode;
use vstd::prelude::*;

verus! {

/// How many bytes a value of the type takes in memory.
pub open spec fn size_of(ty: Ty) -> int {
    match ty {
        Ty::I8 => 1,
        Ty::I16 => 2,
        Ty::I32 => 4,
        Ty::I64 | Ty::F64 => 8,
    }
}

/// The first byte that an event reads or writes, and how many it takes.
pub open spec fn place(event: Event) -> Option<(int, int)> {
    match event {
        Event::Load { ty, address, .. } => Some((address, size_of(ty))),
        Event::Store { ty, address, .. } => Some((address, size_of(ty))),
        _ => None,
    }
}

/// The event reads or writes nothing but bytes from `from` up to `to`.
pub open spec fn within(event: Event, from: int, to: int) -> bool {
    place(event) matches Some((first, size)) && from <= first && first + size <= to
}

/// How many bytes the events from `k` on that read memory take together.
pub open spec fn bytes_read(trace: Seq<Event>, k: int) -> int
    decreases trace.len() - k,
{
    if k >= trace.len() {
        0
    } else {
        bytes_read(trace, k + 1) + match trace[k] {
            Event::Load { ty, .. } => size_of(ty),
            _ => 0,
        }
    }
}

/// An array's elements lie in the address space, one behind the other.
pub open spec fn addressable(data: int, count: int, width: int) -> bool {
    0 <= data && 0 <= count <= 0x7fff_ffff && data + count * width < 0x8000_0000_0000_0000
}

proof fn address_is_exact(data: int, index: int, count: int, width: int)
    requires
        addressable(data, count, width),
        0 <= index < count,
        1 <= width <= 16,
    ensures
        address_of(data, index, width) == data + index * width,
        0 <= index * width,
        index * width + width <= count * width,
{
    assert(0 <= index * width && index * width + width <= count * width) by (nonlinear_arith)
        requires
            0 <= index < count,
            1 <= width,
    ;
    crate::lower_values::element_address_is_exact(data, index, width);
}

/// A load reads the bytes of its element, all of them and no others: it begins at
/// the element, which stands behind as many elements as its index says, each as
/// wide as what is read. It writes nothing.
pub proof fn loads_read_their_element(kind: int, data: int, index: int, count: int, trace: Seq<Event>, w: World, width: int)
    requires
        0 <= kind <= 2,
        0 <= index < count,
        width == bytes_read(element_of(kind, data, index, trace, w).trace, trace.len() as int),
        addressable(data, count, 16),
    ensures
        ({
            let after = element_of(kind, data, index, trace, w).trace;
            &&& trace.len() < after.len()
            &&& place(after[trace.len() as int]) matches Some((first, size)) && first == data + index * width
            &&& forall|k: int|
                trace.len() <= k < after.len() ==> (#[trigger] after[k]) is Load && within(
                    after[k],
                    data + index * width,
                    data + (index + 1) * width,
                )
            &&& forall|k: int| 0 <= k < trace.len() ==> #[trigger] after[k] == trace[k]
            &&& width == (if kind == 0 { 16int } else if kind == 1 { 4 } else { 8 })
        }),
{
    reveal_with_fuel(bytes_read, 4);
    assert(count * 4 <= count * 16 && count * 8 <= count * 16);
    address_is_exact(data, index, count, 16);
    address_is_exact(data, index, count, 8);
    address_is_exact(data, index, count, 4);
}

/// Two elements have no byte in common.
pub proof fn elements_do_not_overlap(kind: int, data: int, i: int, j: int, count: int, trace: Seq<Event>, w: World, k: int, n: int)
    requires
        0 <= kind <= 2,
        0 <= i < j < count,
        addressable(data, count, 16),
        trace.len() <= k < element_of(kind, data, i, trace, w).trace.len(),
        trace.len() <= n < element_of(kind, data, j, trace, w).trace.len(),
    ensures
        place(element_of(kind, data, i, trace, w).trace[k]) matches Some((first, size)) && (place(
            element_of(kind, data, j, trace, w).trace[n],
        ) matches Some((other, _)) && first + size <= other),
{
    reveal_with_fuel(bytes_read, 4);
    let width = bytes_read(element_of(kind, data, i, trace, w).trace, trace.len() as int);
    loads_read_their_element(kind, data, i, count, trace, w, width);
    loads_read_their_element(kind, data, j, count, trace, w, width);
    assert((i + 1) * width <= j * width) by (nonlinear_arith)
        requires
            i + 1 <= j,
            width >= 0,
    ;
}

/// A store writes where a load of the same element reads, as values of the same
/// types, and nowhere else.
pub proof fn stores_write_where_loads_read(
    kind: int,
    data: int,
    index: int,
    payload: int,
    tag: int,
    trace: Seq<Event>,
    before: Seq<Event>,
    w: World,
)
    requires
        0 <= kind <= 2,
        element_written(kind, data, index, payload, tag, trace, w).ok,
    ensures
        ({
            let written = element_written(kind, data, index, payload, tag, trace, w).trace;
            let read = element_of(kind, data, index, before, w).trace;
            let n = read.len() - before.len();
            let first = written.len() - n;
            &&& n >= 1 && first >= trace.len()
            &&& forall|k: int|
                0 <= k < n ==> (#[trigger] written[first + k]) is Store && place(written[first + k]) == place(
                    read[before.len() + k],
                )
            &&& forall|k: int| trace.len() <= k < first ==> (#[trigger] written[k]) is Load
        }),
{
}

/// What was stored is what a load gives back: a tagged value as it is, an Int32 as
/// one, and a double as one. An Int32 in an array of doubles comes back as the
/// double that it is.
pub proof fn stores_are_read_back(
    kind: int,
    data: int,
    index: int,
    payload: int,
    tag: int,
    trace: Seq<Event>,
    before: Seq<Event>,
    w: World,
)
    requires
        0 <= kind <= 2,
        element_written(kind, data, index, payload, tag, trace, w).ok,
        tag == 0 ==> is_int32(payload),
        -0x8000_0000_0000_0000 <= payload <= 0x7fff_ffff_ffff_ffff,
        -0x8000_0000_0000_0000 <= tag <= 0x7fff_ffff_ffff_ffff,
        -0x8000_0000_0000_0000 <= (w.float_of)(payload) <= 0x7fff_ffff_ffff_ffff,
        ({
            let written = element_written(kind, data, index, payload, tag, trace, w).trace;
            let read = element_of(kind, data, index, before, w).trace;
            let n = read.len() - before.len();
            forall|k: int|
                0 <= k < n ==> (w.observe)(before.len() + k) == (#[trigger] written[written.len() - n + k])->Store_value
        }),
    ensures
        ({
            let e = element_of(kind, data, index, before, w);
            &&& e.ok
            &&& kind == 0 || tag == 0 && kind == 1 || tag == 8 ==> e.payload == payload && e.tag == tag
            &&& kind == 2 && tag == 0 ==> e.payload == (w.float_of)(payload) && e.tag == 8
        }),
{
    let written = element_written(kind, data, index, payload, tag, trace, w).trace;
    let read = element_of(kind, data, index, before, w).trace;
    let n = read.len() - before.len();
    assert((w.observe)(before.len() + 0int) == written[written.len() - n + 0]->Store_value);
    if kind == 0 {
        assert((w.observe)(before.len() + 1int) == written[written.len() - n + 1]->Store_value);
    }
}

/// What may be stored without running code: any value but a reference into tagged
/// elements, an Int32 into integers, a number into doubles.
pub proof fn stores_convert_nothing_that_runs_code(tag: int)
    ensures
        storable(0, tag) <==> tag >= 0,
        storable(1, tag) <==> tag == 0,
        storable(2, tag) <==> tag == 0 || tag == 8,
{
}

/// A store over tagged elements happens only where the value and the element that
/// it replaces are no references.
pub proof fn references_are_not_overwritten(data: int, index: int, payload: int, tag: int, trace: Seq<Event>, w: World)
    ensures
        element_written(0, data, index, payload, tag, trace, w).ok <==> tag >= 0 && seen(trace, Ty::I64, w) >= 0,
        element_of(0, data, index, trace, w).ok <==> element_of(0, data, index, trace, w).tag >= 0,
        element_of(1, data, index, trace, w).ok && element_of(1, data, index, trace, w).tag == 0,
        element_of(2, data, index, trace, w).ok && element_of(2, data, index, trace, w).tag == 8,
{
}

/// The kinds and the modes of arrays correspond: a site admits the one that it
/// expects, and every one where it expects none.
pub proof fn modes_are_kinds(abi: RuntimeAbi, mode: ArrayMode, kind: int)
    requires
        0 <= kind <= 2,
    ensures
        kind_admitted(None, kind),
        kind_admitted(Some(mode), kind) <==> kind == kind_number(mode),
        kind_number(ArrayMode::Packed) == 0,
        kind_number(ArrayMode::Int32) == 1,
        kind_number(ArrayMode::Float64) == 2,
        kind_of(abi, abi.elements.array_class_id as int) == Some(0int),
        abi.elements.array_class_id != abi.elements.int32_array_class_id ==> kind_of(
            abi,
            abi.elements.int32_array_class_id as int,
        ) == Some(1int),
        abi.elements.array_class_id != abi.elements.float64_array_class_id && abi.elements.int32_array_class_id
            != abi.elements.float64_array_class_id ==> kind_of(abi, abi.elements.float64_array_class_id as int) == Some(2int),
{
}

/// The unsigned value of 32 bits.
pub open spec fn as_u32(x: int) -> int {
    if x < 0 {
        x + 0x1_0000_0000
    } else {
        x
    }
}

/// The last event is a read of a type at an address.
pub open spec fn was_read(trace: Seq<Event>, back: int, ty: Ty, address: int, value: int) -> bool {
    let k = trace.len() - back;
    0 <= k < trace.len() && (trace[k] matches Event::Load { ty: read, address: at, value: found } && read == ty && found == value
        && (at - address) % 0x1_0000_0000_0000_0000 == 0)
}

/// Storage that is used was looked at: its element count and its data are what the
/// object holds at their places, and the index is not negative and less than the
/// count. The object has the class of its kind, and nothing was written.
#[verifier::spinoff_prover]
#[verifier::rlimit(60)]
pub proof fn used_storage_is_in_bounds(
    abi: RuntimeAbi,
    expected: Option<ArrayMode>,
    writes: bool,
    payload: int,
    index: int,
    trace: Seq<Event>,
    w: World,
)
    requires
        is_int32(index),
    ensures
        ({
            let found = storage_of(abi, expected, writes, payload, index, trace, w);
            &&& forall|k: int| trace.len() <= k < found.trace.len() ==> (#[trigger] found.trace[k]) is Load
            &&& found.ok ==> {
                &&& 0 <= index < as_u32(found.count)
                &&& found.data != 0
                &&& 0 <= found.kind <= 2
                &&& kind_admitted(expected, found.kind)
                &&& kind_of(abi, seen(trace.push(found.trace[trace.len() as int]), Ty::I16, w) % 0x1_0000) == Some(found.kind)
                &&& was_read(found.trace, 1, Ty::I64, payload + abi.elements.array_data, found.data)
                &&& was_read(found.trace, 2, Ty::I32, payload + abi.elements.array_count, found.count)
                &&& was_read(
                    found.trace.take(trace.len() + 2int),
                    1,
                    Ty::I16,
                    payload + abi.elements.object_class_id,
                    seen(trace.push(found.trace[trace.len() as int]), Ty::I16, w),
                )
            }
        }),
{
}

/// An element that is loaded belongs to an object, by an Int32, and is in bounds
/// unless the loop around it has shown that already.
#[verifier::spinoff_prover]
#[verifier::rlimit(60)]
pub proof fn loaded_elements_are_in_bounds(
    env: OptEnv<'_>,
    s: State,
    cached: Option<StorageIds>,
    expected: Option<ArrayMode>,
    covered: bool,
    depth: int,
    w: World,
)
    ensures
        ({
            let e = loaded_element(env, s, cached, expected, covered, depth, w);
            let key = s.vars[env.stack@[depth - 1].payload as int];
            e.ok ==> {
                &&& s.vars[env.stack@[depth - 2].tag as int] == -1
                &&& s.vars[env.stack@[depth - 1].tag as int] == 0
                &&& is_int32(key) && is_int32(e.count) && !(covered && cached is Some) ==> 0 <= as_u32(key) < as_u32(e.count)
                &&& is_int32(key) && !covered && cached is None ==> 0 <= key
                &&& cached matches Some(ids) ==> e.data == s.vals[ids.data as int] && e.count == s.vals[ids.count as int] && e.kind
                    == s.vals[ids.kind as int] && (expected matches Some(mode) ==> e.kind == kind_number(mode))
            }
        }),
{
    let key = wrap(Ty::I32, s.vars[env.stack@[depth - 1].payload as int]);
    let payload = s.vars[env.stack@[depth - 2].payload as int];
    let raw = s.vars[env.stack@[depth - 1].payload as int];
    if is_int32(raw) {
        assert(key == raw);
    }
    storage_is_in_bounds(env, s, cached, expected, covered, payload, key, w);
}

#[verifier::spinoff_prover]
#[verifier::rlimit(60)]
proof fn storage_is_in_bounds(
    env: OptEnv<'_>,
    s: State,
    cached: Option<StorageIds>,
    expected: Option<ArrayMode>,
    covered: bool,
    payload: int,
    key: int,
    w: World,
)
    ensures
        ({
            let e = storage_for(env, s, cached, expected, covered, payload, key, w);
            e.ok ==> {
                &&& is_int32(key) && is_int32(e.count) && !(covered && cached is Some) ==> 0 <= as_u32(key) < as_u32(e.count)
                &&& is_int32(key) && !covered && cached is None ==> 0 <= key
                &&& cached matches Some(ids) ==> e.data == s.vals[ids.data as int] && e.count == s.vals[ids.count as int] && e.kind
                    == s.vals[ids.kind as int] && (expected matches Some(mode) ==> e.kind == kind_number(mode))
            }
        }),
{
    if cached is None && is_int32(key) {
        used_storage_is_in_bounds(*env.abi, expected, false, payload, key, s.trace, w);
    }
}

/// An element that is stored belongs to an object, by an Int32, and is in bounds.
#[verifier::spinoff_prover]
#[verifier::rlimit(60)]
pub proof fn stored_elements_are_in_bounds(env: OptEnv<'_>, s: State, depth: int, w: World)
    requires
        is_int32(s.vars[env.stack@[depth - 2].payload as int]),
    ensures
        ({
            let e = put_element(env, s, depth, w);
            let key = s.vars[env.stack@[depth - 2].payload as int];
            e.ok ==> {
                &&& s.vars[env.stack@[depth - 3].tag as int] == -1
                &&& s.vars[env.stack@[depth - 2].tag as int] == 0
                &&& 0 <= key < as_u32(e.count)
            }
        }),
{
    let key = s.vars[env.stack@[depth - 2].payload as int];
    used_storage_is_in_bounds(*env.abi, None, true, s.vars[env.stack@[depth - 3].payload as int], key, s.trace, w);
}

/// The same holds of an element of a typed array of known mode, which takes
/// numbers that it can hold.
#[verifier::spinoff_prover]
#[verifier::rlimit(60)]
pub proof fn typed_stores_are_in_bounds(env: OptEnv<'_>, s: State, ids: StorageIds, mode: ArrayMode, depth: int, w: World)
    requires
        mode == ArrayMode::Int32 || mode == ArrayMode::Float64,
    ensures
        ({
            let t = typed_written(env, s, Some(ids), mode, depth, w);
            let key = s.vars[env.stack@[depth - 2].payload as int];
            let count = s.vals[ids.count as int];
            let tag = s.vars[env.stack@[depth - 1].tag as int];
            is_int32(key) && is_int32(count) ==> (t.ok <==> {
                &&& s.vars[env.stack@[depth - 2].tag as int] == 0
                &&& as_u32(key) < as_u32(count)
                &&& tag == 0 || mode == ArrayMode::Float64 && tag == 8
            })
        }),
{
}

/// Where both apply, the store to a typed array of known mode writes what the
/// general store writes.
pub proof fn typed_stores_write_what_stores_write(
    env: OptEnv<'_>,
    s: State,
    ids: StorageIds,
    mode: ArrayMode,
    depth: int,
    w: World,
)
    requires
        mode == ArrayMode::Int32 || mode == ArrayMode::Float64,
        typed_written(env, s, Some(ids), mode, depth, w).ok,
        is_int32(s.vars[env.stack@[depth - 2].payload as int]),
    ensures
        typed_written(env, s, Some(ids), mode, depth, w).trace == element_written(
            kind_number(mode),
            s.vals[ids.data as int],
            s.vars[env.stack@[depth - 2].payload as int],
            s.vars[env.stack@[depth - 1].payload as int],
            s.vars[env.stack@[depth - 1].tag as int],
            s.trace,
            w,
        ).trace,
{
}

/// A dense array's length is an Int32 that equals its element count, read from the
/// object's first property, and its elements are tagged.
#[verifier::spinoff_prover]
#[verifier::rlimit(60)]
pub proof fn dense_arrays_have_their_length(abi: RuntimeAbi, payload: int, tag: int, trace: Seq<Event>, w: World)
    ensures
        ({
            let found = packed_of(abi, payload, tag, trace, w);
            &&& forall|k: int| trace.len() <= k < found.trace.len() ==> (#[trigger] found.trace[k]) is Load
            &&& found.ok ==> {
                let n = found.trace.len() as int;
                &&& tag == -1
                &&& found.kind == 0
                &&& found.count == 0 || found.data != 0
                &&& n == trace.len() + 7
                &&& was_read(found.trace, 5, Ty::I32, payload + abi.elements.array_count, found.count)
                &&& was_read(found.trace, 4, Ty::I64, payload + abi.elements.array_data, found.data)
                &&& found.trace[n - 1] matches Event::Load { value, .. } && value == 0
                &&& found.trace[n - 2] matches Event::Load { value, .. } && (value - found.count) % 0x1_0000_0000 == 0
                &&& found.trace[n - 3] matches Event::Load { value, .. } && was_read(found.trace, 2, Ty::I64, value, seen(
                    found.trace.take(n - 2),
                    Ty::I64,
                    w,
                ))
            }
        }),
{
    let found = packed_of(abi, payload, tag, trace, w);
    if found.ok {
        let n = found.trace.len() as int;
        assert(found.trace.take(n - 2).len() == n - 2);
    }
}

/// A typed array's storage is what the runtime answers: it is asked with the
/// receiver, the mode, whether the length is needed and a place for the answer. It
/// is used where the answer is favourable and of the mode that was asked for, and
/// its count and data stand in the answer.
#[verifier::spinoff_prover]
#[verifier::rlimit(60)]
pub proof fn typed_storage_is_what_the_runtime_answers(
    env: OptEnv<'_>,
    s: State,
    mode: ArrayMode,
    needs_length: bool,
    payload: int,
    tag: int,
    trace: Seq<Event>,
    w: World,
)
    requires
        mode == ArrayMode::Int32 || mode == ArrayMode::Float64,
    ensures
        ({
            let found = typed_of(env, s, mode, needs_length, payload, tag, trace, w);
            let n = found.trace.len() as int;
            found.ok ==> {
                &&& found.kind == kind_number(mode)
                &&& n == trace.len() + 10
                &&& found.trace[n - 1] matches Event::Load { ty, value, .. } && ty == Ty::I64 && value == found.data
                &&& found.trace[n - 2] matches Event::Load { ty, value, .. } && ty == Ty::I32 && value == found.count
                &&& found.trace[n - 3] matches Event::Load { ty, value, .. } && ty == Ty::I32 && value == wrap(
                    Ty::I32,
                    (if mode == ArrayMode::Int32 { env.abi.elements.mode_int32 } else { env.abi.elements.mode_float64 }) as int,
                )
                &&& found.trace[n - 4] matches Event::Call { args, result, .. } && result == env.abi.elements.query_ok && args.len()
                    == 5 && args[3] == wrap(Ty::I32, if needs_length { env.abi.elements.query_length as int } else { 0 })
            }
        }),
{
}

/// A dense array is an object of the array class whose flags say that its elements
/// are stored one behind the other.
#[verifier::spinoff_prover]
#[verifier::rlimit(60)]
pub proof fn dense_arrays_are_fast_arrays(abi: RuntimeAbi, payload: int, tag: int, trace: Seq<Event>, w: World)
    requires
        packed_of(abi, payload, tag, trace, w).ok,
    ensures
        ({
            let after = packed_of(abi, payload, tag, trace, w).trace;
            let n = trace.len() as int;
            &&& after[n] matches Event::Load { address, value, .. } && address == wrap(Ty::I64, payload + abi.elements.object_flags)
                && (value as i64 & abi.elements.fast_array_mask) != 0
            &&& after[n + 1] matches Event::Load { address, value, .. } && address == wrap(
                Ty::I64,
                payload + abi.elements.object_class_id,
            ) && value % 0x1_0000 == abi.elements.array_class_id
        }),
{
}

/// A typed array is used only where its buffer is there, attached and of a fixed
/// length, and written only where it is not immutable.
#[verifier::spinoff_prover]
#[verifier::rlimit(60)]
pub proof fn typed_arrays_have_an_attached_buffer(abi: RuntimeAbi, writes: bool, payload: int, trace: Seq<Event>, w: World)
    requires
        typed_backing(abi, writes, payload, trace, w).ok,
    ensures
        ({
            let after = typed_backing(abi, writes, payload, trace, w).trace;
            let n = trace.len() as int;
            &&& after.len() == n + (if writes { 6int } else { 5 })
            &&& after[n] matches Event::Load { address, value: typed, .. } && typed != 0 && address == wrap(
                Ty::I64,
                payload + abi.elements.typed_array_ptr,
            ) && (after[n + 1] matches Event::Load { address: at, value: resizable, .. } && resizable == 0 && at == wrap(
                Ty::I64,
                typed + abi.elements.typed_array_track_rab,
            )) && (after[n + 2] matches Event::Load { value: buffer, .. } && buffer != 0)
            &&& after[n + 3] matches Event::Load { value: data, .. } && data != 0 && (after[n + 4] matches Event::Load {
                address,
                value: detached,
                ..
            } && detached == 0 && address == wrap(Ty::I64, data + abi.elements.array_buffer_detached)) && (writes ==> (
            after[n + 5] matches Event::Load { address, value: immutable, .. } && immutable == 0 && address == wrap(
                Ty::I64,
                data + abi.elements.array_buffer_immutable,
            )))
        }),
{
}

/// Storage that is used of a typed array has such a buffer.
#[verifier::spinoff_prover]
#[verifier::rlimit(60)]
pub proof fn used_typed_storage_is_attached(
    abi: RuntimeAbi,
    expected: Option<ArrayMode>,
    writes: bool,
    payload: int,
    index: int,
    trace: Seq<Event>,
    w: World,
)
    requires
        storage_of(abi, expected, writes, payload, index, trace, w).ok,
        storage_of(abi, expected, writes, payload, index, trace, w).kind != 0,
    ensures
        ({
            let after = storage_of(abi, expected, writes, payload, index, trace, w).trace;
            typed_backing(abi, writes, payload, after.take(trace.len() + 2int), w).ok
        }),
{
    let t1 = crate::checks::read(trace, Ty::I8, payload + abi.elements.object_flags, w);
    let t2 = crate::checks::read(t1, Ty::I16, payload + abi.elements.object_class_id, w);
    let after = storage_of(abi, expected, writes, payload, index, trace, w).trace;
    assert(after.take(trace.len() + 2int) =~= t2);
}

/// Storage that was checked ahead of a loop is still used after a poll only where
/// a new look finds the same data and the same count.
pub proof fn storage_is_found_again(
    env: OptEnv<'_>,
    st: Status,
    st2: Status,
    n: int,
    expected: GuardedElementSource,
    provenance: Seq<OptProvenance>,
    depth: int,
    pc: u32,
    guard: u32,
    w: World,
)
    requires
        revalidation_post(env, st, st2, n, expected, provenance, depth, pc, guard, w),
        st is Run,
        st2 is Run,
    ensures
        ({
            let s = st->Run_0;
            let slot = env.arguments@[source_argument(env, expected)->Some_0];
            let found = metadata_of(
                env,
                s,
                expected.typed_mode,
                expected.exact_length,
                s.vars[slot.payload as int],
                s.vars[slot.tag as int],
                s.trace,
                w,
            );
            &&& found.ok
            &&& found.data == s.vals[expected.storage.data as int]
            &&& found.count == s.vals[expected.storage.count as int]
            &&& st2->Run_0.vars == s.vars
        }),
{
}

} // verus!
