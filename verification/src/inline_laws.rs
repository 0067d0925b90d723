//! What the operations of an inlined callee do to its frame.
use crate::code::Event;
use crate::code::Ty;
use crate::code::World;
use crate::code::wrap;
use crate::exits::pc_store;
use crate::frame::RuntimeAbi;
use crate::frame::as_arguments;
use crate::frame::helper_call;
use crate::frame::top_store;
use crate::inline_body::branch_taken;
use crate::inline_body::operands;
use crate::inline_body::reenters;
use crate::inline_body::stops;
use crate::inline_body::work;
use crate::inline_frames::InlineAddresses;
use crate::inline_frames::InlineBoundary;
use crate::inline_frames::InlineFrame;
use crate::inline_frames::InlineOp;
use crate::inline_frames::freed;
use crate::inline_frames::helped;
use crate::inline_frames::resumed;
use crate::inline_ops::binary;
use crate::inline_ops::duplicated;
use crate::inline_ops::loaded;
use crate::inline_ops::moved;
use crate::inline_ops::put;
use crate::inline_ops::swapped;
use crate::inline_ops::unset;
use crate::inline_ops::updated;
use crate::lower_values::FrameBinaryOp;
use crate::lower_values::has_checked_form;
use crate::lower_values::stays_integer;
use crate::number_laws::is_int32;
use crate::runtime::TaggedValue;
use vstd::prelude::*;

verus! {

/// Memory after the events from `k` on.
pub open spec fn memory_after(trace: Seq<Event>, k: int, memory: Map<int, int>) -> Map<int, int>
    decreases trace.len(),
{
    if trace.len() <= k || trace.len() == 0 {
        memory
    } else {
        let before = memory_after(trace.drop_last(), k, memory);
        match trace.last() {
            Event::Store { address, value, .. } => before.insert(address, value),
            _ => before,
        }
    }
}

/// Every load from `k` on reads what memory holds.
pub open spec fn loads_memory(trace: Seq<Event>, k: int, memory: Map<int, int>) -> bool
    decreases trace.len(),
{
    if trace.len() <= k || trace.len() == 0 {
        true
    } else {
        &&& loads_memory(trace.drop_last(), k, memory)
        &&& match trace.last() {
            Event::Load { address, value, .. } => memory_after(trace.drop_last(), k, memory)[address] == value,
            _ => true,
        }
    }
}

broadcast proof fn memory_after_one_more(trace: Seq<Event>, event: Event, k: int, memory: Map<int, int>)
    requires
        0 <= k <= trace.len(),
    ensures
        #[trigger] memory_after(trace.push(event), k, memory) == (match event {
            Event::Store { address, value, .. } => memory_after(trace, k, memory).insert(address, value),
            _ => memory_after(trace, k, memory),
        }),
{
    assert(trace.push(event).drop_last() =~= trace);
}

broadcast proof fn loads_one_more(trace: Seq<Event>, event: Event, k: int, memory: Map<int, int>)
    requires
        0 <= k <= trace.len(),
    ensures
        #[trigger] loads_memory(trace.push(event), k, memory) == (loads_memory(trace, k, memory) && match event {
            Event::Load { address, value, .. } => memory_after(trace, k, memory)[address] == value,
            _ => true,
        }),
{
    assert(trace.push(event).drop_last() =~= trace);
}

broadcast proof fn nothing_happened(trace: Seq<Event>, memory: Map<int, int>)
    ensures
        #[trigger] memory_after(trace, trace.len() as int, memory) == memory,
        loads_memory(trace, trace.len() as int, memory),
{
}

broadcast group group_memory {
    memory_after_one_more,
    loads_one_more,
    nothing_happened,
}

/// An address that is in the address space is kept as it is.
proof fn addresses_are_kept(base: int, count: int)
    requires
        slots_lie(base, count),
    ensures
        forall|x: int| base <= x < base + count * 16 ==> #[trigger] wrap(Ty::I64, x) == x,
{
}

/// The payload and tag that memory holds in a slot behind an address.
pub open spec fn slot_in(memory: Map<int, int>, base: int, index: int) -> (int, int) {
    (memory[base + index * 16], memory[base + index * 16 + 8])
}

/// So many slots behind an address lie in the address space.
pub open spec fn slots_lie(base: int, count: int) -> bool {
    0 <= base && base + count * 16 < 0x8000_0000_0000_0000
}

/// No other memory has changed but a slot, or two.
pub open spec fn others_kept(before: Map<int, int>, after: Map<int, int>, one: int, two: int) -> bool {
    forall|at: int|
        at != one && at != one + 8 && at != two && at != two + 8 && before.contains_key(at) ==> #[trigger] after[at] == before[at]
}

proof fn low_words(x: int)
    requires
        is_int32(x),
    ensures
        wrap(Ty::I32, x) == x,
{
}

proof fn words_fit(x: int)
    requires
        -0x8000_0000_0000_0000 <= x < 0x8000_0000_0000_0000,
    ensures
        wrap(Ty::I64, x) == x,
{
}

/// An operation on two operands reads them from the two top slots, the left one
/// below. Where both are Int32 and the result is one, or a truth value, it puts
/// the result into the lower slot and empties the upper one; otherwise control
/// goes back to the interpreter with both still in place.
#[verifier::spinoff_prover]
#[verifier::rlimit(60)]
pub proof fn inlined_operations_fold_the_top(
    f: InlineFrame<'_>,
    a: InlineAddresses,
    trace: Seq<Event>,
    op: FrameBinaryOp,
    boundary: InlineBoundary,
    depth: int,
    w: World,
    memory: Map<int, int>,
)
    requires
        depth >= 2,
        slots_lie(a.stack, depth + 1),
        loads_memory(
            work(f, a, trace, InlineOp::Binary(op), boundary, depth, w).trace.take(trace.len() + 4int),
            trace.len() as int,
            memory,
        ),
        is_int32(slot_in(memory, a.stack, depth - 2).0),
        is_int32(slot_in(memory, a.stack, depth - 1).0),
    ensures
        ({
            let turn = work(f, a, trace, InlineOp::Binary(op), boundary, depth, w);
            let l = slot_in(memory, a.stack, depth - 2);
            let r = slot_in(memory, a.stack, depth - 1);
            let after = memory_after(turn.trace, trace.len() as int, memory);
            let both = l.1 == 0 && r.1 == 0;
            let result = slot_in(after, a.stack, depth - 2);
            &&& turn.end is On <==> has_checked_form(op) && both && stays_integer(op, l.0, r.0)
            &&& turn.end is On || turn.end is Left
            &&& turn.end is On ==> {
                &&& slot_in(after, a.stack, depth - 1) == (0int, 3int)
                &&& others_kept(memory, after, a.stack + (depth - 2) * 16, a.stack + (depth - 1) * 16)
                &&& op == FrameBinaryOp::Add ==> result == (l.0 + r.0, 0int)
                &&& op == FrameBinaryOp::Sub ==> result == (l.0 - r.0, 0int)
                &&& op == FrameBinaryOp::Mul ==> result == (l.0 * r.0, 0int)
                &&& op == FrameBinaryOp::LessThan ==> result == (if l.0 < r.0 { 1int } else { 0 }, 1int)
                &&& op == FrameBinaryOp::GreaterThan ==> result == (if r.0 < l.0 { 1int } else { 0 }, 1int)
                &&& op == FrameBinaryOp::LessThanOrEqual ==> result == (if r.0 < l.0 { 0int } else { 1 }, 1int)
                &&& op == FrameBinaryOp::GreaterThanOrEqual ==> result == (if l.0 < r.0 { 0int } else { 1 }, 1int)
                &&& op == FrameBinaryOp::Equal || op == FrameBinaryOp::StrictEqual ==> result == (
                    if l.0 == r.0 { 1int } else { 0 },
                    1int,
                )
                &&& op == FrameBinaryOp::NotEqual || op == FrameBinaryOp::StrictNotEqual ==> result == (
                    if l.0 == r.0 { 0int } else { 1 },
                    1int,
                )
            }
        }),
{
    broadcast use group_memory;

    addresses_are_kept(a.stack, depth + 1);
    let lhs = loaded(trace, a.stack + (depth - 2) * 16, w);
    let rhs = loaded(lhs.trace, a.stack + (depth - 1) * 16, w);
    let turn = binary(f, a, trace, op, boundary.pc, depth, w);
    resumes_go_on(f, a, rhs.trace, boundary.pc, false, w);
    assert(turn.trace.take(trace.len() + 4int) =~= rhs.trace);
    assert(loads_memory(rhs.trace, trace.len() as int, memory));
    let l = slot_in(memory, a.stack, depth - 2);
    let r = slot_in(memory, a.stack, depth - 1);
    assert(lhs.payload == l.0 && lhs.tag == l.1 && rhs.payload == r.0 && rhs.tag == r.1);
    low_words(l.0);
    low_words(r.0);
}

/// An update adds one to the Int32 on top or takes one from it: in place, or into
/// the slot above where the old value is still used.
#[verifier::spinoff_prover]
#[verifier::rlimit(60)]
pub proof fn inlined_updates_step_the_top(
    f: InlineFrame<'_>,
    a: InlineAddresses,
    trace: Seq<Event>,
    op: InlineOp,
    boundary: InlineBoundary,
    depth: int,
    w: World,
    memory: Map<int, int>,
)
    requires
        depth >= 1,
        slots_lie(a.stack, depth + 1),
        op is Increment || op is Decrement || op is PostIncrement || op is PostDecrement,
        loads_memory(work(f, a, trace, op, boundary, depth, w).trace.take(trace.len() + 2int), trace.len() as int, memory),
        is_int32(slot_in(memory, a.stack, depth - 1).0),
    ensures
        ({
            let turn = work(f, a, trace, op, boundary, depth, w);
            let v = slot_in(memory, a.stack, depth - 1);
            let after = memory_after(turn.trace, trace.len() as int, memory);
            let step = if op is Increment || op is PostIncrement { 1int } else { -1 };
            let at = if op is PostIncrement || op is PostDecrement { depth } else { depth - 1 };
            &&& turn.end is On <==> v.1 == 0 && is_int32(v.0 + step)
            &&& turn.end is On || turn.end is Left
            &&& turn.end is On ==> slot_in(after, a.stack, at) == (v.0 + step, 0int) && others_kept(
                memory,
                after,
                a.stack + at * 16,
                a.stack + at * 16,
            )
        }),
{
    let increment = op is Increment || op is PostIncrement;
    let post = op is PostIncrement || op is PostDecrement;
    assert(work(f, a, trace, op, boundary, depth, w) == updated(f, a, trace, increment, post, boundary.pc, depth, w));
    update_steps(f, a, trace, increment, post, boundary.pc, depth, w, memory);
}

#[verifier::spinoff_prover]
proof fn update_steps(
    f: InlineFrame<'_>,
    a: InlineAddresses,
    trace: Seq<Event>,
    increment: bool,
    post: bool,
    pc: u32,
    depth: int,
    w: World,
    memory: Map<int, int>,
)
    requires
        depth >= 1,
        slots_lie(a.stack, depth + 1),
        loads_memory(
            updated(f, a, trace, increment, post, pc, depth, w).trace.take(trace.len() + 2int),
            trace.len() as int,
            memory,
        ),
        is_int32(slot_in(memory, a.stack, depth - 1).0),
    ensures
        ({
            let turn = updated(f, a, trace, increment, post, pc, depth, w);
            let v = slot_in(memory, a.stack, depth - 1);
            let after = memory_after(turn.trace, trace.len() as int, memory);
            let step = if increment { 1int } else { -1 };
            let at = if post { depth } else { depth - 1 };
            &&& turn.end is On <==> v.1 == 0 && is_int32(v.0 + step)
            &&& turn.end is On || turn.end is Left
            &&& turn.end is On ==> slot_in(after, a.stack, at) == (v.0 + step, 0int) && others_kept(
                memory,
                after,
                a.stack + at * 16,
                a.stack + at * 16,
            )
        }),
{
    broadcast use group_memory;

    addresses_are_kept(a.stack, depth + 1);
    let lhs = loaded(trace, a.stack + (depth - 1) * 16, w);
    let turn = updated(f, a, trace, increment, post, pc, depth, w);
    resumes_go_on(f, a, lhs.trace, pc, false, w);
    assert(turn.trace.take(trace.len() + 2int) =~= lhs.trace);
    assert(loads_memory(lhs.trace, trace.len() as int, memory));
    let v = slot_in(memory, a.stack, depth - 1);
    assert(lhs.payload == v.0 && lhs.tag == v.1);
    low_words(v.0);
    low_words(1);
}

/// A swap exchanges the two top slots.
#[verifier::spinoff_prover]
#[verifier::rlimit(60)]
pub proof fn inlined_swaps_exchange_the_top(
    f: InlineFrame<'_>,
    a: InlineAddresses,
    trace: Seq<Event>,
    boundary: InlineBoundary,
    depth: int,
    w: World,
    memory: Map<int, int>,
)
    requires
        depth >= 2,
        slots_lie(a.stack, depth + 1),
        loads_memory(work(f, a, trace, InlineOp::Swap, boundary, depth, w).trace, trace.len() as int, memory),
    ensures
        ({
            let turn = work(f, a, trace, InlineOp::Swap, boundary, depth, w);
            let after = memory_after(turn.trace, trace.len() as int, memory);
            &&& turn.end is On
            &&& slot_in(after, a.stack, depth - 2) == slot_in(memory, a.stack, depth - 1)
            &&& slot_in(after, a.stack, depth - 1) == slot_in(memory, a.stack, depth - 2)
            &&& others_kept(memory, after, a.stack + (depth - 2) * 16, a.stack + (depth - 1) * 16)
        }),
{
    broadcast use group_memory;

    addresses_are_kept(a.stack, depth + 1);
}

/// A constant is pushed into the slot above the stack. One that would have to be
/// counted ends the code in place.
#[verifier::spinoff_prover]
#[verifier::rlimit(60)]
pub proof fn inlined_constants_are_pushed(
    f: InlineFrame<'_>,
    a: InlineAddresses,
    trace: Seq<Event>,
    value: TaggedValue,
    boundary: InlineBoundary,
    depth: int,
    w: World,
    memory: Map<int, int>,
)
    requires
        depth >= 0,
        slots_lie(a.stack, depth + 1),
        value.payload < 0x8000_0000_0000_0000,
    ensures
        ({
            let turn = work(f, a, trace, InlineOp::Push(value), boundary, depth, w);
            let after = memory_after(turn.trace, trace.len() as int, memory);
            &&& turn.end is On
            &&& slot_in(after, a.stack, depth) == (value.payload as int, value.tag as int)
            &&& others_kept(memory, after, a.stack + depth * 16, a.stack + depth * 16)
        }),
{
    broadcast use group_memory;

    addresses_are_kept(a.stack, depth + 1);
    words_fit(value.payload as int);
    words_fit(value.tag as int);
    assert((value.payload as i64) as int == value.payload as int);
}

/// The runtime is asked for a helper: its address is read from the runtime's
/// table, and it is called with the frame and so many words.
pub open spec fn asks(trace: Seq<Event>, k: int, abi: RuntimeAbi, frame: int, helper: usize, words: Seq<int>) -> bool {
    &&& 2 <= k < trace.len()
    &&& trace[k - 2] matches Event::Load { address, value: table, .. } && address == wrap(Ty::I64, frame + abi.runtime_api) && (
    trace[k - 1] matches Event::Load { address: entry, value: code, .. } && entry == wrap(
        Ty::I64,
        table + abi.helper_offsets@[helper as int],
    ) && (trace[k] matches Event::Call { callee, args, .. } && callee == code && args == seq![frame] + words))
}

/// What a turn begins with stays at its beginning.
spec fn goes_on_from(before: Seq<Event>, after: Seq<Event>) -> bool {
    before.len() <= after.len() && forall|k: int| 0 <= k < before.len() ==> #[trigger] after[k] == before[k]
}

proof fn resumes_go_on(f: InlineFrame<'_>, a: InlineAddresses, trace: Seq<Event>, pc: u32, exception: bool, w: World)
    ensures
        goes_on_from(trace, resumed(f, a, trace, pc, exception, w)),
{
}

proof fn helpers_are_asked(
    f: InlineFrame<'_>,
    a: InlineAddresses,
    trace: Seq<Event>,
    helper: usize,
    args: Seq<u32>,
    pc: u32,
    live: int,
    exception_depth: int,
    w: World,
)
    ensures
        ({
            let turn = helped(f, a, trace, helper, args, pc, live, exception_depth, w);
            &&& asks(turn.trace, trace.len() + 5int, *f.root.abi, a.frame, helper, as_arguments(args))
            &&& turn.end is On ==> turn.trace.len() == trace.len() + 6
            &&& goes_on_from(trace, turn.trace)
        }),
{
    let abi = *f.root.abi;
    let t1 = top_store(pc_store(trace, abi, a.frame, pc, w), abi, a.frame, a.stack, live);
    let called = helper_call(t1, abi, a.frame, helper as int, as_arguments(args), w);
    assert(called.len() == trace.len() + 6);
    assert(asks(called, trace.len() + 5int, abi, a.frame, helper, as_arguments(args)));
    assert(goes_on_from(trace, called));
    let topped = top_store(called, abi, a.frame, a.stack, exception_depth);
    resumes_go_on(f, a, topped, pc, true, w);
    let all = resumed(f, a, topped, pc, true, w);
    assert(goes_on_from(called, topped));
    assert(goes_on_from(called, all));
    assert(forall|k: int| 0 <= k < called.len() ==> all[k] == called[k]);
}

/// The frame's slots in one row: the arguments, the locals, the operand stack.
pub open spec fn row(f: InlineFrame<'_>, arguments: int, locals: int, stack: int) -> int {
    if stack >= 0 {
        f.body().argument_count + f.body().local_count + stack
    } else if locals >= 0 {
        f.body().argument_count + locals
    } else {
        arguments
    }
}

/// Such a row is short enough for the words that helpers take.
pub open spec fn rows_fit(f: InlineFrame<'_>, depth: int) -> bool {
    0 <= depth && f.body().argument_count + f.body().local_count + depth + 2 < 0x8000_0000
}

/// A word is written at an address.
pub open spec fn writes(event: Event, address: int, value: int) -> bool {
    event == Event::Store { ty: Ty::I64, address: wrap(Ty::I64, address), value }
}

proof fn releases(f: InlineFrame<'_>, a: InlineAddresses, trace: Seq<Event>, slot: u32, next: u32, depth: int, w: World)
    requires
        slot < 0x8000_0000,
    ensures
        ({
            let abi = *f.root.abi;
            let turn = freed(f, a, trace, slot, next, depth, depth, w);
            &&& asks(turn.trace, trace.len() + 5int, abi, a.frame, abi.helper_free, seq![0int, slot as int])
            &&& turn.end is On ==> turn.trace.len() == trace.len() + 6
            &&& goes_on_from(trace, turn.trace)
        }),
{
    helpers_are_asked(f, a, trace, f.root.abi.helper_free, seq![0, slot], next, depth, depth, w);
    two_words(0, slot);
}

proof fn two_words(x: u32, y: u32)
    requires
        x < 0x8000_0000,
        y < 0x8000_0000,
    ensures
        as_arguments(seq![x, y]) == seq![x as int, y as int],
{
    assert(as_arguments(seq![x, y]) =~= seq![x as int, y as int]);
}

proof fn three_words(x: u32, y: u32, z: u32)
    requires
        x < 0x8000_0000,
        y < 0x8000_0000,
        z < 0x8000_0000,
    ensures
        as_arguments(seq![x, y, z]) == seq![x as int, y as int, z as int],
{
    assert(as_arguments(seq![x, y, z]) =~= seq![x as int, y as int, z as int]);
}

proof fn four_words(x: u32, y: u32, z: u32, u: u32)
    requires
        x < 0x8000_0000,
        y < 0x8000_0000,
        z < 0x8000_0000,
        u < 0x8000_0000,
    ensures
        as_arguments(seq![x, y, z, u]) == seq![x as int, y as int, z as int, u as int],
{
    assert(as_arguments(seq![x, y, z, u]) =~= seq![x as int, y as int, z as int, u as int]);
}

/// A read asks the runtime to copy the slot that the operation names into the slot
/// above the stack, as its owner; so does `dup` with the slot on top. A dropped
/// value is given back.
#[verifier::spinoff_prover]
#[verifier::rlimit(60)]
pub proof fn inlined_reads_ask_for_a_copy(
    f: InlineFrame<'_>,
    a: InlineAddresses,
    trace: Seq<Event>,
    index: u16,
    boundary: InlineBoundary,
    depth: int,
    w: World,
)
    requires
        depth >= 1,
        rows_fit(f, depth),
        index < 0x8000,
    ensures
        ({
            let abi = *f.root.abi;
            let at = trace.len() + 5int;
            let run = |op: InlineOp| work(f, a, trace, op, boundary, depth, w).trace;
            &&& asks(run(InlineOp::GetArgument(index)), at, abi, a.frame, abi.helper_dup, seq![0int, row(f, -1, -1, depth), index as int])
            &&& asks(
                run(InlineOp::GetLocal(index)),
                at,
                abi,
                a.frame,
                abi.helper_dup,
                seq![0int, row(f, -1, -1, depth), row(f, -1, index as int, -1)],
            )
            &&& asks(
                run(InlineOp::Dup),
                at,
                abi,
                a.frame,
                abi.helper_dup,
                seq![0int, row(f, -1, -1, depth), row(f, -1, -1, depth - 1)],
            )
            &&& asks(run(InlineOp::Drop), at, abi, a.frame, abi.helper_free, seq![0int, row(f, -1, -1, depth - 1)])
        }),
{
    let abi = *f.root.abi;
    let next = boundary.next_pc;
    let top = f.flat_slot(depth) as u32;
    let under = f.flat_slot(depth - 1) as u32;
    let local = (f.body().argument_count + index) as u32;
    copies(f, a, trace, top, index as u32, next, depth, w);
    copies(f, a, trace, top, local, next, depth, w);
    copies(f, a, trace, top, under, next, depth, w);
    releases(f, a, trace, under, next, depth, w);
    assert(work(f, a, trace, InlineOp::GetArgument(index), boundary, depth, w) == duplicated(
        f,
        a,
        trace,
        top,
        index as u32,
        next,
        depth + 1,
        depth,
        w,
    ));
    assert(work(f, a, trace, InlineOp::GetLocal(index), boundary, depth, w) == duplicated(
        f,
        a,
        trace,
        top,
        local,
        next,
        depth + 1,
        depth,
        w,
    ));
    assert(work(f, a, trace, InlineOp::Dup, boundary, depth, w) == duplicated(f, a, trace, top, under, next, depth + 1, depth, w));
    assert(work(f, a, trace, InlineOp::Drop, boundary, depth, w) == freed(f, a, trace, under, next, depth, depth, w));
}

proof fn copies(f: InlineFrame<'_>, a: InlineAddresses, trace: Seq<Event>, target: u32, source: u32, next: u32, depth: int, w: World)
    requires
        target < 0x8000_0000,
        source < 0x8000_0000,
    ensures
        asks(
            duplicated(f, a, trace, target, source, next, depth + 1, depth, w).trace,
            trace.len() + 5int,
            *f.root.abi,
            a.frame,
            f.root.abi.helper_dup,
            seq![0int, target as int, source as int],
        ),
{
    helpers_are_asked(f, a, trace, f.root.abi.helper_dup, seq![0, target, source], next, depth + 1, depth, w);
    three_words(0, target, source);
}

/// A store first gives back what the slot held, the slot that the operation names.
#[verifier::spinoff_prover]
#[verifier::rlimit(60)]
pub proof fn inlined_stores_release_their_slot(
    f: InlineFrame<'_>,
    a: InlineAddresses,
    trace: Seq<Event>,
    index: u16,
    keep: bool,
    boundary: InlineBoundary,
    depth: int,
    w: World,
)
    requires
        depth >= 1,
        rows_fit(f, depth),
        index < 0x8000,
    ensures
        ({
            let abi = *f.root.abi;
            let at = trace.len() + 5int;
            let run = |op: InlineOp| work(f, a, trace, op, boundary, depth, w).trace;
            let local = seq![0int, row(f, -1, index as int, -1)];
            &&& asks(run(InlineOp::PutArgument { index, keep }), at, abi, a.frame, abi.helper_free, seq![0int, index as int])
            &&& asks(run(InlineOp::PutLocal { index, keep }), at, abi, a.frame, abi.helper_free, local)
            &&& asks(run(InlineOp::SetLocalUninitialized(index)), at, abi, a.frame, abi.helper_free, local)
        }),
{
    let next = boundary.next_pc;
    put_releases(f, a, trace, false, index, keep, next, depth, w);
    put_releases(f, a, trace, true, index, keep, next, depth, w);
    let slot = (f.body().argument_count + index) as u32;
    releases(f, a, trace, slot, next, depth, w);
    let released = freed(f, a, trace, slot, next, depth, depth, w);
    let all = unset(f, a, trace, index, next, depth, w);
    assert(goes_on_from(released.trace, all.trace));
    asks_stay(released.trace, all.trace, trace.len() + 5int, *f.root.abi, a.frame, f.root.abi.helper_free, seq![0int, slot as int]);
}

proof fn asks_stay(
    before: Seq<Event>,
    after: Seq<Event>,
    k: int,
    abi: RuntimeAbi,
    frame: int,
    helper: usize,
    words: Seq<int>,
)
    requires
        goes_on_from(before, after),
        asks(before, k, abi, frame, helper, words),
    ensures
        asks(after, k, abi, frame, helper, words),
{
    assert(after[k] == before[k] && after[k - 1] == before[k - 1] && after[k - 2] == before[k - 2]);
}

#[verifier::spinoff_prover]
proof fn put_releases(
    f: InlineFrame<'_>,
    a: InlineAddresses,
    trace: Seq<Event>,
    local: bool,
    index: u16,
    keep: bool,
    next: u32,
    depth: int,
    w: World,
)
    requires
        depth >= 1,
        rows_fit(f, depth),
        index < 0x8000,
    ensures
        asks(
            put(f, a, trace, local, index, keep, next, depth, w).trace,
            trace.len() + 5int,
            *f.root.abi,
            a.frame,
            f.root.abi.helper_free,
            seq![0int, if local { row(f, -1, index as int, -1) } else { index as int }],
        ),
{
    let slot = if local {
        (f.body().argument_count + index) as u32
    } else {
        index as u32
    };
    let under = f.flat_slot(depth - 1) as u32;
    releases(f, a, trace, slot, next, depth, w);
    let released = freed(f, a, trace, slot, next, depth, depth, w);
    let all = put(f, a, trace, local, index, keep, next, depth, w);
    if released.end is On {
        if keep {
            helpers_are_asked(f, a, released.trace, f.root.abi.helper_dup, seq![0, slot, under], next, depth, depth, w);
        } else {
            assert(all.trace == moved(a, released.trace, local, index, depth, w));
        }
    }
    assert(goes_on_from(released.trace, all.trace));
    asks_stay(released.trace, all.trace, trace.len() + 5int, *f.root.abi, a.frame, f.root.abi.helper_free, seq![0int, slot as int]);
}

/// A store that keeps the value on the stack asks for a second owner of it in the
/// slot that was released.
#[verifier::spinoff_prover]
pub proof fn inlined_stores_copy_what_they_keep(
    f: InlineFrame<'_>,
    a: InlineAddresses,
    trace: Seq<Event>,
    local: bool,
    index: u16,
    next: u32,
    depth: int,
    w: World,
)
    requires
        depth >= 1,
        rows_fit(f, depth),
        index < 0x8000,
    ensures
        ({
            let kept = put(f, a, trace, local, index, true, next, depth, w);
            kept.end is On ==> asks(
                kept.trace,
                trace.len() + 11int,
                *f.root.abi,
                a.frame,
                f.root.abi.helper_dup,
                seq![0int, if local { row(f, -1, index as int, -1) } else { index as int }, row(f, -1, -1, depth - 1)],
            )
        }),
{
    let slot = if local {
        (f.body().argument_count + index) as u32
    } else {
        index as u32
    };
    let under = f.flat_slot(depth - 1) as u32;
    releases(f, a, trace, slot, next, depth, w);
    let released = freed(f, a, trace, slot, next, depth, depth, w);
    if released.end is On {
        helpers_are_asked(f, a, released.trace, f.root.abi.helper_dup, seq![0, slot, under], next, depth, depth, w);
        three_words(0, slot, under);
    }
}

/// Another store moves the value on top into the slot that was released, payload
/// and tag, and empties the slot on top.
#[verifier::spinoff_prover]
pub proof fn inlined_stores_move_what_they_take(
    f: InlineFrame<'_>,
    a: InlineAddresses,
    trace: Seq<Event>,
    local: bool,
    index: u16,
    next: u32,
    depth: int,
    w: World,
)
    requires
        depth >= 1,
        rows_fit(f, depth),
        index < 0x8000,
        put(f, a, trace, local, index, false, next, depth, w).end is On,
    ensures
        ({
            let taken = put(f, a, trace, local, index, false, next, depth, w);
            let buffer = if local { a.locals } else { a.arguments };
            let n = trace.len() + 6int;
            &&& taken.trace.len() == n + 6
            &&& taken.trace[n] matches Event::Load { address, value, .. } && address == wrap(Ty::I64, a.stack + (depth - 1) * 16)
                && writes(taken.trace[n + 2], buffer + index * 16, value)
            &&& taken.trace[n + 1] matches Event::Load { address, value, .. } && address == wrap(
                Ty::I64,
                a.stack + (depth - 1) * 16 + 8,
            ) && writes(taken.trace[n + 3], buffer + index * 16 + 8, value)
            &&& writes(taken.trace[n + 4], a.stack + (depth - 1) * 16, 0)
            &&& writes(taken.trace[n + 5], a.stack + (depth - 1) * 16 + 8, 3)
        }),
{
    let slot = if local {
        (f.body().argument_count + index) as u32
    } else {
        index as u32
    };
    releases(f, a, trace, slot, next, depth, w);
    let released = freed(f, a, trace, slot, next, depth, depth, w);
    assert(released.end is On);
    moves_the_top(a, released.trace, local, index, depth, w);
}

proof fn moves_the_top(a: InlineAddresses, trace: Seq<Event>, local: bool, index: u16, depth: int, w: World)
    ensures
        ({
            let after = moved(a, trace, local, index, depth, w);
            let buffer = if local { a.locals } else { a.arguments };
            let n = trace.len() as int;
            &&& after.len() == n + 6
            &&& after[n] matches Event::Load { address, value, .. } && address == wrap(Ty::I64, a.stack + (depth - 1) * 16) && writes(
                after[n + 2],
                buffer + index * 16,
                value,
            )
            &&& after[n + 1] matches Event::Load { address, value, .. } && address == wrap(
                Ty::I64,
                a.stack + (depth - 1) * 16 + 8,
            ) && writes(after[n + 3], buffer + index * 16 + 8, value)
            &&& writes(after[n + 4], a.stack + (depth - 1) * 16, 0)
            &&& writes(after[n + 5], a.stack + (depth - 1) * 16 + 8, 3)
        }),
{
}

/// The stores of an inlined callee are these.
pub proof fn inlined_stores_are_puts(
    f: InlineFrame<'_>,
    a: InlineAddresses,
    trace: Seq<Event>,
    index: u16,
    keep: bool,
    boundary: InlineBoundary,
    depth: int,
    w: World,
)
    ensures
        work(f, a, trace, InlineOp::PutLocal { index, keep }, boundary, depth, w) == put(
            f,
            a,
            trace,
            true,
            index,
            keep,
            boundary.next_pc,
            depth,
            w,
        ),
        work(f, a, trace, InlineOp::PutArgument { index, keep }, boundary, depth, w) == put(
            f,
            a,
            trace,
            false,
            index,
            keep,
            boundary.next_pc,
            depth,
            w,
        ),
{
}

/// A property is asked for by its receiver's slot and its name, and read into the
/// slot above; a property is set from the slot on top, on the receiver below it.
#[verifier::spinoff_prover]
#[verifier::rlimit(60)]
pub proof fn inlined_properties_are_asked_for_by_name(
    f: InlineFrame<'_>,
    a: InlineAddresses,
    trace: Seq<Event>,
    atom: u32,
    boundary: InlineBoundary,
    depth: int,
    w: World,
)
    requires
        depth >= 2,
        rows_fit(f, depth),
        atom < 0x8000_0000,
    ensures
        ({
            let abi = *f.root.abi;
            let at = trace.len() + 5int;
            let run = |op: InlineOp| work(f, a, trace, op, boundary, depth, w).trace;
            let get = seq![0int, row(f, -1, -1, depth), row(f, -1, -1, depth - 1), atom as int];
            let set = seq![0int, row(f, -1, -1, depth - 2), atom as int, row(f, -1, -1, depth - 1)];
            &&& asks(run(InlineOp::GetProperty(atom)), at, abi, a.frame, abi.helper_get_property, get)
            &&& asks(run(InlineOp::GetPropertyKeep(atom)), at, abi, a.frame, abi.helper_get_property, get)
            &&& asks(run(InlineOp::SetProperty(atom)), at, abi, a.frame, abi.helper_set_property, set)
        }),
{
    let abi = *f.root.abi;
    let next = boundary.next_pc;
    let top = f.flat_slot(depth) as u32;
    let under = f.flat_slot(depth - 1) as u32;
    let below = f.flat_slot(depth - 2) as u32;
    helpers_are_asked(f, a, trace, abi.helper_get_property, seq![0, top, under, atom], next, depth + 1, depth, w);
    helpers_are_asked(f, a, trace, abi.helper_set_property, seq![0, below, atom, under], next, depth, depth, w);
    four_words(0, top, under, atom);
    four_words(0, below, atom, under);
    let fetched = helped(f, a, trace, abi.helper_get_property, seq![0, top, under, atom], next, depth + 1, depth, w);
    let stored = helped(f, a, trace, abi.helper_set_property, seq![0, below, atom, under], next, depth, depth, w);
    let exchanged = swapped(a, fetched.trace, depth - 1, depth, w);
    helpers_are_asked(f, a, exchanged, abi.helper_free, seq![0, top], next, depth + 1, depth, w);
    helpers_are_asked(f, a, stored.trace, abi.helper_free, seq![0, below], next, depth, depth, w);
    assert(goes_on_from(fetched.trace, exchanged));
}

/// A branch on a truth value is taken where the value is the one that it asks for.
pub proof fn inlined_branches_go_by_truth(holds: bool, when_true: bool)
    ensures
        branch_taken(if holds { 1 } else { 0 }, when_true) <==> holds == when_true,
{
}

/// Every operation that runs code of the runtime is followed by a check of the
/// frame, and no other.
pub proof fn calls_into_the_runtime_are_checked(op: InlineOp)
    ensures
        !reenters(op) <==> match op {
            InlineOp::Push(_) | InlineOp::Swap | InlineOp::Binary(_) | InlineOp::Nop | InlineOp::OsrLabel | InlineOp::Other => true,
            InlineOp::Increment | InlineOp::Decrement | InlineOp::PostIncrement | InlineOp::PostDecrement => true,
            InlineOp::Jump(_) | InlineOp::Branch { .. } | InlineOp::Return | InlineOp::ReturnUndefined | InlineOp::Poll { .. } => true,
            _ => false,
        },
{
}

/// Code in place ends at what moves control, at operations that have no form on
/// Int32, at counted constants and at calls in tail position.
pub proof fn code_in_place_ends_where_it_must(op: InlineOp, boundary: InlineBoundary, depth: int)
    ensures
        op is Jump || op is Branch || op is Return || op is ReturnUndefined || op is Other ==> stops(op, boundary, depth),
        op matches InlineOp::Binary(operation) ==> (stops(op, boundary, depth) <==> operation == FrameBinaryOp::Div || operation
            == FrameBinaryOp::Mod || operation == FrameBinaryOp::Shl || operation == FrameBinaryOp::Sar || operation
            == FrameBinaryOp::Shr),
        op matches InlineOp::Call { argc, has_this } ==> (stops(op, boundary, depth) <==> boundary.stack_after != depth - argc - (if has_this {
            1int
        } else {
            0
        })),
        op is Nop || op is Swap || op is Dup || op is Drop || op is Increment || op is PostDecrement || op is GetLocal ==> !stops(
            op,
            boundary,
            depth,
        ),
{
}

/// How many values an operation needs on the stack.
pub proof fn operations_need_their_operands(op: InlineOp)
    ensures
        op is Binary || op is Swap || op is SetProperty ==> operands(op) == 2,
        op is Drop || op is Dup || op is Increment || op is Decrement || op is PostIncrement || op is PostDecrement || op is Return
            || op is GetProperty || op is GetPropertyKeep || op is PutLocal || op is PutArgument || op is PutLocalChecked ==> operands(
            op,
        ) == 1,
        op is Push || op is GetArgument || op is GetLocal || op is GetLocalChecked || op is Nop ==> operands(op) == 0,
{
}

} // verus!
