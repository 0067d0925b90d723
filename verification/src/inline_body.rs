//! The bodies of inlined callees: blocks of instructions between entering and
//! leaving a frame.
use crate::code::binary_value;
use crate::code::status;
use crate::code::value;
use crate::code::wrap;
use crate::code::BinaryOp;
use crate::code::kept;
use crate::code::Code;
use crate::code::ConvertOp;
use crate::code::Event;
use crate::code::Inst;
use crate::code::Status;
use crate::code::Ty;
use crate::code::World;
use crate::control::CompileFailure;
use crate::exits::pc_store;
use crate::frame::runs_on;
use crate::frame::top_store;
use crate::inline_frames::checked;
use crate::inline_frames::freed;
use crate::inline_frames::helped;
use crate::inline_frames::leaves;
use crate::inline_frames::left;
use crate::inline_frames::on;
use crate::inline_frames::resumed;
use crate::inline_frames::turned;
use crate::inline_frames::End;
use crate::inline_frames::FrameRegion;
use crate::inline_frames::InlineAddresses;
use crate::inline_frames::InlineBoundary;
use crate::inline_frames::InlineFrame;
use crate::inline_frames::InlineOp;
use crate::inline_frames::Offers;
use crate::inline_frames::Turn;
use crate::inline_ops::binary;
use crate::inline_ops::call_base;
use crate::inline_ops::duplicated;
use crate::inline_ops::got;
use crate::inline_ops::loaded;
use crate::inline_ops::property_got;
use crate::inline_ops::property_set;
use crate::inline_ops::put;
use crate::inline_ops::put_checked;
use crate::inline_ops::runtime_called;
use crate::inline_ops::swapped;
use crate::inline_ops::unset;
use crate::inline_ops::updated;
use crate::lower_values::has_checked_form;
use crate::lower_values::opt_load;
use crate::lower_values::opt_store;
use crate::lower_values::pair_stores;
use crate::lower_values::undefined;
use crate::lower_values::FrameBinaryOp;
use crate::lower_values::OptPair;
use crate::qjs::JS_TAG_UNDEFINED;
use crate::runtime::first_at;
use crate::runtime::first_at_is;
use crate::runtime::first_at_none;
use crate::runtime::TaggedValue;
use crate::typing::steady;
use crate::typing::closing;
use crate::typing::calm;
use crate::assemble::Known;
use crate::frame_typing::pair_held;
use crate::frame_typing::slot_named;
use crate::frame_typing::slots_named;
use crate::frame_typing::cached_named;
use crate::frame_typing::cache_named;
use crate::frame_typing::word_types;
use vstd::prelude::*;

verus! {

broadcast use {crate::typing::group_typing, crate::frame_typing::group_frame};

/// Tags from here on, as unsigned numbers, are those of counted references.
pub const FIRST_COUNTED_TAG: u32 = 0xffff_fff7;

pub open spec fn pushable(value: TaggedValue) -> bool {
    (#[verifier::truncate] (value.tag as u32)) < FIRST_COUNTED_TAG
}

/// How many operands the instruction needs.
pub open spec fn operands(op: InlineOp) -> int {
    match op {
        InlineOp::PutArgument { .. }
        | InlineOp::PutLocal { .. }
        | InlineOp::PutLocalChecked { .. }
        | InlineOp::Drop
        | InlineOp::Dup
        | InlineOp::Increment
        | InlineOp::Decrement
        | InlineOp::PostIncrement
        | InlineOp::PostDecrement
        | InlineOp::GetProperty(_)
        | InlineOp::GetPropertyKeep(_)
        | InlineOp::Return => 1,
        InlineOp::Swap | InlineOp::Binary(_) | InlineOp::SetProperty(_) => 2,
        _ => 0,
    }
}

pub(crate) fn count_operands(op: InlineOp) -> (r: u16)
    ensures
        r == operands(op),
{
    match op {
        InlineOp::PutArgument { .. }
        | InlineOp::PutLocal { .. }
        | InlineOp::PutLocalChecked { .. }
        | InlineOp::Drop
        | InlineOp::Dup
        | InlineOp::Increment
        | InlineOp::Decrement
        | InlineOp::PostIncrement
        | InlineOp::PostDecrement
        | InlineOp::GetProperty(_)
        | InlineOp::GetPropertyKeep(_)
        | InlineOp::Return => 1,
        InlineOp::Swap | InlineOp::Binary(_) | InlineOp::SetProperty(_) => 2,
        _ => 0,
    }
}

/// The instruction may run code of its own, after which the frame's own code
/// may be retired.
pub open spec fn reenters(op: InlineOp) -> bool {
    match op {
        InlineOp::GetArgument(_)
        | InlineOp::GetLocal(_)
        | InlineOp::GetLocalChecked(_)
        | InlineOp::PutArgument { .. }
        | InlineOp::PutLocal { .. }
        | InlineOp::PutLocalChecked { .. }
        | InlineOp::SetLocalUninitialized(_)
        | InlineOp::Drop
        | InlineOp::Dup
        | InlineOp::GetProperty(_)
        | InlineOp::GetPropertyKeep(_)
        | InlineOp::SetProperty(_)
        | InlineOp::Call { .. } => true,
        _ => false,
    }
}

pub open spec fn extra(has_this: bool) -> int {
    if has_this {
        1
    } else {
        0
    }
}

/// The block ends with the instruction.
pub open spec fn stops(op: InlineOp, boundary: InlineBoundary, depth: int) -> bool {
    match op {
        InlineOp::Push(value) => !pushable(value),
        InlineOp::Binary(op) => !has_checked_form(op),
        // A tail call has no result here; the interpreter executes it.
        InlineOp::Call { argc, has_this } => boundary.stack_after != depth - argc - extra(has_this),
        InlineOp::Jump(_)
        | InlineOp::Branch { .. }
        | InlineOp::Return
        | InlineOp::ReturnUndefined
        | InlineOp::Other => true,
        _ => false,
    }
}

pub open spec fn boundary_at(region: FrameRegion, pc: u32) -> Option<int> {
    first_at(|i: int| region.boundaries@[i].pc == pc, region.boundaries@.len())
}

pub open spec fn block_at(region: FrameRegion, pc: u32) -> Option<int> {
    first_at(|i: int| region.blocks@[i].start_pc == pc, region.blocks@.len())
}

pub open spec fn child_at(region: FrameRegion, pc: u32) -> Option<int> {
    first_at(|i: int| region.children@[i].pc == pc, region.children@.len())
}

/// What an instruction does that neither ends its block nor enters an inlined callee.
pub open spec fn work(
    f: InlineFrame<'_>,
    a: InlineAddresses,
    trace: Seq<Event>,
    op: InlineOp,
    boundary: InlineBoundary,
    depth: int,
    w: World,
) -> Turn {
    let pc = boundary.pc;
    let next = boundary.next_pc;
    match op {
        InlineOp::Push(value) => on(
            pair_stores(
                trace,
                a.stack + depth * 16,
                wrap(Ty::I64, (value.payload as i64) as int),
                wrap(Ty::I64, value.tag as int),
            ),
        ),
        InlineOp::GetArgument(_) | InlineOp::GetLocal(_) | InlineOp::GetLocalChecked(_) => got(
            f,
            a,
            trace,
            op,
            pc,
            next,
            depth,
            w,
        ),
        InlineOp::PutArgument { index, keep } => put(f, a, trace, false, index, keep, next, depth, w),
        InlineOp::PutLocal { index, keep } => put(f, a, trace, true, index, keep, next, depth, w),
        InlineOp::PutLocalChecked { index, initialize } => put_checked(
            f,
            a,
            trace,
            index,
            initialize,
            pc,
            next,
            depth,
            w,
        ),
        InlineOp::SetLocalUninitialized(index) => unset(f, a, trace, index, next, depth, w),
        InlineOp::Drop => freed(f, a, trace, f.flat_slot(depth - 1) as u32, next, depth, depth, w),
        InlineOp::Dup => duplicated(
            f,
            a,
            trace,
            f.flat_slot(depth) as u32,
            f.flat_slot(depth - 1) as u32,
            next,
            depth + 1,
            depth,
            w,
        ),
        InlineOp::Swap => on(swapped(a, trace, depth - 2, depth - 1, w)),
        InlineOp::Binary(op) => binary(f, a, trace, op, pc, depth, w),
        InlineOp::Increment => updated(f, a, trace, true, false, pc, depth, w),
        InlineOp::Decrement => updated(f, a, trace, false, false, pc, depth, w),
        InlineOp::PostIncrement => updated(f, a, trace, true, true, pc, depth, w),
        InlineOp::PostDecrement => updated(f, a, trace, false, true, pc, depth, w),
        InlineOp::GetProperty(atom) => property_got(f, a, trace, atom, false, next, depth, w),
        InlineOp::GetPropertyKeep(atom) => property_got(f, a, trace, atom, true, next, depth, w),
        InlineOp::SetProperty(atom) => property_set(f, a, trace, atom, next, depth, w),
        InlineOp::Call { argc, has_this } => runtime_called(f, a, trace, argc, has_this, next, depth, w),
        _ => on(trace),
    }
}

/// Behind an instruction its depth is published, and code that may have been
/// retired meanwhile is left at the next one.
pub open spec fn settled(
    f: InlineFrame<'_>,
    a: InlineAddresses,
    trace: Seq<Event>,
    op: InlineOp,
    boundary: InlineBoundary,
    w: World,
) -> Turn {
    let topped = top_store(trace, *f.root.abi, a.frame, a.stack, boundary.stack_after as int);
    if reenters(op) {
        checked(f, a, topped, boundary.next_pc, w)
    } else {
        on(topped)
    }
}

pub open spec fn stepped(
    f: InlineFrame<'_>,
    a: InlineAddresses,
    trace: Seq<Event>,
    op: InlineOp,
    boundary: InlineBoundary,
    depth: int,
    w: World,
) -> Turn {
    let done = work(
        f,
        a,
        pc_store(trace, *f.root.abi, a.frame, boundary.pc, w),
        op,
        boundary,
        depth,
        w,
    );
    if done.end is On {
        settled(f, a, done.trace, op, boundary, w)
    } else {
        done
    }
}

pub open spec fn polled(f: InlineFrame<'_>, a: InlineAddresses, trace: Seq<Event>, pc: u32, depth: int, w: World) -> Turn {
    let asked = helped(f, a, trace, f.root.abi.helper_poll, Seq::empty(), pc, depth, depth, w);
    if asked.end is On {
        checked(f, a, asked.trace, pc, w)
    } else {
        asked
    }
}

/// The low bit of a converted truth value decides.
pub open spec fn branch_taken(payload: int, when_true: bool) -> bool {
    if when_true {
        wrap(Ty::I8, payload) != 0
    } else {
        wrap(Ty::I8, payload) != 1
    }
}

/// A branch on the operand on top, which is converted, checked and released
/// before control moves.
#[verifier::opaque]
pub open spec fn branched(
    f: InlineFrame<'_>,
    a: InlineAddresses,
    trace: Seq<Event>,
    boundary: InlineBoundary,
    depth: int,
    when_true: bool,
    target: usize,
    fallthrough: usize,
    w: World,
) -> Turn {
    let slot = f.flat_slot(depth - 1) as u32;
    let converted = helped(
        f,
        a,
        trace,
        f.root.abi.helper_to_bool,
        seq![0, slot, slot],
        boundary.pc,
        depth,
        depth,
        w,
    );
    if !(converted.end is On) {
        converted
    } else {
        let condition = loaded(converted.trace, a.stack + (depth - 1) * 16, w);
        let valid = checked(f, a, condition.trace, boundary.pc, w);
        if !(valid.end is On) {
            valid
        } else {
            let released = freed(f, a, valid.trace, slot, boundary.next_pc, depth, depth - 1, w);
            if !(released.end is On) {
                released
            } else {
                Turn {
                    end: End::At(
                        if branch_taken(condition.payload, when_true) {
                            target
                        } else {
                            fallthrough
                        },
                    ),
                    trace: top_store(released.trace, *f.root.abi, a.frame, a.stack, depth - 1),
                }
            }
        }
    }
}

/// Where a jump or a branch leads.
pub open spec fn transferred(
    f: InlineFrame<'_>,
    a: InlineAddresses,
    trace: Seq<Event>,
    natives: Seq<usize>,
    block: int,
    op: InlineOp,
    boundary: InlineBoundary,
    depth: int,
    w: World,
) -> Turn {
    match op {
        InlineOp::Jump(target) => Turn { end: End::At(natives[block_at(f.body(), target)->Some_0]), trace },
        InlineOp::Branch { target, when_true } => branched(
            f,
            a,
            trace,
            boundary,
            depth,
            when_true,
            natives[block_at(f.body(), target)->Some_0],
            natives[block + 1],
            w,
        ),
        _ => on(trace),
    }
}

/// What an instruction does that ends its block, behind its origin.
pub open spec fn finished(
    f: InlineFrame<'_>,
    a: InlineAddresses,
    trace: Seq<Event>,
    natives: Seq<usize>,
    continuation: usize,
    block: int,
    op: InlineOp,
    boundary: InlineBoundary,
    depth: int,
    w: World,
) -> Turn {
    let last_pc = f.body().boundaries@.last().pc;
    match op {
        InlineOp::Binary(op) => binary(f, a, trace, op, boundary.pc, depth, w),
        InlineOp::Jump(_) | InlineOp::Branch { .. } => transferred(f, a, trace, natives, block, op, boundary, depth, w),
        InlineOp::Return => leaves(f, a, trace, depth - 1, continuation, last_pc, w),
        InlineOp::ReturnUndefined => leaves(
            f,
            a,
            top_store(
                pair_stores(trace, a.stack + depth * 16, 0, JS_TAG_UNDEFINED as int),
                *f.root.abi,
                a.frame,
                a.stack,
                depth + 1,
            ),
            depth,
            continuation,
            last_pc,
            w,
        ),
        _ => left(resumed(f, a, trace, boundary.pc, false, w)),
    }
}

/// What an instruction does that ends its block.
pub open spec fn ended(
    f: InlineFrame<'_>,
    a: InlineAddresses,
    trace: Seq<Event>,
    natives: Seq<usize>,
    continuation: usize,
    block: int,
    op: InlineOp,
    boundary: InlineBoundary,
    depth: int,
    w: World,
) -> Turn {
    finished(
        f,
        a,
        pc_store(trace, *f.root.abi, a.frame, boundary.pc, w),
        natives,
        continuation,
        block,
        op,
        boundary,
        depth,
        w,
    )
}

/// The runtime offers what an instruction asks of it.
pub open spec fn work_offered(o: Offers, op: InlineOp) -> bool {
    match op {
        InlineOp::GetArgument(_) | InlineOp::GetLocal(_) | InlineOp::GetLocalChecked(_) | InlineOp::Dup => o.dup && o.resume,
        InlineOp::PutArgument { keep, .. } | InlineOp::PutLocal { keep, .. } => o.free && o.resume && (keep ==> o.dup),
        InlineOp::PutLocalChecked { .. } | InlineOp::SetLocalUninitialized(_) | InlineOp::Drop => o.free && o.resume,
        InlineOp::Binary(_)
        | InlineOp::Increment
        | InlineOp::Decrement
        | InlineOp::PostIncrement
        | InlineOp::PostDecrement => o.resume,
        InlineOp::GetProperty(_) => o.get_property && o.resume && o.free,
        InlineOp::GetPropertyKeep(_) => o.get_property && o.resume,
        InlineOp::SetProperty(_) => o.set_property && o.free && o.resume,
        InlineOp::Call { .. } => o.call && o.free && o.resume,
        _ => true,
    }
}

/// What may run code asks afterwards whether the frame is still valid.
pub open spec fn settle_offered(o: Offers, op: InlineOp) -> bool {
    reenters(op) ==> o.check && o.resume
}

pub open spec fn poll_offered(o: Offers) -> bool {
    o.poll && o.resume && o.check
}

/// The runtime offers what a block's last instruction asks of it.
pub open spec fn end_offered(o: Offers, op: InlineOp) -> bool {
    match op {
        InlineOp::Jump(_) => true,
        InlineOp::Branch { .. } => o.to_bool && o.resume && o.check && o.free,
        InlineOp::Return | InlineOp::ReturnUndefined => o.leave && o.resume,
        _ => o.resume,
    }
}

/// The targets of a block's last instruction exist.
pub open spec fn end_ok(region: FrameRegion, block: int, op: InlineOp, depth: int) -> bool {
    match op {
        InlineOp::Jump(target) => block_at(region, target) is Some,
        InlineOp::Branch { target, .. } => depth >= 1 && block_at(region, target) is Some && block + 1
            < region.blocks@.len(),
        _ => true,
    }
}

pub(crate) fn find_boundary(region: &FrameRegion, pc: u32) -> (r: Option<usize>)
    ensures
        match r {
            Some(i) => boundary_at(*region, pc) == Some(i as int) && i < region.boundaries@.len()
                && region.boundaries@[i as int].pc == pc,
            None => boundary_at(*region, pc) is None,
        },
{
    let ghost f = |i: int| region.boundaries@[i].pc == pc;
    let mut i: usize = 0;
    while i < region.boundaries.len()
        invariant
            i <= region.boundaries@.len(),
            f == (|i: int| region.boundaries@[i].pc == pc),
            forall|k: int| 0 <= k < i ==> !#[trigger] f(k),
        decreases region.boundaries@.len() - i,
    {
        if region.boundaries[i].pc == pc {
            proof {
                first_at_is(f, region.boundaries@.len(), i as int);
            }
            return Some(i);
        }
        i = i + 1;
    }
    proof {
        first_at_none(f, region.boundaries@.len());
    }
    None
}

fn find_block(region: &FrameRegion, pc: u32) -> (r: Option<usize>)
    ensures
        match r {
            Some(i) => block_at(*region, pc) == Some(i as int) && i < region.blocks@.len(),
            None => block_at(*region, pc) is None,
        },
{
    let ghost f = |i: int| region.blocks@[i].start_pc == pc;
    let mut i: usize = 0;
    while i < region.blocks.len()
        invariant
            i <= region.blocks@.len(),
            f == (|i: int| region.blocks@[i].start_pc == pc),
            forall|k: int| 0 <= k < i ==> !#[trigger] f(k),
        decreases region.blocks@.len() - i,
    {
        if region.blocks[i].start_pc == pc {
            proof {
                first_at_is(f, region.blocks@.len(), i as int);
            }
            return Some(i);
        }
        i = i + 1;
    }
    proof {
        first_at_none(f, region.blocks@.len());
    }
    None
}

pub(crate) fn find_child(region: &FrameRegion, pc: u32) -> (r: Option<usize>)
    ensures
        match r {
            Some(i) => child_at(*region, pc) == Some(i as int) && i < region.children@.len(),
            None => child_at(*region, pc) is None,
        },
{
    let ghost f = |i: int| region.children@[i].pc == pc;
    let mut i: usize = 0;
    while i < region.children.len()
        invariant
            i <= region.children@.len(),
            f == (|i: int| region.children@[i].pc == pc),
            forall|k: int| 0 <= k < i ==> !#[trigger] f(k),
        decreases region.children@.len() - i,
    {
        if region.children[i].pc == pc {
            proof {
                first_at_is(f, region.children@.len(), i as int);
            }
            return Some(i);
        }
        i = i + 1;
    }
    proof {
        first_at_none(f, region.children@.len());
    }
    None
}

/// Whether the block goes on behind the instruction.
pub(crate) fn ends_block(op: InlineOp, boundary: InlineBoundary, depth: usize) -> (r: bool)
    requires
        depth <= 0xffff,
    ensures
        r == stops(op, boundary, depth as int),
{
    match op {
        InlineOp::Push(value) => !((value.tag as u32) < FIRST_COUNTED_TAG),
        InlineOp::Binary(op) => matches!(
            op,
            FrameBinaryOp::Div | FrameBinaryOp::Mod | FrameBinaryOp::Shl | FrameBinaryOp::Sar | FrameBinaryOp::Shr
        ),
        InlineOp::Call { argc, has_this } => boundary.stack_after as usize + argc as usize + (if has_this {
            1
        } else {
            0
        }) != depth,
        InlineOp::Jump(_)
        | InlineOp::Branch { .. }
        | InlineOp::Return
        | InlineOp::ReturnUndefined
        | InlineOp::Other => true,
        _ => false,
    }
}

fn may_reenter(op: InlineOp) -> (r: bool)
    ensures
        r == reenters(op),
{
    matches!(
        op,
        InlineOp::GetArgument(_) | InlineOp::GetLocal(_) | InlineOp::GetLocalChecked(_) | InlineOp::PutArgument { .. }
            | InlineOp::PutLocal { .. } | InlineOp::PutLocalChecked { .. } | InlineOp::SetLocalUninitialized(_)
            | InlineOp::Drop | InlineOp::Dup | InlineOp::GetProperty(_) | InlineOp::GetPropertyKeep(_)
            | InlineOp::SetProperty(_) | InlineOp::Call { .. }
    )
}

/// The code `c2` continues `c1` by what `turn` says of every world.
pub open spec fn does(f: InlineFrame<'_>, c1: Seq<Inst>, c2: Seq<Inst>, turn: spec_fn(InlineAddresses, Seq<Event>, World) -> Turn) -> bool {
    c1.len() <= c2.len() && forall|w: World|
        match #[trigger] status(c1, w) {
            Status::Run(s) => turned(status(c2, w), s, c1.len() as int, turn(f.addresses(s), s.trace, w)),
            st => status(c2, w) == st,
        }
}

impl<'a> InlineFrame<'a> {
    /// Pushes a constant.
    fn push_constant(&self, code: &mut Code, value: TaggedValue, depth: usize)
        requires
            self.wf(old(code).len()),
            depth <= 0xffff,
        ensures
            kept(*old(code), *final(code)),
            self.typed(*old(code)) ==> steady(*old(code), *final(code)),
            final(code).len() > old(code).len(),
            forall|w: World|
                #![trigger final(code).at(w)]
                match old(code).at(w) {
                    Status::Run(s) => runs_on(
                        final(code).at(w),
                        s,
                        old(code).len(),
                        s.vars,
                        pair_stores(
                            s.trace,
                            self.addresses(s).stack + depth * 16,
                            wrap(Ty::I64, (value.payload as i64) as int),
                            wrap(Ty::I64, value.tag as int),
                        ),
                    ),
                    st => final(code).at(w) == st,
                },
    {
        let payload = code.iconst(Ty::I64, value.payload as i64);
        let tag = code.iconst(Ty::I64, value.tag);
        opt_store(code, self.ids.stack, depth, OptPair { payload, tag }, Ty::I64);
    }

    /// Emits `work`.
    fn emit_work(&self, code: &mut Code, op: InlineOp, boundary: InlineBoundary, depth: usize) -> (r: Result<
        (),
        CompileFailure,
    >)
        requires
            self.wf(old(code).len()),
            operands(op) <= depth <= 0xffff,
            op matches InlineOp::Call { argc, has_this } ==> call_base(argc, has_this, depth as int) >= 0,
        ensures
            kept(*old(code), *final(code)),
            r is Ok && self.typed(*old(code))
                && (op matches InlineOp::Binary(operation) ==> has_checked_form(operation))
                ==> steady(*old(code), *final(code)),
            r is Ok <==> work_offered(self.offers(), op),
            r is Err ==> r == Err::<(), CompileFailure>(CompileFailure::InvalidArtifact),
            final(code).len() >= old(code).len(),
            r is Ok ==> forall|w: World|
                #![trigger final(code).at(w)]
                match old(code).at(w) {
                    Status::Run(s) => turned(
                        final(code).at(w),
                        s,
                        old(code).len(),
                        work(*self, self.addresses(s), s.trace, op, boundary, depth as int, w),
                    ),
                    st => final(code).at(w) == st,
                },
    {
        let pc = boundary.pc;
        let next = boundary.next_pc;
        match op {
            InlineOp::Push(value) => {
                self.push_constant(code, value, depth);
                Ok(())
            },
            InlineOp::GetArgument(_) | InlineOp::GetLocal(_) | InlineOp::GetLocalChecked(_) => self.get_slot(
                code,
                op,
                pc,
                next,
                depth,
            ),
            InlineOp::PutArgument { index, keep } => self.put_slot(code, false, index, keep, next, depth),
            InlineOp::PutLocal { index, keep } => self.put_slot(code, true, index, keep, next, depth),
            InlineOp::PutLocalChecked { index, initialize } => self.put_checked_slot(
                code,
                index,
                initialize,
                pc,
                next,
                depth,
            ),
            InlineOp::SetLocalUninitialized(index) => self.unset_local(code, index, next, depth),
            InlineOp::Drop => self.free(code, self.flat(depth - 1), next, depth, depth),
            InlineOp::Dup => self.duplicate(code, self.flat(depth), self.flat(depth - 1), next, depth + 1, depth),
            InlineOp::Swap => {
                self.swap_slots(code, depth - 2, depth - 1);
                Ok(())
            },
            InlineOp::Binary(op) => self.compute(code, op, pc, depth),
            InlineOp::Increment => self.update(code, true, false, pc, depth),
            InlineOp::Decrement => self.update(code, false, false, pc, depth),
            InlineOp::PostIncrement => self.update(code, true, true, pc, depth),
            InlineOp::PostDecrement => self.update(code, false, true, pc, depth),
            InlineOp::GetProperty(atom) => self.get_property(code, atom, false, next, depth),
            InlineOp::GetPropertyKeep(atom) => self.get_property(code, atom, true, next, depth),
            InlineOp::SetProperty(atom) => self.set_property(code, atom, next, depth),
            InlineOp::Call { argc, has_this } => self.call_runtime(code, argc, has_this, next, depth),
            _ => Ok(()),
        }
    }

    /// Emits `settled`.
    pub(crate) fn settle(&self, code: &mut Code, op: InlineOp, boundary: InlineBoundary) -> (r: Result<(), CompileFailure>)
        requires
            self.wf(old(code).len()),
        ensures
            kept(*old(code), *final(code)),
            r is Ok && self.typed(*old(code)) ==> steady(*old(code), *final(code)),
            r is Ok <==> settle_offered(self.offers(), op),
            r is Err ==> r == Err::<(), CompileFailure>(CompileFailure::InvalidArtifact),
            final(code).len() >= old(code).len(),
            r is Ok ==> forall|w: World|
                #![trigger final(code).at(w)]
                match old(code).at(w) {
                    Status::Run(s) => turned(
                        final(code).at(w),
                        s,
                        old(code).len(),
                        settled(*self, self.addresses(s), s.trace, op, boundary, w),
                    ),
                    st => final(code).at(w) == st,
                },
    {
        self.depth(code, boundary.stack_after as usize);
        let ghost c1 = *code;
        if may_reenter(op) {
            if let Err(e) = self.check(code, boundary.next_pc) {
                return Err(e);
            }
        }
        proof {
            assert forall|w: World|
                #![trigger code.at(w)]
                match old(code).at(w) {
                    Status::Run(s) => turned(
                        code.at(w),
                        s,
                        old(code).len(),
                        settled(*self, self.addresses(s), s.trace, op, boundary, w),
                    ),
                    st => code.at(w) == st,
                } by {
                let a1 = c1.at(w);
            }
        }
        Ok(())
    }

    /// Emits `stepped`.
    pub(crate) fn emit_step(&self, code: &mut Code, op: InlineOp, boundary: InlineBoundary, depth: usize) -> (r: Result<
        (),
        CompileFailure,
    >)
        requires
            self.wf(old(code).len()),
            operands(op) <= depth <= 0xffff,
            op matches InlineOp::Call { argc, has_this } ==> call_base(argc, has_this, depth as int) >= 0,
        ensures
            kept(*old(code), *final(code)),
            r is Ok && self.typed(*old(code))
                && (op matches InlineOp::Binary(operation) ==> has_checked_form(operation))
                ==> steady(*old(code), *final(code)),
            r is Ok <==> work_offered(self.offers(), op) && settle_offered(self.offers(), op),
            r is Err ==> r == Err::<(), CompileFailure>(CompileFailure::InvalidArtifact),
            r is Ok ==> does(
                *self,
                old(code).insts@,
                final(code).insts@,
                |a: InlineAddresses, t: Seq<Event>, w: World| stepped(*self, a, t, op, boundary, depth as int, w),
            ),
    {
        self.origin(code, boundary.pc);
        let ghost c1 = *code;
        if let Err(e) = self.emit_work(code, op, boundary, depth) {
            return Err(e);
        }
        let ghost c2 = *code;
        if let Err(e) = self.settle(code, op, boundary) {
            return Err(e);
        }
        proof {
            assert forall|w: World|
                match #[trigger] status(old(code).insts@, w) {
                    Status::Run(s) => turned(
                        status(code.insts@, w),
                        s,
                        old(code).len(),
                        stepped(*self, self.addresses(s), s.trace, op, boundary, depth as int, w),
                    ),
                    st => status(code.insts@, w) == st,
                } by {
                let a0 = old(code).at(w);
                let a1 = c1.at(w);
                let a2 = c2.at(w);
                let a3 = code.at(w);
            }
        }
        Ok(())
    }

    /// Emits `polled`.
    pub(crate) fn emit_poll(&self, code: &mut Code, pc: u32, depth: usize) -> (r: Result<(), CompileFailure>)
        requires
            self.wf(old(code).len()),
            depth <= 0xffff,
        ensures
            kept(*old(code), *final(code)),
            r is Ok && self.typed(*old(code)) ==> steady(*old(code), *final(code)),
            r is Ok <==> poll_offered(self.offers()),
            r is Err ==> r == Err::<(), CompileFailure>(CompileFailure::InvalidArtifact),
            r is Ok ==> does(
                *self,
                old(code).insts@,
                final(code).insts@,
                |a: InlineAddresses, t: Seq<Event>, w: World| polled(*self, a, t, pc, depth as int, w),
            ),
    {
        let words: Vec<u32> = Vec::new();
        if let Err(e) = self.helper(code, self.root.abi.helper_poll, &words, pc, depth, depth) {
            return Err(e);
        }
        let ghost c1 = *code;
        if let Err(e) = self.check(code, pc) {
            return Err(e);
        }
        proof {
            assert(words@ =~= Seq::<u32>::empty());
            assert forall|w: World|
                match #[trigger] status(old(code).insts@, w) {
                    Status::Run(s) => turned(
                        status(code.insts@, w),
                        s,
                        old(code).len(),
                        polled(*self, self.addresses(s), s.trace, pc, depth as int, w),
                    ),
                    st => status(code.insts@, w) == st,
                } by {
                let a0 = old(code).at(w);
                let a1 = c1.at(w);
                let a3 = code.at(w);
            }
        }
        Ok(())
    }

    /// Emits `branched`.
    #[verifier::rlimit(40)]
    fn emit_branch(
        &self,
        code: &mut Code,
        boundary: InlineBoundary,
        depth: usize,
        when_true: bool,
        target: usize,
        fallthrough: usize,
    ) -> (r: Result<(), CompileFailure>)
        requires
            self.wf(old(code).len()),
            1 <= depth <= 0xffff,
            target < old(code).len(),
            fallthrough < old(code).len(),
        ensures
            kept(*old(code), *final(code)),
            r is Ok && self.typed(*old(code)) && old(code).blocked(target) && old(code).blocked(fallthrough)
                ==> closing(*old(code), *final(code)),
            r is Ok <==> end_offered(self.offers(), (InlineOp::Branch { target: 0, when_true })),
            r is Err ==> r == Err::<(), CompileFailure>(CompileFailure::InvalidArtifact),
            final(code).len() >= old(code).len(),
            r is Ok ==> forall|w: World|
                #![trigger final(code).at(w)]
                match old(code).at(w) {
                    Status::Run(s) => turned(
                        final(code).at(w),
                        s,
                        old(code).len(),
                        branched(
                            *self,
                            self.addresses(s),
                            s.trace,
                            boundary,
                            depth as int,
                            when_true,
                            target,
                            fallthrough,
                            w,
                        ),
                    ),
                    st => final(code).at(w) == st,
                },
    {
        let slot = self.flat(depth - 1);
        let mut words: Vec<u32> = Vec::new();
        words.push(0);
        words.push(slot);
        words.push(slot);
        assert(words@ =~= seq![0, slot, slot]);
        if let Err(e) = self.helper(code, self.root.abi.helper_to_bool, &words, boundary.pc, depth, depth) {
            return Err(e);
        }
        let ghost c1 = *code;
        let condition = opt_load(code, self.ids.stack, depth - 1);
        let low = code.convert(ConvertOp::Reduce, Ty::I64, Ty::I8, condition.payload);
        let ghost c2 = *code;
        // The successor is not committed yet: code that was retired by the
        // conversion branches again, on the equivalent truth value.
        if let Err(e) = self.check(code, boundary.pc) {
            return Err(e);
        }
        let ghost c3 = *code;
        if let Err(e) = self.free(code, slot, boundary.next_pc, depth, depth - 1) {
            return Err(e);
        }
        let ghost c4 = *code;
        self.depth(code, depth - 1);
        let ghost c5 = *code;
        let taken = if when_true {
            low
        } else {
            code.binary_imm(BinaryOp::Xor, Ty::I8, low, 1)
        };
        let ghost c6 = *code;
        code.branch(taken, target, fallthrough);
        proof {
            reveal(branched);
            assert forall|w: World|
                #![trigger code.at(w)]
                match old(code).at(w) {
                    Status::Run(s) => turned(
                        code.at(w),
                        s,
                        old(code).len(),
                        branched(
                            *self,
                            self.addresses(s),
                            s.trace,
                            boundary,
                            depth as int,
                            when_true,
                            target,
                            fallthrough,
                            w,
                        ),
                    ),
                    st => code.at(w) == st,
                } by {
                let a1 = c1.at(w);
                let a2 = c2.at(w);
                let a3 = c3.at(w);
                let a4 = c4.at(w);
                let a5 = c5.at(w);
                let a6 = c6.at(w);
                if let Status::Run(t) = a5 {
                    xor_one(t.vals[low as int]);
                }
            }
        }
        Ok(())
    }

    /// Emits `transferred`.
    fn transfer(
        &self,
        code: &mut Code,
        natives: &Vec<usize>,
        block: usize,
        op: InlineOp,
        boundary: InlineBoundary,
        depth: usize,
    ) -> (r: Result<(), CompileFailure>)
        requires
            self.wf(old(code).len()),
            operands(op) <= depth <= 0xffff,
            op is Jump || op is Branch,
            natives@.len() == self.body().blocks@.len(),
            forall|i: int| 0 <= i < natives@.len() ==> #[trigger] natives@[i] < old(code).len(),
            block < natives@.len(),
        ensures
            kept(*old(code), *final(code)),
            r is Ok && self.typed(*old(code))
                && (forall|i: int| 0 <= i < natives@.len() ==> old(code).blocked(#[trigger] natives@[i]))
                ==> closing(*old(code), *final(code)),
            r is Ok <==> end_ok(self.body(), block as int, op, depth as int) && end_offered(self.offers(), op),
            r is Err ==> r == Err::<(), CompileFailure>(CompileFailure::InvalidArtifact),
            final(code).len() >= old(code).len(),
            r is Ok ==> forall|w: World|
                #![trigger final(code).at(w)]
                match old(code).at(w) {
                    Status::Run(s) => turned(
                        final(code).at(w),
                        s,
                        old(code).len(),
                        transferred(
                            *self,
                            self.addresses(s),
                            s.trace,
                            natives@,
                            block as int,
                            op,
                            boundary,
                            depth as int,
                            w,
                        ),
                    ),
                    st => final(code).at(w) == st,
                },
    {
        let region = &self.regions[self.region];
        let target_pc: u32 = match op {
            InlineOp::Jump(target) => target,
            InlineOp::Branch { target, .. } => target,
            _ => 0,
        };
        let target = match find_block(region, target_pc) {
            Some(i) => natives[i],
            None => {
                return Err(CompileFailure::InvalidArtifact);
            },
        };
        if let InlineOp::Branch { when_true, .. } = op {
            if depth == 0 || natives.len() - block <= 1 {
                return Err(CompileFailure::InvalidArtifact);
            }
            let fallthrough = natives[block + 1];
            if let Err(e) = self.emit_branch(code, boundary, depth, when_true, target, fallthrough) {
                return Err(e);
            }
        } else {
            code.jump(target);
        }
        proof {
            assert forall|w: World|
                #![trigger code.at(w)]
                match old(code).at(w) {
                    Status::Run(s) => turned(
                        code.at(w),
                        s,
                        old(code).len(),
                        transferred(
                            *self,
                            self.addresses(s),
                            s.trace,
                            natives@,
                            block as int,
                            op,
                            boundary,
                            depth as int,
                            w,
                        ),
                    ),
                    st => code.at(w) == st,
                } by {
                let a0 = old(code).at(w);
                assert(natives@[block_at(self.body(), target_pc)->Some_0] == target);
            }
        }
        Ok(())
    }

    /// Emits `finished`.
    fn finish(
        &self,
        code: &mut Code,
        natives: &Vec<usize>,
        continuation: usize,
        block: usize,
        op: InlineOp,
        boundary: InlineBoundary,
        depth: usize,
    ) -> (r: Result<(), CompileFailure>)
        requires
            self.wf(old(code).len()),
            operands(op) <= depth <= 0xffff,
            stops(op, boundary, depth as int),
            natives@.len() == self.body().blocks@.len(),
            forall|i: int| 0 <= i < natives@.len() ==> #[trigger] natives@[i] < old(code).len(),
            continuation < old(code).len(),
            block < natives@.len(),
            self.body().boundaries@.len() > 0,
        ensures
            kept(*old(code), *final(code)),
            r is Ok && self.typed(*old(code))
                && (forall|i: int| 0 <= i < natives@.len() ==> old(code).blocked(#[trigger] natives@[i]))
                && old(code).blocked(continuation)
                ==> closing(*old(code), *final(code)),
            r is Ok <==> end_ok(self.body(), block as int, op, depth as int) && end_offered(self.offers(), op),
            r is Err ==> r == Err::<(), CompileFailure>(CompileFailure::InvalidArtifact),
            final(code).len() >= old(code).len(),
            r is Ok ==> forall|w: World|
                #![trigger final(code).at(w)]
                match old(code).at(w) {
                    Status::Run(s) => turned(
                        final(code).at(w),
                        s,
                        old(code).len(),
                        finished(
                            *self,
                            self.addresses(s),
                            s.trace,
                            natives@,
                            continuation,
                            block as int,
                            op,
                            boundary,
                            depth as int,
                            w,
                        ),
                    ),
                    st => final(code).at(w) == st,
                },
    {
        match op {
            InlineOp::Binary(op) => self.decline(code, op, boundary.pc, depth),
            InlineOp::Jump(_) | InlineOp::Branch { .. } => self.transfer(
                code,
                natives,
                block,
                op,
                boundary,
                depth,
            ),
            InlineOp::Return => self.leave(code, depth - 1, continuation),
            InlineOp::ReturnUndefined => self.leave_undefined(code, depth, continuation),
            _ => self.resume(code, boundary.pc, false),
        }
    }

    /// Emits `ended`.
    pub(crate) fn emit_end(
        &self,
        code: &mut Code,
        natives: &Vec<usize>,
        continuation: usize,
        block: usize,
        op: InlineOp,
        boundary: InlineBoundary,
        depth: usize,
    ) -> (r: Result<(), CompileFailure>)
        requires
            self.wf(old(code).len()),
            operands(op) <= depth <= 0xffff,
            stops(op, boundary, depth as int),
            natives@.len() == self.body().blocks@.len(),
            forall|i: int| 0 <= i < natives@.len() ==> #[trigger] natives@[i] < old(code).len(),
            continuation < old(code).len(),
            block < natives@.len(),
            self.body().boundaries@.len() > 0,
        ensures
            kept(*old(code), *final(code)),
            r is Ok && self.typed(*old(code))
                && (forall|i: int| 0 <= i < natives@.len() ==> old(code).blocked(#[trigger] natives@[i]))
                && old(code).blocked(continuation)
                ==> closing(*old(code), *final(code)),
            r is Ok <==> end_ok(self.body(), block as int, op, depth as int) && end_offered(self.offers(), op),
            r is Err ==> r == Err::<(), CompileFailure>(CompileFailure::InvalidArtifact),
            r is Ok ==> does(
                *self,
                old(code).insts@,
                final(code).insts@,
                |a: InlineAddresses, t: Seq<Event>, w: World|
                    ended(*self, a, t, natives@, continuation, block as int, op, boundary, depth as int, w),
            ),
    {
        self.origin(code, boundary.pc);
        let ghost c1 = *code;
        if let Err(e) = self.finish(code, natives, continuation, block, op, boundary, depth) {
            return Err(e);
        }
        proof {
            assert forall|w: World|
                match #[trigger] status(old(code).insts@, w) {
                    Status::Run(s) => turned(
                        status(code.insts@, w),
                        s,
                        old(code).len(),
                        ended(
                            *self,
                            self.addresses(s),
                            s.trace,
                            natives@,
                            continuation,
                            block as int,
                            op,
                            boundary,
                            depth as int,
                            w,
                        ),
                    ),
                    st => status(code.insts@, w) == st,
                } by {
                let a0 = old(code).at(w);
                let a1 = c1.at(w);
                let a3 = code.at(w);
            }
        }
        Ok(())
    }

    /// Leaves the frame with the result `undefined`.
    fn leave_undefined(&self, code: &mut Code, depth: usize, continuation: usize) -> (r: Result<(), CompileFailure>)
        requires
            self.wf(old(code).len()),
            depth <= 0xffff,
            continuation < old(code).len(),
            self.body().boundaries@.len() > 0,
        ensures
            kept(*old(code), *final(code)),
            r is Ok && self.typed(*old(code)) && old(code).blocked(continuation) ==> closing(*old(code), *final(code)),
            r is Ok <==> end_offered(self.offers(), InlineOp::ReturnUndefined),
            r is Err ==> r == Err::<(), CompileFailure>(CompileFailure::InvalidArtifact),
            final(code).len() >= old(code).len(),
            r is Ok ==> forall|w: World|
                #![trigger final(code).at(w)]
                match old(code).at(w) {
                    Status::Run(s) => turned(
                        final(code).at(w),
                        s,
                        old(code).len(),
                        leaves(
                            *self,
                            self.addresses(s),
                            top_store(
                                pair_stores(
                                    s.trace,
                                    self.addresses(s).stack + depth * 16,
                                    0,
                                    JS_TAG_UNDEFINED as int,
                                ),
                                *self.root.abi,
                                self.addresses(s).frame,
                                self.addresses(s).stack,
                                depth + 1,
                            ),
                            depth as int,
                            continuation,
                            self.body().boundaries@.last().pc,
                            w,
                        ),
                    ),
                    st => final(code).at(w) == st,
                },
    {
        let empty = undefined(code);
        let ghost c1 = *code;
        opt_store(code, self.ids.stack, depth, empty, Ty::I64);
        let ghost c2 = *code;
        self.depth(code, depth + 1);
        let ghost c3 = *code;
        if let Err(e) = self.leave(code, depth, continuation) {
            return Err(e);
        }
        proof {
            assert forall|w: World|
                #![trigger code.at(w)]
                match old(code).at(w) {
                    Status::Run(s) => turned(
                        code.at(w),
                        s,
                        old(code).len(),
                        leaves(
                            *self,
                            self.addresses(s),
                            top_store(
                                pair_stores(
                                    s.trace,
                                    self.addresses(s).stack + depth * 16,
                                    0,
                                    JS_TAG_UNDEFINED as int,
                                ),
                                *self.root.abi,
                                self.addresses(s).frame,
                                self.addresses(s).stack,
                                depth + 1,
                            ),
                            depth as int,
                            continuation,
                            self.body().boundaries@.last().pc,
                            w,
                        ),
                    ),
                    st => code.at(w) == st,
                } by {
                let a1 = c1.at(w);
                let a2 = c2.at(w);
                let a3 = c3.at(w);
            }
        }
        Ok(())
    }
}

proof fn xor_one(x: int)
    requires
        -0x80 <= x < 0x80,
    ensures
        (binary_value(BinaryOp::Xor, Ty::I8, x, 1) != 0) == (x != 1),
{
    let a = x as i64;
    assert((a ^ 1 != 0) == (a != 1)) by (bit_vector);
}

} // verus!
