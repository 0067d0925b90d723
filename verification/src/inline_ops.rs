//! The instructions of inlined bytecode, on a frame in memory.
use crate::checks::read;
use crate::checks::seen;
use crate::code::value;
use crate::code::waits_for_known_blocks;
use crate::code::wrap;
use crate::code::kept;
use crate::code::Code;
use crate::code::Event;
use crate::code::IntCc;
use crate::code::Status;
use crate::code::Ty;
use crate::code::World;
use crate::control::CompileFailure;
use crate::frame::helper_known;
use crate::frame::runs_on;
use crate::inline_frames::freed;
use crate::inline_frames::helped;
use crate::inline_frames::left;
use crate::inline_frames::on;
use crate::inline_frames::resumed;
use crate::inline_frames::turned;
use crate::inline_frames::InlineAddresses;
use crate::inline_frames::InlineFrame;
use crate::inline_frames::InlineOp;
use crate::inline_frames::Turn;
use crate::lower_values::checked_binary;
use crate::lower_values::exact_result;
use crate::lower_values::has_checked_form;
use crate::lower_values::opt_load;
use crate::lower_values::opt_store;
use crate::lower_values::pair_stores;
use crate::lower_values::result_tag;
use crate::lower_values::stays_integer;
use crate::lower_values::undefined;
use crate::lower_values::FrameBinaryOp;
use crate::lower_values::OptPair;
use crate::qjs::JS_TAG_INT;
use crate::qjs::JS_TAG_UNDEFINED;
use crate::qjs::JS_TAG_UNINITIALIZED;
use crate::typing::steady;
use crate::typing::closing;
use crate::typing::calm;
use crate::assemble::Known;
use crate::frame_typing::pair_held;
use crate::frame_typing::slot_named;
use crate::frame_typing::slots_named;
use crate::frame_typing::cached_named;
use crate::frame_typing::cache_named;
use crate::frame_typing::word_types;
use vstd::prelude::*;

verus! {

broadcast use {crate::typing::group_typing, crate::frame_typing::group_frame};

/// A tagged value that was read, and what was observed by then.
pub struct Loaded {
    pub payload: int,
    pub tag: int,
    pub trace: Seq<Event>,
}

pub open spec fn loaded(trace: Seq<Event>, address: int, w: World) -> Loaded {
    let first = read(trace, Ty::I64, address, w);
    Loaded {
        payload: seen(trace, Ty::I64, w),
        tag: seen(first, Ty::I64, w),
        trace: read(first, Ty::I64, address + 8, w),
    }
}

/// A local that has not been initialized is left to the interpreter.
pub open spec fn initialized(f: InlineFrame<'_>, a: InlineAddresses, trace: Seq<Event>, index: u16, pc: u32, w: World) -> Turn {
    let local = loaded(trace, a.locals + index * 16, w);
    if local.tag != JS_TAG_UNINITIALIZED {
        on(local.trace)
    } else {
        left(resumed(f, a, local.trace, pc, false, w))
    }
}

/// A slot gets a reference to what another holds.
pub open spec fn duplicated(
    f: InlineFrame<'_>,
    a: InlineAddresses,
    trace: Seq<Event>,
    target: u32,
    source: u32,
    next: u32,
    live: int,
    depth: int,
    w: World,
) -> Turn {
    helped(f, a, trace, f.root.abi.helper_dup, seq![0, target, source], next, live, depth, w)
}

pub open spec fn reads_slot(op: InlineOp) -> bool {
    op is GetArgument || op is GetLocal || op is GetLocalChecked
}

/// The number of the slot that the instruction reads, among all of the frame.
pub open spec fn read_slot(f: InlineFrame<'_>, op: InlineOp) -> u32 {
    match op {
        InlineOp::GetArgument(index) => index as u32,
        InlineOp::GetLocal(index) | InlineOp::GetLocalChecked(index) => (f.body().argument_count + index) as u32,
        _ => 0,
    }
}

pub open spec fn got(
    f: InlineFrame<'_>,
    a: InlineAddresses,
    trace: Seq<Event>,
    op: InlineOp,
    pc: u32,
    next: u32,
    depth: int,
    w: World,
) -> Turn {
    let ready = match op {
        InlineOp::GetLocalChecked(index) => initialized(f, a, trace, index, pc, w),
        _ => on(trace),
    };
    if ready.end is On {
        duplicated(f, a, ready.trace, f.flat_slot(depth) as u32, read_slot(f, op), next, depth + 1, depth, w)
    } else {
        ready
    }
}

/// The value on top of the operand stack moves to an argument or local.
pub open spec fn moved(a: InlineAddresses, trace: Seq<Event>, local: bool, index: u16, depth: int, w: World) -> Seq<Event> {
    let top = loaded(trace, a.stack + (depth - 1) * 16, w);
    let buffer = if local {
        a.locals
    } else {
        a.arguments
    };
    pair_stores(
        pair_stores(top.trace, buffer + index * 16, top.payload, top.tag),
        a.stack + (depth - 1) * 16,
        0,
        JS_TAG_UNDEFINED as int,
    )
}

pub open spec fn put(
    f: InlineFrame<'_>,
    a: InlineAddresses,
    trace: Seq<Event>,
    local: bool,
    index: u16,
    keep: bool,
    next: u32,
    depth: int,
    w: World,
) -> Turn {
    let slot = if local {
        (f.body().argument_count + index) as u32
    } else {
        index as u32
    };
    let released = freed(f, a, trace, slot, next, depth, depth, w);
    if released.end is On {
        if keep {
            duplicated(f, a, released.trace, slot, f.flat_slot(depth - 1) as u32, next, depth, depth, w)
        } else {
            on(moved(a, released.trace, local, index, depth, w))
        }
    } else {
        released
    }
}

pub open spec fn put_checked(
    f: InlineFrame<'_>,
    a: InlineAddresses,
    trace: Seq<Event>,
    index: u16,
    initialize: bool,
    pc: u32,
    next: u32,
    depth: int,
    w: World,
) -> Turn {
    let ready = if initialize {
        on(trace)
    } else {
        initialized(f, a, trace, index, pc, w)
    };
    if ready.end is On {
        put(f, a, ready.trace, true, index, false, next, depth, w)
    } else {
        ready
    }
}

pub open spec fn unset(f: InlineFrame<'_>, a: InlineAddresses, trace: Seq<Event>, index: u16, next: u32, depth: int, w: World) -> Turn {
    let released = freed(f, a, trace, (f.body().argument_count + index) as u32, next, depth, depth, w);
    if released.end is On {
        on(pair_stores(released.trace, a.locals + index * 16, 0, JS_TAG_UNINITIALIZED as int))
    } else {
        released
    }
}

pub open spec fn swapped(a: InlineAddresses, trace: Seq<Event>, below: int, above: int, w: World) -> Seq<Event> {
    let lhs = loaded(trace, a.stack + below * 16, w);
    let rhs = loaded(lhs.trace, a.stack + above * 16, w);
    pair_stores(
        pair_stores(rhs.trace, a.stack + below * 16, rhs.payload, rhs.tag),
        a.stack + above * 16,
        lhs.payload,
        lhs.tag,
    )
}

/// The property replaces its receiver, which is released behind it.
pub open spec fn property_got(
    f: InlineFrame<'_>,
    a: InlineAddresses,
    trace: Seq<Event>,
    atom: u32,
    keep: bool,
    next: u32,
    depth: int,
    w: World,
) -> Turn {
    let fetched = helped(
        f,
        a,
        trace,
        f.root.abi.helper_get_property,
        seq![0, f.flat_slot(depth) as u32, f.flat_slot(depth - 1) as u32, atom],
        next,
        depth + 1,
        depth,
        w,
    );
    if keep || !(fetched.end is On) {
        fetched
    } else {
        freed(
            f,
            a,
            swapped(a, fetched.trace, depth - 1, depth, w),
            f.flat_slot(depth) as u32,
            next,
            depth + 1,
            depth,
            w,
        )
    }
}

pub open spec fn property_set(f: InlineFrame<'_>, a: InlineAddresses, trace: Seq<Event>, atom: u32, next: u32, depth: int, w: World) -> Turn {
    let stored = helped(
        f,
        a,
        trace,
        f.root.abi.helper_set_property,
        seq![0, f.flat_slot(depth - 2) as u32, atom, f.flat_slot(depth - 1) as u32],
        next,
        depth,
        depth,
        w,
    );
    if stored.end is On {
        freed(f, a, stored.trace, f.flat_slot(depth - 2) as u32, next, depth, depth, w)
    } else {
        stored
    }
}

pub open spec fn slots_freed(
    f: InlineFrame<'_>,
    a: InlineAddresses,
    trace: Seq<Event>,
    from: int,
    to: int,
    next: u32,
    depth: int,
    w: World,
) -> Turn
    decreases to - from,
{
    if to <= from {
        on(trace)
    } else {
        let before = slots_freed(f, a, trace, from, to - 1, next, depth, w);
        if before.end is On {
            freed(f, a, before.trace, f.flat_slot(to - 1) as u32, next, depth, depth, w)
        } else {
            before
        }
    }
}

/// The lowest operand of a call.
pub open spec fn call_base(argc: u16, has_this: bool, depth: int) -> int {
    depth - argc - 1 - (if has_this {
        1int
    } else {
        0int
    })
}

pub open spec fn call_function(argc: u16, has_this: bool, depth: int) -> int {
    if has_this {
        call_base(argc, has_this, depth) + 1
    } else {
        call_base(argc, has_this, depth)
    }
}

pub open spec fn call_output(has_this: bool, depth: int) -> int {
    if has_this {
        depth
    } else {
        depth + 1
    }
}

pub open spec fn call_words(f: InlineFrame<'_>, argc: u16, has_this: bool, depth: int) -> Seq<u32> {
    let function = call_function(argc, has_this, depth);
    seq![
        0,
        f.flat_slot(call_output(has_this, depth)) as u32,
        f.flat_slot(function) as u32,
        f.flat_slot(
            if has_this {
                call_base(argc, has_this, depth)
            } else {
                depth
            },
        ) as u32,
        if argc == 0 {
            u32::MAX
        } else {
            f.flat_slot(function + 1) as u32
        },
        argc as u32,
    ]
}

/// A call through the runtime: the result replaces the first operand, and the
/// operands are released.
pub open spec fn runtime_called(
    f: InlineFrame<'_>,
    a: InlineAddresses,
    trace: Seq<Event>,
    argc: u16,
    has_this: bool,
    next: u32,
    depth: int,
    w: World,
) -> Turn {
    let base = call_base(argc, has_this, depth);
    let output = call_output(has_this, depth);
    let called = helped(
        f,
        a,
        trace,
        f.root.abi.helper_call,
        call_words(f, argc, has_this, depth),
        next,
        output + 1,
        depth,
        w,
    );
    if !(called.end is On) {
        called
    } else {
        let replaced = freed(
            f,
            a,
            swapped(a, called.trace, base, output, w),
            f.flat_slot(output) as u32,
            next,
            output + 1,
            depth,
            w,
        );
        if replaced.end is On {
            slots_freed(f, a, replaced.trace, base + 1, depth, next, depth, w)
        } else {
            replaced
        }
    }
}

impl<'a> InlineFrame<'a> {
    /// Emits `initialized`.
    pub(crate) fn require_initialized(&self, code: &mut Code, index: u16, pc: u32) -> (r: Result<(), CompileFailure>)
        requires
            self.wf(old(code).len()),
        ensures
            kept(*old(code), *final(code)),
            r is Ok && self.typed(*old(code)) ==> steady(*old(code), *final(code)),
            r is Ok <==> self.api.resume is Some,
            r is Err ==> r == Err::<(), CompileFailure>(CompileFailure::InvalidArtifact),
            final(code).len() >= old(code).len(),
            r is Ok ==> forall|w: World|
                #![trigger final(code).at(w)]
                match old(code).at(w) {
                    Status::Run(s) => turned(final(code).at(w), s, old(code).len(), initialized(*self, self.addresses(s), s.trace, index, pc, w)),
                    st => final(code).at(w) == st,
                },
    {
        let local = opt_load(code, self.ids.locals, index as usize);
        let ghost c1 = *code;
        let set = code.compare_imm(IntCc::NotEqual, Ty::I64, local.tag, JS_TAG_UNINITIALIZED as i64);
        let valid = code.new_block();
        let unset = code.new_block();
        code.branch(set, valid, unset);
        let _ = code.switch_to(unset);
        let ghost c2 = *code;
        if let Err(e) = self.resume(code, pc, false) {
            return Err(e);
        }
        let ghost c3 = *code;
        let _ = code.switch_to(valid);
        proof {
            assert forall|w: World|
                #![trigger code.at(w)]
                match old(code).at(w) {
                    Status::Run(s) => turned(code.at(w), s, old(code).len(), initialized(*self, self.addresses(s), s.trace, index, pc, w)),
                    st => code.at(w) == st,
                } by {
                waits_for_known_blocks(old(code).insts@, w);
                let a1 = c1.at(w);
                let a2 = c2.at(w);
                let a3 = c3.at(w);
            }
        }
        Ok(())
    }

    /// Emits `duplicated`.
    pub(crate) fn duplicate(&self, code: &mut Code, target: u32, source: u32, next: u32, live: usize, depth: usize) -> (r: Result<(), CompileFailure>)
        requires
            self.wf(old(code).len()),
            live <= 0x1_0010,
            depth <= 0x1_0010,
        ensures
            kept(*old(code), *final(code)),
            r is Ok && self.typed(*old(code)) ==> steady(*old(code), *final(code)),
            r is Ok <==> helper_known(*self.root, self.root.abi.helper_dup) && self.api.resume is Some,
            r is Err ==> r == Err::<(), CompileFailure>(CompileFailure::InvalidArtifact),
            final(code).len() >= old(code).len(),
            r is Ok ==> forall|w: World|
                #![trigger final(code).at(w)]
                match old(code).at(w) {
                    Status::Run(s) => turned(final(code).at(w), s, old(code).len(), duplicated(*self, self.addresses(s), s.trace, target, source, next, live as int, depth as int, w)),
                    st => final(code).at(w) == st,
                },
    {
        let mut words: Vec<u32> = Vec::new();
        words.push(0);
        words.push(target);
        words.push(source);
        assert(words@ =~= seq![0, target, source]);
        if let Err(e) = self.helper(code, self.root.abi.helper_dup, &words, next, live, depth) {
            return Err(e);
        }
        proof {
            assert forall|w: World|
                #![trigger code.at(w)]
                match old(code).at(w) {
                    Status::Run(s) => turned(code.at(w), s, old(code).len(), duplicated(*self, self.addresses(s), s.trace, target, source, next, live as int, depth as int, w)),
                    st => code.at(w) == st,
                } by {
            }
        }
        Ok(())
    }

    /// Emits `moved`.
    pub(crate) fn move_top(&self, code: &mut Code, local: bool, index: u16, depth: usize)
        requires
            self.wf(old(code).len()),
            1 <= depth <= 0xffff,
        ensures
            kept(*old(code), *final(code)),
            self.typed(*old(code)) ==> steady(*old(code), *final(code)),
            final(code).len() > old(code).len(),
            forall|w: World|
                #![trigger final(code).at(w)]
                match old(code).at(w) {
                    Status::Run(s) => runs_on(
                        final(code).at(w),
                        s,
                        old(code).len(),
                        s.vars,
                        moved(self.addresses(s), s.trace, local, index, depth as int, w),
                    ),
                    st => final(code).at(w) == st,
                },
    {
        let pair = opt_load(code, self.ids.stack, depth - 1);
        let ghost c1 = *code;
        let buffer = if local {
            self.ids.locals
        } else {
            self.ids.arguments
        };
        opt_store(code, buffer, index as usize, pair, Ty::I64);
        let ghost c2 = *code;
        let empty = undefined(code);
        let ghost c3 = *code;
        opt_store(code, self.ids.stack, depth - 1, empty, Ty::I64);
        proof {
            assert forall|w: World|
                #![trigger code.at(w)]
                match old(code).at(w) {
                    Status::Run(s) => runs_on(
                        code.at(w),
                        s,
                        old(code).len(),
                        s.vars,
                        moved(self.addresses(s), s.trace, local, index, depth as int, w),
                    ),
                    st => code.at(w) == st,
                } by {
                let a1 = c1.at(w);
                let a2 = c2.at(w);
                let a3 = c3.at(w);
            }
        }
    }

    /// Emits `got`.
    pub(crate) fn get_slot(&self, code: &mut Code, op: InlineOp, pc: u32, next: u32, depth: usize) -> (r: Result<(), CompileFailure>)
        requires
            self.wf(old(code).len()),
            depth <= 0xffff,
            reads_slot(op),
        ensures
            kept(*old(code), *final(code)),
            r is Ok && self.typed(*old(code)) ==> steady(*old(code), *final(code)),
            r is Ok <==> helper_known(*self.root, self.root.abi.helper_dup) && self.api.resume is Some,
            r is Err ==> r == Err::<(), CompileFailure>(CompileFailure::InvalidArtifact),
            final(code).len() >= old(code).len(),
            r is Ok ==> forall|w: World|
                #![trigger final(code).at(w)]
                match old(code).at(w) {
                    Status::Run(s) => turned(final(code).at(w), s, old(code).len(), got(*self, self.addresses(s), s.trace, op, pc, next, depth as int, w)),
                    st => final(code).at(w) == st,
                },
    {
        let arguments = self.regions[self.region].argument_count as u32;
        let input: u32 = match op {
            InlineOp::GetArgument(index) => index as u32,
            InlineOp::GetLocal(index) | InlineOp::GetLocalChecked(index) => arguments + index as u32,
            _ => 0,
        };
        if let InlineOp::GetLocalChecked(index) = op {
            if let Err(e) = self.require_initialized(code, index, pc) {
                return Err(e);
            }
        }
        let ghost c1 = *code;
        if let Err(e) = self.duplicate(code, self.flat(depth), input, next, depth + 1, depth) {
            return Err(e);
        }
        proof {
            assert forall|w: World|
                #![trigger code.at(w)]
                match old(code).at(w) {
                    Status::Run(s) => turned(code.at(w), s, old(code).len(), got(*self, self.addresses(s), s.trace, op, pc, next, depth as int, w)),
                    st => code.at(w) == st,
                } by {
                let a1 = c1.at(w);
            }
        }
        Ok(())
    }

    /// Emits `put`.
    pub(crate) fn put_slot(&self, code: &mut Code, local: bool, index: u16, keep: bool, next: u32, depth: usize) -> (r: Result<(), CompileFailure>)
        requires
            self.wf(old(code).len()),
            1 <= depth <= 0xffff,
        ensures
            kept(*old(code), *final(code)),
            r is Ok && self.typed(*old(code)) ==> steady(*old(code), *final(code)),
            r is Ok <==> helper_known(*self.root, self.root.abi.helper_free) && self.api.resume is Some && (keep ==> helper_known(*self.root, self.root.abi.helper_dup)),
            r is Err ==> r == Err::<(), CompileFailure>(CompileFailure::InvalidArtifact),
            final(code).len() >= old(code).len(),
            r is Ok ==> forall|w: World|
                #![trigger final(code).at(w)]
                match old(code).at(w) {
                    Status::Run(s) => turned(final(code).at(w), s, old(code).len(), put(*self, self.addresses(s), s.trace, local, index, keep, next, depth as int, w)),
                    st => final(code).at(w) == st,
                },
    {
        let arguments = self.regions[self.region].argument_count as u32;
        let slot: u32 = if local {
            arguments + index as u32
        } else {
            index as u32
        };
        if let Err(e) = self.free(code, slot, next, depth, depth) {
            return Err(e);
        }
        let ghost c1 = *code;
        if keep {
            if let Err(e) = self.duplicate(code, slot, self.flat(depth - 1), next, depth, depth) {
                return Err(e);
            }
        } else {
            self.move_top(code, local, index, depth);
        }
        proof {
            assert forall|w: World|
                #![trigger code.at(w)]
                match old(code).at(w) {
                    Status::Run(s) => turned(code.at(w), s, old(code).len(), put(*self, self.addresses(s), s.trace, local, index, keep, next, depth as int, w)),
                    st => code.at(w) == st,
                } by {
                let a1 = c1.at(w);
            }
        }
        Ok(())
    }

    /// Emits `put_checked`.
    pub(crate) fn put_checked_slot(&self, code: &mut Code, index: u16, initialize: bool, pc: u32, next: u32, depth: usize) -> (r: Result<(), CompileFailure>)
        requires
            self.wf(old(code).len()),
            1 <= depth <= 0xffff,
        ensures
            kept(*old(code), *final(code)),
            r is Ok && self.typed(*old(code)) ==> steady(*old(code), *final(code)),
            r is Ok <==> helper_known(*self.root, self.root.abi.helper_free) && self.api.resume is Some,
            r is Err ==> r == Err::<(), CompileFailure>(CompileFailure::InvalidArtifact),
            final(code).len() >= old(code).len(),
            r is Ok ==> forall|w: World|
                #![trigger final(code).at(w)]
                match old(code).at(w) {
                    Status::Run(s) => turned(final(code).at(w), s, old(code).len(), put_checked(*self, self.addresses(s), s.trace, index, initialize, pc, next, depth as int, w)),
                    st => final(code).at(w) == st,
                },
    {
        if !initialize {
            if let Err(e) = self.require_initialized(code, index, pc) {
                return Err(e);
            }
        }
        let ghost c1 = *code;
        if let Err(e) = self.put_slot(code, true, index, false, next, depth) {
            return Err(e);
        }
        proof {
            assert forall|w: World|
                #![trigger code.at(w)]
                match old(code).at(w) {
                    Status::Run(s) => turned(code.at(w), s, old(code).len(), put_checked(*self, self.addresses(s), s.trace, index, initialize, pc, next, depth as int, w)),
                    st => code.at(w) == st,
                } by {
                let a1 = c1.at(w);
            }
        }
        Ok(())
    }

    /// Marks a local uninitialized.
    fn write_uninitialized(&self, code: &mut Code, index: u16)
        requires
            self.wf(old(code).len()),
        ensures
            kept(*old(code), *final(code)),
            self.typed(*old(code)) ==> steady(*old(code), *final(code)),
            final(code).len() > old(code).len(),
            forall|w: World|
                #![trigger final(code).at(w)]
                match old(code).at(w) {
                    Status::Run(s) => runs_on(
                        final(code).at(w),
                        s,
                        old(code).len(),
                        s.vars,
                        pair_stores(s.trace, self.addresses(s).locals + index * 16, 0, JS_TAG_UNINITIALIZED as int),
                    ),
                    st => final(code).at(w) == st,
                },
    {
        let payload = code.iconst(Ty::I64, 0);
        let tag = code.iconst(Ty::I64, JS_TAG_UNINITIALIZED as i64);
        opt_store(code, self.ids.locals, index as usize, OptPair { payload, tag }, Ty::I64);
    }

    /// Replaces two operands by a result.
    fn write_result(&self, code: &mut Code, result: OptPair, depth: usize)
        requires
            self.wf(old(code).len()),
            2 <= depth <= 0xffff,
            result.payload < old(code).len(),
            result.tag < old(code).len(),
        ensures
            kept(*old(code), *final(code)),
            self.typed(*old(code)) && pair_held(*old(code), result) ==> steady(*old(code), *final(code)),
            final(code).len() > old(code).len(),
            forall|w: World|
                #![trigger final(code).at(w)]
                match old(code).at(w) {
                    Status::Run(s) => runs_on(
                        final(code).at(w),
                        s,
                        old(code).len(),
                        s.vars,
                        pair_stores(
                            pair_stores(
                                s.trace,
                                self.addresses(s).stack + (depth - 2) * 16,
                                s.vals[result.payload as int],
                                s.vals[result.tag as int],
                            ),
                            self.addresses(s).stack + (depth - 1) * 16,
                            0,
                            JS_TAG_UNDEFINED as int,
                        ),
                    ),
                    st => final(code).at(w) == st,
                },
    {
        opt_store(code, self.ids.stack, depth - 2, result, Ty::I64);
        let ghost c3 = *code;
        let empty = undefined(code);
        let ghost c4 = *code;
        opt_store(code, self.ids.stack, depth - 1, empty, Ty::I64);
        proof {
            assert forall|w: World|
                #![trigger code.at(w)]
                match old(code).at(w) {
                    Status::Run(s) => runs_on(
                        code.at(w),
                        s,
                        old(code).len(),
                        s.vars,
                        pair_stores(
                            pair_stores(
                                s.trace,
                                self.addresses(s).stack + (depth - 2) * 16,
                                s.vals[result.payload as int],
                                s.vals[result.tag as int],
                            ),
                            self.addresses(s).stack + (depth - 1) * 16,
                            0,
                            JS_TAG_UNDEFINED as int,
                        ),
                    ),
                    st => code.at(w) == st,
                } by {
                let a3 = c3.at(w);
                let a4 = c4.at(w);
            }
        }
    }

    /// Emits `unset`.
    pub(crate) fn unset_local(&self, code: &mut Code, index: u16, next: u32, depth: usize) -> (r: Result<(), CompileFailure>)
        requires
            self.wf(old(code).len()),
            depth <= 0xffff,
        ensures
            kept(*old(code), *final(code)),
            r is Ok && self.typed(*old(code)) ==> steady(*old(code), *final(code)),
            r is Ok <==> helper_known(*self.root, self.root.abi.helper_free) && self.api.resume is Some,
            r is Err ==> r == Err::<(), CompileFailure>(CompileFailure::InvalidArtifact),
            final(code).len() >= old(code).len(),
            r is Ok ==> forall|w: World|
                #![trigger final(code).at(w)]
                match old(code).at(w) {
                    Status::Run(s) => turned(final(code).at(w), s, old(code).len(), unset(*self, self.addresses(s), s.trace, index, next, depth as int, w)),
                    st => final(code).at(w) == st,
                },
    {
        let slot: u32 = self.regions[self.region].argument_count as u32 + index as u32;
        if let Err(e) = self.free(code, slot, next, depth, depth) {
            return Err(e);
        }
        let ghost c1 = *code;
        self.write_uninitialized(code, index);
        proof {
            assert forall|w: World|
                #![trigger code.at(w)]
                match old(code).at(w) {
                    Status::Run(s) => turned(code.at(w), s, old(code).len(), unset(*self, self.addresses(s), s.trace, index, next, depth as int, w)),
                    st => code.at(w) == st,
                } by {
                let a1 = c1.at(w);
            }
        }
        Ok(())
    }

    /// Emits `swapped`.
    pub(crate) fn swap_slots(&self, code: &mut Code, below: usize, above: usize)
        requires
            self.wf(old(code).len()),
            below <= 0x1_0010,
            above <= 0x1_0010,
        ensures
            kept(*old(code), *final(code)),
            self.typed(*old(code)) ==> steady(*old(code), *final(code)),
            final(code).len() > old(code).len(),
            forall|w: World|
                #![trigger final(code).at(w)]
                match old(code).at(w) {
                    Status::Run(s) => runs_on(
                        final(code).at(w),
                        s,
                        old(code).len(),
                        s.vars,
                        swapped(self.addresses(s), s.trace, below as int, above as int, w),
                    ),
                    st => final(code).at(w) == st,
                },
    {
        let lhs = opt_load(code, self.ids.stack, below);
        let rhs = opt_load(code, self.ids.stack, above);
        let ghost c1 = *code;
        opt_store(code, self.ids.stack, below, rhs, Ty::I64);
        let ghost c2 = *code;
        opt_store(code, self.ids.stack, above, lhs, Ty::I64);
        proof {
            assert forall|w: World|
                #![trigger code.at(w)]
                match old(code).at(w) {
                    Status::Run(s) => runs_on(
                        code.at(w),
                        s,
                        old(code).len(),
                        s.vars,
                        swapped(self.addresses(s), s.trace, below as int, above as int, w),
                    ),
                    st => code.at(w) == st,
                } by {
                let a1 = c1.at(w);
                let a2 = c2.at(w);
            }
        }
    }

    /// Emits `property_got`.
    pub(crate) fn get_property(&self, code: &mut Code, atom: u32, keep: bool, next: u32, depth: usize) -> (r: Result<(), CompileFailure>)
        requires
            self.wf(old(code).len()),
            1 <= depth <= 0xffff,
        ensures
            kept(*old(code), *final(code)),
            r is Ok && self.typed(*old(code)) ==> steady(*old(code), *final(code)),
            r is Ok <==> helper_known(*self.root, self.root.abi.helper_get_property) && self.api.resume is Some && (!keep ==> helper_known(*self.root, self.root.abi.helper_free)),
            r is Err ==> r == Err::<(), CompileFailure>(CompileFailure::InvalidArtifact),
            final(code).len() >= old(code).len(),
            r is Ok ==> forall|w: World|
                #![trigger final(code).at(w)]
                match old(code).at(w) {
                    Status::Run(s) => turned(final(code).at(w), s, old(code).len(), property_got(*self, self.addresses(s), s.trace, atom, keep, next, depth as int, w)),
                    st => final(code).at(w) == st,
                },
    {
        let mut words: Vec<u32> = Vec::new();
        words.push(0);
        words.push(self.flat(depth));
        words.push(self.flat(depth - 1));
        words.push(atom);
        assert(words@ =~= seq![
            0,
            self.flat_slot(depth as int) as u32,
            self.flat_slot(depth - 1) as u32,
            atom,
        ]);
        if let Err(e) = self.helper(code, self.root.abi.helper_get_property, &words, next, depth + 1, depth) {
            return Err(e);
        }
        let ghost c1 = *code;
        if !keep {
            self.swap_slots(code, depth - 1, depth);
        }
        let ghost c2 = *code;
        if !keep {
            if let Err(e) = self.free(code, self.flat(depth), next, depth + 1, depth) {
                return Err(e);
            }
        }
        proof {
            assert forall|w: World|
                #![trigger code.at(w)]
                match old(code).at(w) {
                    Status::Run(s) => turned(code.at(w), s, old(code).len(), property_got(*self, self.addresses(s), s.trace, atom, keep, next, depth as int, w)),
                    st => code.at(w) == st,
                } by {
                let a1 = c1.at(w);
                let a2 = c2.at(w);
            }
        }
        Ok(())
    }

    /// Emits `property_set`.
    pub(crate) fn set_property(&self, code: &mut Code, atom: u32, next: u32, depth: usize) -> (r: Result<(), CompileFailure>)
        requires
            self.wf(old(code).len()),
            2 <= depth <= 0xffff,
        ensures
            kept(*old(code), *final(code)),
            r is Ok && self.typed(*old(code)) ==> steady(*old(code), *final(code)),
            r is Ok <==> helper_known(*self.root, self.root.abi.helper_set_property) && helper_known(*self.root, self.root.abi.helper_free) && self.api.resume is Some,
            r is Err ==> r == Err::<(), CompileFailure>(CompileFailure::InvalidArtifact),
            final(code).len() >= old(code).len(),
            r is Ok ==> forall|w: World|
                #![trigger final(code).at(w)]
                match old(code).at(w) {
                    Status::Run(s) => turned(final(code).at(w), s, old(code).len(), property_set(*self, self.addresses(s), s.trace, atom, next, depth as int, w)),
                    st => final(code).at(w) == st,
                },
    {
        let mut words: Vec<u32> = Vec::new();
        words.push(0);
        words.push(self.flat(depth - 2));
        words.push(atom);
        words.push(self.flat(depth - 1));
        assert(words@ =~= seq![
            0,
            self.flat_slot(depth - 2) as u32,
            atom,
            self.flat_slot(depth - 1) as u32,
        ]);
        if let Err(e) = self.helper(code, self.root.abi.helper_set_property, &words, next, depth, depth) {
            return Err(e);
        }
        let ghost c1 = *code;
        if let Err(e) = self.free(code, self.flat(depth - 2), next, depth, depth) {
            return Err(e);
        }
        proof {
            assert forall|w: World|
                #![trigger code.at(w)]
                match old(code).at(w) {
                    Status::Run(s) => turned(code.at(w), s, old(code).len(), property_set(*self, self.addresses(s), s.trace, atom, next, depth as int, w)),
                    st => code.at(w) == st,
                } by {
                let a1 = c1.at(w);
            }
        }
        Ok(())
    }

    /// Emits `slots_freed`.
    pub(crate) fn free_range(&self, code: &mut Code, from: usize, to: usize, next: u32, depth: usize) -> (r: Result<(), CompileFailure>)
        requires
            self.wf(old(code).len()),
            from <= to <= depth <= 0xffff,
        ensures
            kept(*old(code), *final(code)),
            r is Ok && self.typed(*old(code)) ==> steady(*old(code), *final(code)),
            r is Ok <==> (from == to || helper_known(*self.root, self.root.abi.helper_free) && self.api.resume is Some),
            r is Err ==> r == Err::<(), CompileFailure>(CompileFailure::InvalidArtifact),
            final(code).len() >= old(code).len(),
            r is Ok ==> forall|w: World|
                #![trigger final(code).at(w)]
                match old(code).at(w) {
                    Status::Run(s) => turned(final(code).at(w), s, old(code).len(), slots_freed(*self, self.addresses(s), s.trace, from as int, to as int, next, depth as int, w)),
                    st => final(code).at(w) == st,
                },
    {
        let mut i: usize = from;
        while i < to
            invariant
                kept(*old(code), *code),
                self.typed(*old(code)) ==> steady(*old(code), *code),
                self.typed(*old(code)) ==> self.typed(*code),
                from <= i <= to <= depth <= 0xffff,
                self.wf(old(code).len()),
                old(code).len() <= code.len(),
                i > from ==> helper_known(*self.root, self.root.abi.helper_free) && self.api.resume is Some,
                forall|w: World|
                    #![trigger code.at(w)]
                    match old(code).at(w) {
                        Status::Run(s) => turned(
                            code.at(w),
                            s,
                            old(code).len(),
                            slots_freed(*self, self.addresses(s), s.trace, from as int, i as int, next, depth as int, w),
                        ),
                        st => code.at(w) == st,
                    },
            decreases to - i,
        {
            let ghost c1 = *code;
            if let Err(e) = self.free(code, self.flat(i), next, depth, depth) {
                return Err(e);
            }
            proof {
                assert forall|w: World|
                    #![trigger code.at(w)]
                    match old(code).at(w) {
                        Status::Run(s) => turned(
                            code.at(w),
                            s,
                            old(code).len(),
                            slots_freed(*self, self.addresses(s), s.trace, from as int, i + 1, next, depth as int, w),
                        ),
                        st => code.at(w) == st,
                    } by {
                    let a1 = c1.at(w);
                }
            }
            i = i + 1;
        }
        proof {
            assert forall|w: World|
                #![trigger code.at(w)]
                match old(code).at(w) {
                    Status::Run(s) => turned(code.at(w), s, old(code).len(), slots_freed(*self, self.addresses(s), s.trace, from as int, to as int, next, depth as int, w)),
                    st => code.at(w) == st,
                } by {
            }
        }
        Ok(())
    }

    /// Emits `runtime_called`.
    #[verifier::rlimit(40)]
    pub(crate) fn call_runtime(&self, code: &mut Code, argc: u16, has_this: bool, next: u32, depth: usize) -> (r: Result<(), CompileFailure>)
        requires
            self.wf(old(code).len()),
            depth <= 0xffff,
            call_base(argc, has_this, depth as int) >= 0,
        ensures
            kept(*old(code), *final(code)),
            r is Ok && self.typed(*old(code)) ==> steady(*old(code), *final(code)),
            r is Ok <==> helper_known(*self.root, self.root.abi.helper_call) && helper_known(*self.root, self.root.abi.helper_free) && self.api.resume is Some,
            r is Err ==> r == Err::<(), CompileFailure>(CompileFailure::InvalidArtifact),
            final(code).len() >= old(code).len(),
            r is Ok ==> forall|w: World|
                #![trigger final(code).at(w)]
                match old(code).at(w) {
                    Status::Run(s) => turned(final(code).at(w), s, old(code).len(), runtime_called(*self, self.addresses(s), s.trace, argc, has_this, next, depth as int, w)),
                    st => final(code).at(w) == st,
                },
    {
        let this_count: usize = if has_this {
            1
        } else {
            0
        };
        let base: usize = depth - argc as usize - 1 - this_count;
        let function: usize = base + this_count;
        let this: usize = if has_this {
            base
        } else {
            depth
        };
        let output: usize = if has_this {
            depth
        } else {
            depth + 1
        };
        let mut words: Vec<u32> = Vec::new();
        words.push(0);
        words.push(self.flat(output));
        words.push(self.flat(function));
        words.push(self.flat(this));
        words.push(
            if argc == 0 {
                u32::MAX
            } else {
                self.flat(function + 1)
            },
        );
        words.push(argc as u32);
        assert(words@ =~= call_words(*self, argc, has_this, depth as int));
        if let Err(e) = self.helper(code, self.root.abi.helper_call, &words, next, output + 1, depth) {
            return Err(e);
        }
        let ghost c1 = *code;
        self.swap_slots(code, base, output);
        let ghost c2 = *code;
        if let Err(e) = self.free(code, self.flat(output), next, output + 1, depth) {
            return Err(e);
        }
        let ghost c3 = *code;
        if let Err(e) = self.free_range(code, base + 1, depth, next, depth) {
            return Err(e);
        }
        proof {
            assert forall|w: World|
                #![trigger code.at(w)]
                match old(code).at(w) {
                    Status::Run(s) => turned(code.at(w), s, old(code).len(), runtime_called(*self, self.addresses(s), s.trace, argc, has_this, next, depth as int, w)),
                    st => code.at(w) == st,
                } by {
                let a1 = c1.at(w);
                let a2 = c2.at(w);
                let a3 = c3.at(w);
            }
        }
        Ok(())
    }
}

/// Both operands are Int32, and so is the result, or it is a truth value.
pub open spec fn computes(op: FrameBinaryOp, lhs: Loaded, payload: int, tag: int) -> bool {
    &&& lhs.tag == JS_TAG_INT
    &&& tag == JS_TAG_INT
    &&& stays_integer(op, wrap(Ty::I32, lhs.payload), wrap(Ty::I32, payload))
}

/// Nothing is written before every check has passed: otherwise the interpreter
/// executes the instruction.
pub open spec fn binary(
    f: InlineFrame<'_>,
    a: InlineAddresses,
    trace: Seq<Event>,
    op: FrameBinaryOp,
    pc: u32,
    depth: int,
    w: World,
) -> Turn {
    let lhs = loaded(trace, a.stack + (depth - 2) * 16, w);
    let rhs = loaded(lhs.trace, a.stack + (depth - 1) * 16, w);
    if has_checked_form(op) && computes(op, lhs, rhs.payload, rhs.tag) {
        on(
            pair_stores(
                pair_stores(
                    rhs.trace,
                    a.stack + (depth - 2) * 16,
                    exact_result(op, wrap(Ty::I32, lhs.payload), wrap(Ty::I32, rhs.payload)),
                    result_tag(op),
                ),
                a.stack + (depth - 1) * 16,
                0,
                JS_TAG_UNDEFINED as int,
            ),
        )
    } else {
        left(resumed(f, a, rhs.trace, pc, false, w))
    }
}

/// An increment or decrement; a postfix one leaves the old value in place and
/// pushes the new one.
pub open spec fn updated(
    f: InlineFrame<'_>,
    a: InlineAddresses,
    trace: Seq<Event>,
    increment: bool,
    post: bool,
    pc: u32,
    depth: int,
    w: World,
) -> Turn {
    let op = if increment {
        FrameBinaryOp::Add
    } else {
        FrameBinaryOp::Sub
    };
    let lhs = loaded(trace, a.stack + (depth - 1) * 16, w);
    let output = if post {
        depth
    } else {
        depth - 1
    };
    if computes(op, lhs, 1, JS_TAG_INT as int) {
        on(
            pair_stores(
                lhs.trace,
                a.stack + output * 16,
                exact_result(op, wrap(Ty::I32, lhs.payload), 1),
                JS_TAG_INT as int,
            ),
        )
    } else {
        left(resumed(f, a, lhs.trace, pc, false, w))
    }
}

impl<'a> InlineFrame<'a> {
    /// Loads the two operands on top of the stack.
    fn load_operands(&self, code: &mut Code, depth: usize) -> (r: (OptPair, OptPair))
        requires
            self.wf(old(code).len()),
            2 <= depth <= 0xffff,
        ensures
            kept(*old(code), *final(code)),
            self.typed(*old(code)) ==> steady(*old(code), *final(code)),
            pair_held(*final(code), r.0),
            pair_held(*final(code), r.1),
            old(code).len() < final(code).len(),
            r.0.payload < final(code).len(),
            r.0.tag < final(code).len(),
            r.1.payload < final(code).len(),
            r.1.tag < final(code).len(),
            forall|w: World|
                #![trigger final(code).at(w)]
                match old(code).at(w) {
                    Status::Run(s) => {
                        let lhs = loaded(s.trace, self.addresses(s).stack + (depth - 2) * 16, w);
                        let rhs = loaded(lhs.trace, self.addresses(s).stack + (depth - 1) * 16, w);
                        &&& runs_on(final(code).at(w), s, old(code).len(), s.vars, rhs.trace)
                        &&& value(final(code).at(w), r.0.payload) == lhs.payload
                        &&& value(final(code).at(w), r.0.tag) == lhs.tag
                        &&& value(final(code).at(w), r.1.payload) == rhs.payload
                        &&& value(final(code).at(w), r.1.tag) == rhs.tag
                    },
                    st => final(code).at(w) == st,
                },
    {
        let lhs = opt_load(code, self.ids.stack, depth - 2);
        let ghost c1 = *code;
        let rhs = opt_load(code, self.ids.stack, depth - 1);
        proof {
            assert forall|w: World|
                #![trigger code.at(w)]
                match old(code).at(w) {
                    Status::Run(s) => {
                        let first = loaded(s.trace, self.addresses(s).stack + (depth - 2) * 16, w);
                        let second = loaded(first.trace, self.addresses(s).stack + (depth - 1) * 16, w);
                        &&& runs_on(code.at(w), s, old(code).len(), s.vars, second.trace)
                        &&& value(code.at(w), lhs.payload) == first.payload
                        &&& value(code.at(w), lhs.tag) == first.tag
                        &&& value(code.at(w), rhs.payload) == second.payload
                        &&& value(code.at(w), rhs.tag) == second.tag
                    },
                    st => code.at(w) == st,
                } by {
                let a1 = c1.at(w);
            }
        }
        (lhs, rhs)
    }

    /// Emits `binary` for an operation that the interpreter has to execute.
    pub(crate) fn decline(&self, code: &mut Code, op: FrameBinaryOp, pc: u32, depth: usize) -> (r: Result<(), CompileFailure>)
        requires
            self.wf(old(code).len()),
            2 <= depth <= 0xffff,
            !has_checked_form(op),
        ensures
            kept(*old(code), *final(code)),
            r is Ok && self.typed(*old(code)) ==> closing(*old(code), *final(code)),
            r is Ok <==> self.api.resume is Some,
            r is Err ==> r == Err::<(), CompileFailure>(CompileFailure::InvalidArtifact),
            final(code).len() >= old(code).len(),
            r is Ok ==> forall|w: World|
                #![trigger final(code).at(w)]
                match old(code).at(w) {
                    Status::Run(s) => turned(
                        final(code).at(w),
                        s,
                        old(code).len(),
                        binary(*self, self.addresses(s), s.trace, op, pc, depth as int, w),
                    ),
                    st => final(code).at(w) == st,
                },
    {
        let _ = self.load_operands(code, depth);
        let ghost c1 = *code;
        if let Err(e) = self.resume(code, pc, false) {
            return Err(e);
        }
        proof {
            assert forall|w: World|
                #![trigger code.at(w)]
                match old(code).at(w) {
                    Status::Run(s) => turned(
                        code.at(w),
                        s,
                        old(code).len(),
                        binary(*self, self.addresses(s), s.trace, op, pc, depth as int, w),
                    ),
                    st => code.at(w) == st,
                } by {
                let a1 = c1.at(w);
            }
        }
        Ok(())
    }

    /// Emits `binary`.
    #[verifier::rlimit(40)]
    pub(crate) fn compute(&self, code: &mut Code, op: FrameBinaryOp, pc: u32, depth: usize) -> (r: Result<
        (),
        CompileFailure,
    >)
        requires
            self.wf(old(code).len()),
            2 <= depth <= 0xffff,
        ensures
            kept(*old(code), *final(code)),
            r is Ok && self.typed(*old(code)) && has_checked_form(op) ==> steady(*old(code), *final(code)),
            r is Ok && self.typed(*old(code)) && !has_checked_form(op) ==> closing(*old(code), *final(code)),
            r is Ok <==> self.api.resume is Some,
            r is Err ==> r == Err::<(), CompileFailure>(CompileFailure::InvalidArtifact),
            final(code).len() >= old(code).len(),
            r is Ok ==> forall|w: World|
                #![trigger final(code).at(w)]
                match old(code).at(w) {
                    Status::Run(s) => turned(
                        final(code).at(w),
                        s,
                        old(code).len(),
                        binary(*self, self.addresses(s), s.trace, op, pc, depth as int, w),
                    ),
                    st => final(code).at(w) == st,
                },
    {
        match op {
            FrameBinaryOp::Div | FrameBinaryOp::Mod | FrameBinaryOp::Shl | FrameBinaryOp::Sar | FrameBinaryOp::Shr => {
                return self.decline(code, op, pc, depth);
            },
            _ => {},
        }
        let failed = code.new_block();
        let (lhs, rhs) = self.load_operands(code, depth);
        let ghost c1 = *code;
        let result = match checked_binary(code, op, lhs, rhs, failed) {
            Some(result) => result,
            None => {
                return Err(CompileFailure::InvalidArtifact);
            },
        };
        let ghost c2 = *code;
        self.write_result(code, result, depth);
        let ghost c5 = *code;
        let next = code.new_block();
        code.jump(next);
        let _ = code.switch_to(failed);
        let ghost c6 = *code;
        if let Err(e) = self.resume(code, pc, false) {
            return Err(e);
        }
        let ghost c7 = *code;
        let _ = code.switch_to(next);
        proof {
            assert forall|w: World|
                #![trigger code.at(w)]
                match old(code).at(w) {
                    Status::Run(s) => turned(
                        code.at(w),
                        s,
                        old(code).len(),
                        binary(*self, self.addresses(s), s.trace, op, pc, depth as int, w),
                    ),
                    st => code.at(w) == st,
                } by {
                waits_for_known_blocks(old(code).insts@, w);
                let a1 = c1.at(w);
                let a2 = c2.at(w);
                let a5 = c5.at(w);
                let a6 = c6.at(w);
                let a7 = c7.at(w);
            }
        }
        Ok(())
    }

    /// Emits `updated`.
    #[verifier::spinoff_prover]
    #[verifier::rlimit(100)]
    pub(crate) fn update(&self, code: &mut Code, increment: bool, post: bool, pc: u32, depth: usize) -> (r: Result<
        (),
        CompileFailure,
    >)
        requires
            self.wf(old(code).len()),
            1 <= depth <= 0xffff,
        ensures
            kept(*old(code), *final(code)),
            r is Ok && self.typed(*old(code)) ==> steady(*old(code), *final(code)),
            r is Ok <==> self.api.resume is Some,
            r is Err ==> r == Err::<(), CompileFailure>(CompileFailure::InvalidArtifact),
            final(code).len() >= old(code).len(),
            r is Ok ==> forall|w: World|
                #![trigger final(code).at(w)]
                match old(code).at(w) {
                    Status::Run(s) => turned(
                        final(code).at(w),
                        s,
                        old(code).len(),
                        updated(*self, self.addresses(s), s.trace, increment, post, pc, depth as int, w),
                    ),
                    st => final(code).at(w) == st,
                },
    {
        let failed = code.new_block();
        let lhs = opt_load(code, self.ids.stack, depth - 1);
        let payload = code.iconst(Ty::I64, 1);
        let tag = code.iconst(Ty::I64, JS_TAG_INT as i64);
        let ghost c1 = *code;
        let op = if increment {
            FrameBinaryOp::Add
        } else {
            FrameBinaryOp::Sub
        };
        let result = match checked_binary(code, op, lhs, OptPair { payload, tag }, failed) {
            Some(result) => result,
            None => {
                return Err(CompileFailure::InvalidArtifact);
            },
        };
        let ghost c2 = *code;
        let output: usize = if post {
            depth
        } else {
            depth - 1
        };
        opt_store(code, self.ids.stack, output, result, Ty::I64);
        let ghost c5 = *code;
        let next = code.new_block();
        code.jump(next);
        let _ = code.switch_to(failed);
        let ghost c6 = *code;
        if let Err(e) = self.resume(code, pc, false) {
            return Err(e);
        }
        let ghost c7 = *code;
        let _ = code.switch_to(next);
        proof {
            assert(wrap(Ty::I64, 1) == 1 && wrap(Ty::I32, 1) == 1 && wrap(Ty::I64, JS_TAG_INT as int) == JS_TAG_INT);
            assert forall|w: World|
                #![trigger code.at(w)]
                match old(code).at(w) {
                    Status::Run(s) => turned(
                        code.at(w),
                        s,
                        old(code).len(),
                        updated(*self, self.addresses(s), s.trace, increment, post, pc, depth as int, w),
                    ),
                    st => code.at(w) == st,
                } by {
                waits_for_known_blocks(old(code).insts@, w);
                let a1 = c1.at(w);
                let a2 = c2.at(w);
                let a5 = c5.at(w);
                let a6 = c6.at(w);
                let a7 = c7.at(w);
            }
        }
        Ok(())
    }
}

} // verus!
