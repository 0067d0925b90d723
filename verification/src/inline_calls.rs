//! Entering, running and leaving inlined callees.
use crate::checks::read;
use crate::checks::require;
use crate::checks::seen;
use crate::code::status;
use crate::code::value;
use crate::code::waits_for_known_blocks;
use crate::code::wrap;
use crate::code::BinaryOp;
use crate::code::kept;
use crate::code::Code;
use crate::code::Event;
use crate::code::IntCc;
use crate::code::Status;
use crate::code::Ty;
use crate::code::World;
use crate::control::CompileFailure;
use crate::exits::pc_store;
use crate::frame::runs_on;
use crate::frame::top_store;
use crate::frame::RuntimeAbi;
use crate::guard_code::callee_fits;
use crate::guard_code::callee_reads;
use crate::guard_code::emit_guarded_direct_callee_identity;
use crate::guard_code::DirectCalleeIdentity;
use crate::inline_frames::call_event;
use crate::inline_frames::checked;
use crate::inline_frames::left;
use crate::inline_frames::on;
use crate::inline_frames::resumed;
use crate::inline_frames::runtime_call;
use crate::inline_frames::turned;
use crate::inline_frames::FrameRegion;
use crate::inline_frames::InlineAddresses;
use crate::inline_frames::InlineBoundary;
use crate::inline_frames::InlineFrame;
use crate::inline_frames::InlineIds;
use crate::inline_frames::Turn;
use crate::inline_ops::call_base;
use crate::inline_ops::call_function;
use crate::inline_ops::loaded;
use crate::lower_values::group_truths;
use crate::lower_values::opt_load;
use crate::typing::steady;
use crate::typing::closing;
use crate::typing::calm;
use crate::assemble::Known;
use crate::frame_typing::pair_held;
use crate::frame_typing::slot_named;
use crate::frame_typing::slots_named;
use crate::frame_typing::cached_named;
use crate::frame_typing::cache_named;
use crate::frame_typing::args_held;
use crate::frame_typing::ids_held;
use vstd::prelude::*;

verus! {

broadcast use {crate::typing::group_typing, crate::frame_typing::group_frame};

/// A body has no more blocks than this.
pub const MAX_INLINE_BLOCKS: usize = 16;

pub open spec fn callee_of(region: FrameRegion) -> DirectCalleeIdentity {
    DirectCalleeIdentity { object: region.object_identity, bytecode: region.bytecode_identity }
}

/// A frame that the runtime has made, and what was observed by then.
pub struct Opened {
    pub frame: int,
    pub arguments: int,
    pub locals: int,
    pub stack: int,
    pub trace: Seq<Event>,
}

/// The frame is found through `output`, and its slots through the frame.
pub open spec fn opened(abi: RuntimeAbi, trace: Seq<Event>, output: int, w: World) -> Opened {
    let frame = seen(trace, Ty::I64, w);
    let t1 = read(trace, Ty::I64, output, w);
    let t2 = read(t1, Ty::I64, frame + abi.arg_buf, w);
    let t3 = read(t2, Ty::I64, frame + abi.var_buf, w);
    Opened {
        frame,
        arguments: seen(t1, Ty::I64, w),
        locals: seen(t2, Ty::I64, w),
        stack: seen(t3, Ty::I64, w),
        trace: read(t3, Ty::I64, frame + abi.stack_base, w),
    }
}

/// Finds a new frame.
pub fn open_frame(code: &mut Code, abi: &RuntimeAbi, output: usize) -> (r: InlineIds)
    requires
        output < old(code).len(),
    ensures
        kept(*old(code), *final(code)),
        old(code).holds(output, Ty::I64) ==> steady(*old(code), *final(code)),
        ids_held(*final(code), r),
        final(code).len() > old(code).len(),
        r.frame < final(code).len(),
        r.arguments < final(code).len(),
        r.locals < final(code).len(),
        r.stack < final(code).len(),
        forall|w: World|
            #![trigger final(code).at(w)]
            match old(code).at(w) {
                Status::Run(s) => {
                    let o = opened(*abi, s.trace, s.vals[output as int], w);
                    &&& runs_on(final(code).at(w), s, old(code).len(), s.vars, o.trace)
                    &&& value(final(code).at(w), r.frame) == o.frame
                    &&& value(final(code).at(w), r.arguments) == o.arguments
                    &&& value(final(code).at(w), r.locals) == o.locals
                    &&& value(final(code).at(w), r.stack) == o.stack
                },
                st => final(code).at(w) == st,
            },
{
    let frame = code.load(Ty::I64, output, 0);
    let arguments = code.load(Ty::I64, frame, abi.arg_buf);
    let locals = code.load(Ty::I64, frame, abi.var_buf);
    let stack = code.load(Ty::I64, frame, abi.stack_base);
    InlineIds { frame, arguments, locals, stack }
}

/// The new frame is for the code that was inlined, the callee is still the
/// same one, and neither was retired; otherwise the interpreter executes the
/// callee from its start.
pub open spec fn admitted(
    f: InlineFrame<'_>,
    a: InlineAddresses,
    caller_stack: int,
    function: int,
    trace: Seq<Event>,
    w: World,
) -> Turn {
    let abi = *f.root.abi;
    let region = f.body();
    let t1 = read(trace, Ty::I64, a.frame + f.api.function_id, w);
    let t2 = read(t1, Ty::I64, a.frame + f.api.generation, w);
    if seen(trace, Ty::I64, w) != region.function_id as i64 || seen(t1, Ty::I64, w) != region.generation as i64 {
        left(resumed(f, a, t2, 0, false, w))
    } else {
        let callee = loaded(t2, caller_stack + function * 16, w);
        let t3 = callee_reads(abi, callee_of(region), callee.payload, callee.tag, callee.trace, w);
        if callee_fits(callee_of(region), callee.payload, callee.tag, callee.trace, w) {
            checked(f, a, t3, 0, w)
        } else {
            left(resumed(f, a, t3, 0, false, w))
        }
    }
}

/// The part of `admitted` before the frame's own check, as a chain of checks.
pub open spec fn identified(
    f: InlineFrame<'_>,
    a: InlineAddresses,
    caller_stack: int,
    function: int,
    trace: Seq<Event>,
    w: World,
) -> (bool, Seq<Event>) {
    let abi = *f.root.abi;
    let region = f.body();
    let t1 = read(trace, Ty::I64, a.frame + f.api.function_id, w);
    let t2 = read(t1, Ty::I64, a.frame + f.api.generation, w);
    if seen(trace, Ty::I64, w) != region.function_id as i64 || seen(t1, Ty::I64, w) != region.generation as i64 {
        (false, t2)
    } else {
        let callee = loaded(t2, caller_stack + function * 16, w);
        (
            callee_fits(callee_of(region), callee.payload, callee.tag, callee.trace, w),
            callee_reads(abi, callee_of(region), callee.payload, callee.tag, callee.trace, w),
        )
    }
}

impl<'a> InlineFrame<'a> {
    fn identify(&self, code: &mut Code, caller_stack: usize, function: usize, failed: usize)
        requires
            self.wf(old(code).len()),
            caller_stack < old(code).len(),
            failed < old(code).len(),
            function <= 0x7ff_fff0,
        ensures
            kept(*old(code), *final(code)),
            self.typed(*old(code)) && old(code).holds(caller_stack, Ty::I64) && old(code).blocked(failed)
                ==> steady(*old(code), *final(code)),
            final(code).len() > old(code).len(),
            forall|w: World|
                #![trigger final(code).at(w)]
                match old(code).at(w) {
                    Status::Run(s) => {
                        let found = identified(
                            *self,
                            self.addresses(s),
                            s.vals[caller_stack as int],
                            function as int,
                            s.trace,
                            w,
                        );
                        crate::checks::steers(
                            final(code).at(w),
                            s,
                            old(code).len(),
                            failed,
                            found.0,
                            s.vars,
                            found.1,
                        )
                    },
                    st => final(code).at(w) == st,
                },
    {
        broadcast use group_truths;

        let region = &self.regions[self.region];
        let identity = code.load(Ty::I64, self.ids.frame, self.api.function_id);
        let generation = code.load(Ty::I64, self.ids.frame, self.api.generation);
        let same_function = code.compare_imm(IntCc::Equal, Ty::I64, identity, region.function_id as i64);
        let same_generation = code.compare_imm(IntCc::Equal, Ty::I64, generation, region.generation as i64);
        let same = code.binary(BinaryOp::And, Ty::I8, same_function, same_generation);
        let ghost c1 = *code;
        require(code, same, failed);
        let ghost c2 = *code;
        // Entering may have run other code: the callee is looked at again
        // where the caller's frame owns it.
        let callee = opt_load(code, caller_stack, function);
        let ghost c3 = *code;
        emit_guarded_direct_callee_identity(
            code,
            self.root.abi,
            callee,
            DirectCalleeIdentity { object: region.object_identity, bytecode: region.bytecode_identity },
            failed,
        );
        proof {
            assert forall|w: World|
                #![trigger code.at(w)]
                match old(code).at(w) {
                    Status::Run(s) => {
                        let found = identified(
                            *self,
                            self.addresses(s),
                            s.vals[caller_stack as int],
                            function as int,
                            s.trace,
                            w,
                        );
                        crate::checks::steers(code.at(w), s, old(code).len(), failed, found.0, s.vars, found.1)
                    },
                    st => code.at(w) == st,
                } by {
                let a1 = c1.at(w);
                let a2 = c2.at(w);
                let a3 = c3.at(w);
            }
        }
    }

    /// Emits `admitted`.
    pub(crate) fn admit_frame(&self, code: &mut Code, caller_stack: usize, function: usize) -> (r: Result<
        (),
        CompileFailure,
    >)
        requires
            self.wf(old(code).len()),
            caller_stack < old(code).len(),
            function <= 0x7ff_fff0,
        ensures
            kept(*old(code), *final(code)),
            r is Ok && self.typed(*old(code)) && old(code).holds(caller_stack, Ty::I64)
                ==> steady(*old(code), *final(code)),
            r is Ok <==> self.api.check is Some && self.api.resume is Some,
            r is Err ==> r == Err::<(), CompileFailure>(CompileFailure::InvalidArtifact),
            final(code).len() >= old(code).len(),
            r is Ok ==> forall|w: World|
                #![trigger final(code).at(w)]
                match old(code).at(w) {
                    Status::Run(s) => turned(
                        final(code).at(w),
                        s,
                        old(code).len(),
                        admitted(
                            *self,
                            self.addresses(s),
                            s.vals[caller_stack as int],
                            function as int,
                            s.trace,
                            w,
                        ),
                    ),
                    st => final(code).at(w) == st,
                },
    {
        let retry = code.new_block();
        self.identify(code, caller_stack, function, retry);
        let ghost c1 = *code;
        let body = code.new_block();
        code.jump(body);
        let _ = code.switch_to(retry);
        let ghost c2 = *code;
        if let Err(e) = self.resume(code, 0, false) {
            return Err(e);
        }
        let ghost c3 = *code;
        let _ = code.switch_to(body);
        let ghost c4 = *code;
        if let Err(e) = self.check(code, 0) {
            return Err(e);
        }
        proof {
            assert forall|w: World|
                #![trigger code.at(w)]
                match old(code).at(w) {
                    Status::Run(s) => turned(
                        code.at(w),
                        s,
                        old(code).len(),
                        admitted(
                            *self,
                            self.addresses(s),
                            s.vals[caller_stack as int],
                            function as int,
                            s.trace,
                            w,
                        ),
                    ),
                    st => code.at(w) == st,
                } by {
                waits_for_known_blocks(old(code).insts@, w);
                let a1 = c1.at(w);
                let a2 = c2.at(w);
                let a3 = c3.at(w);
                let a4 = c4.at(w);
            }
        }
        Ok(())
    }
}

/// What the runtime is told of a call that is entered.
pub open spec fn enter_args(
    frame: int,
    call_pc: u32,
    resume_pc: u32,
    kind: u32,
    argc: int,
    output: int,
) -> Seq<int> {
    seq![
        frame,
        wrap(Ty::I32, 0),
        wrap(Ty::I32, call_pc as int),
        wrap(Ty::I32, resume_pc as int),
        wrap(Ty::I32, kind as int),
        wrap(Ty::I32, argc),
        output,
    ]
}

/// Asks the runtime for a frame; answers the positions of the status and of
/// the address through which the frame is found.
pub fn ask_frame(
    code: &mut Code,
    slot: usize,
    enter: u64,
    frame: usize,
    call_pc: u32,
    resume_pc: u32,
    kind: u32,
    argc: u16,
) -> (r: (usize, usize))
    requires
        frame < old(code).len(),
    ensures
        kept(*old(code), *final(code)),
        old(code).slotted(slot) && old(code).holds(frame, Ty::I64) ==> steady(*old(code), *final(code)),
        final(code).kind(r.0 as int) == Known::Value(Ty::I32),
        final(code).kind(r.1 as int) == Known::Value(Ty::I64),
        r.0 < final(code).len(),
        r.1 < final(code).len(),
        old(code).len() < final(code).len(),
        forall|w: World|
            #![trigger final(code).at(w)]
            match old(code).at(w) {
                Status::Run(s) => {
                    let output = seen(s.trace, Ty::I64, w);
                    let t1 = s.trace.push(Event::SlotAddr { slot: slot as int, offset: 0, address: output });
                    &&& runs_on(
                        final(code).at(w),
                        s,
                        old(code).len(),
                        s.vars,
                        call_event(
                            enter,
                            enter_args(s.vals[frame as int], call_pc, resume_pc, kind, argc as int, output),
                            t1,
                            w,
                        ),
                    )
                    &&& value(final(code).at(w), r.0) == seen(t1, Ty::I32, w)
                    &&& value(final(code).at(w), r.1) == output
                },
                st => final(code).at(w) == st,
            },
{
    let output = code.slot_addr(slot, 0);
    let zero = code.iconst(Ty::I32, 0);
    let at = code.iconst(Ty::I32, call_pc as i64);
    let next = code.iconst(Ty::I32, resume_pc as i64);
    let call_kind = code.iconst(Ty::I32, kind as i64);
    let count = code.iconst(Ty::I32, argc as i64);
    let mut parameters: Vec<usize> = Vec::new();
    parameters.push(frame);
    parameters.push(zero);
    parameters.push(at);
    parameters.push(next);
    parameters.push(call_kind);
    parameters.push(count);
    parameters.push(output);
    let mut types: Vec<Ty> = Vec::new();
    types.push(Ty::I64);
    types.push(Ty::I32);
    types.push(Ty::I32);
    types.push(Ty::I32);
    types.push(Ty::I32);
    types.push(Ty::I32);
    types.push(Ty::I64);
    let ghost list = parameters@;
    let ghost c1 = *code;
    let result = runtime_call(code, enter, parameters, types);
    proof {
        assert forall|w: World|
            #![trigger code.at(w)]
            match old(code).at(w) {
                Status::Run(s) => {
                    let address = seen(s.trace, Ty::I64, w);
                    let t1 = s.trace.push(Event::SlotAddr { slot: slot as int, offset: 0, address });
                    &&& runs_on(
                        code.at(w),
                        s,
                        old(code).len(),
                        s.vars,
                        call_event(
                            enter,
                            enter_args(s.vals[frame as int], call_pc, resume_pc, kind, argc as int, address),
                            t1,
                            w,
                        ),
                    )
                    &&& value(code.at(w), result) == seen(t1, Ty::I32, w)
                    &&& value(code.at(w), output) == address
                },
                st => code.at(w) == st,
            } by {
            let a1 = c1.at(w);
            if let Status::Run(s) = old(code).at(w) {
                assert(a1->Run_0.get(list) =~= enter_args(
                    s.vals[frame as int],
                    call_pc,
                    resume_pc,
                    kind,
                    argc as int,
                    seen(s.trace, Ty::I64, w),
                ));
            }
        }
    }
    (result, output)
}

/// How far a nested call got before its frame was looked at.
pub struct Entering {
    pub turn: Turn,
    pub output: int,
}

/// Entering a callee from an inlined frame.
pub open spec fn entering(
    f: InlineFrame<'_>,
    a: InlineAddresses,
    child: FrameRegion,
    trace: Seq<Event>,
    boundary: InlineBoundary,
    argc: u16,
    has_this: bool,
    depth: int,
    w: World,
) -> Entering {
    let abi = *f.root.abi;
    let callee = loaded(trace, a.stack + call_function(argc, has_this, depth) * 16, w);
    let t1 = callee_reads(abi, callee_of(child), callee.payload, callee.tag, callee.trace, w);
    if !callee_fits(callee_of(child), callee.payload, callee.tag, callee.trace, w) {
        Entering { turn: left(resumed(f, a, t1, boundary.pc, false, w)), output: 0 }
    } else {
        let t2 = top_store(pc_store(t1, abi, a.frame, boundary.pc, w), abi, a.frame, a.stack, depth);
        let output = seen(t2, Ty::I64, w);
        let t3 = t2.push(Event::SlotAddr { slot: f.root.call_output as int, offset: 0, address: output });
        let answer = seen(t3, Ty::I32, w);
        let t4 = call_event(
            f.api.enter->Some_0,
            enter_args(a.frame, boundary.pc, boundary.next_pc, child.abi_kind, argc as int, output),
            t3,
            w,
        );
        Entering {
            turn: if answer == 0 {
                on(t4)
            } else if answer == f.api.guard_miss {
                left(resumed(f, a, t4, boundary.pc, false, w))
            } else {
                left(resumed(f, a, t4, boundary.next_pc, true, w))
            },
            output,
        }
    }
}

impl<'a> InlineFrame<'a> {
    /// Looks at the callee of a nested call; the interpreter executes the call
    /// where it is another one.
    fn check_callee(&self, code: &mut Code, child: &FrameRegion, pc: u32, function: usize) -> (r: Result<
        (),
        CompileFailure,
    >)
        requires
            self.wf(old(code).len()),
            function <= 0x1_0010,
        ensures
            kept(*old(code), *final(code)),
            r is Ok && self.typed(*old(code)) ==> steady(*old(code), *final(code)),
            r is Ok <==> self.api.resume is Some,
            r is Err ==> r == Err::<(), CompileFailure>(CompileFailure::InvalidArtifact),
            final(code).len() >= old(code).len(),
            r is Ok ==> forall|w: World|
                #![trigger final(code).at(w)]
                match old(code).at(w) {
                    Status::Run(s) => {
                        let a = self.addresses(s);
                        let callee = loaded(s.trace, a.stack + function * 16, w);
                        let t1 = callee_reads(
                            *self.root.abi,
                            callee_of(*child),
                            callee.payload,
                            callee.tag,
                            callee.trace,
                            w,
                        );
                        turned(
                            final(code).at(w),
                            s,
                            old(code).len(),
                            if callee_fits(callee_of(*child), callee.payload, callee.tag, callee.trace, w) {
                                on(t1)
                            } else {
                                left(resumed(*self, a, t1, pc, false, w))
                            },
                        )
                    },
                    st => final(code).at(w) == st,
                },
    {
        let rejected = code.new_block();
        let callee = opt_load(code, self.ids.stack, function);
        let ghost c1 = *code;
        emit_guarded_direct_callee_identity(
            code,
            self.root.abi,
            callee,
            DirectCalleeIdentity { object: child.object_identity, bytecode: child.bytecode_identity },
            rejected,
        );
        let ghost c2 = *code;
        let guarded = code.new_block();
        code.jump(guarded);
        let _ = code.switch_to(rejected);
        let ghost c3 = *code;
        if let Err(e) = self.resume(code, pc, false) {
            return Err(e);
        }
        let ghost c4 = *code;
        let _ = code.switch_to(guarded);
        proof {
            assert forall|w: World|
                #![trigger code.at(w)]
                match old(code).at(w) {
                    Status::Run(s) => {
                        let a = self.addresses(s);
                        let callee = loaded(s.trace, a.stack + function * 16, w);
                        let t1 = callee_reads(
                            *self.root.abi,
                            callee_of(*child),
                            callee.payload,
                            callee.tag,
                            callee.trace,
                            w,
                        );
                        turned(
                            code.at(w),
                            s,
                            old(code).len(),
                            if callee_fits(callee_of(*child), callee.payload, callee.tag, callee.trace, w) {
                                on(t1)
                            } else {
                                left(resumed(*self, a, t1, pc, false, w))
                            },
                        )
                    },
                    st => code.at(w) == st,
                } by {
                waits_for_known_blocks(old(code).insts@, w);
                let a1 = c1.at(w);
                let a2 = c2.at(w);
                let a3 = c3.at(w);
                let a4 = c4.at(w);
            }
        }
        Ok(())
    }

    /// Goes on where the runtime made a frame, and hands the call to the
    /// interpreter otherwise.
    fn require_frame(&self, code: &mut Code, answer: usize, boundary: InlineBoundary) -> (r: Result<(), CompileFailure>)
        requires
            self.wf(old(code).len()),
            answer < old(code).len(),
        ensures
            kept(*old(code), *final(code)),
            r is Ok && self.typed(*old(code)) && old(code).holds(answer, Ty::I32) ==> steady(*old(code), *final(code)),
            r is Ok <==> self.api.resume is Some,
            r is Err ==> r == Err::<(), CompileFailure>(CompileFailure::InvalidArtifact),
            final(code).len() >= old(code).len(),
            r is Ok ==> forall|w: World|
                #![trigger final(code).at(w)]
                match old(code).at(w) {
                    Status::Run(s) => turned(
                        final(code).at(w),
                        s,
                        old(code).len(),
                        if s.vals[answer as int] == 0 {
                            on(s.trace)
                        } else if s.vals[answer as int] == self.api.guard_miss {
                            left(resumed(*self, self.addresses(s), s.trace, boundary.pc, false, w))
                        } else {
                            left(resumed(*self, self.addresses(s), s.trace, boundary.next_pc, true, w))
                        },
                    ),
                    st => final(code).at(w) == st,
                },
    {
        let okay = code.compare_imm(IntCc::Equal, Ty::I32, answer, 0);
        let entered = code.new_block();
        let declined = code.new_block();
        code.branch(okay, entered, declined);
        let _ = code.switch_to(declined);
        let miss = code.compare_imm(IntCc::Equal, Ty::I32, answer, self.api.guard_miss);
        let missed = code.new_block();
        let exception = code.new_block();
        code.branch(miss, missed, exception);
        let ghost c1 = *code;
        let _ = code.switch_to(missed);
        let ghost c2 = *code;
        if let Err(e) = self.resume(code, boundary.pc, false) {
            return Err(e);
        }
        let ghost c3 = *code;
        let _ = code.switch_to(exception);
        let ghost c4 = *code;
        if let Err(e) = self.resume(code, boundary.next_pc, true) {
            return Err(e);
        }
        let ghost c5 = *code;
        let _ = code.switch_to(entered);
        proof {
            assert forall|w: World|
                #![trigger code.at(w)]
                match old(code).at(w) {
                    Status::Run(s) => turned(
                        code.at(w),
                        s,
                        old(code).len(),
                        if s.vals[answer as int] == 0 {
                            on(s.trace)
                        } else if s.vals[answer as int] == self.api.guard_miss {
                            left(resumed(*self, self.addresses(s), s.trace, boundary.pc, false, w))
                        } else {
                            left(resumed(*self, self.addresses(s), s.trace, boundary.next_pc, true, w))
                        },
                    ),
                    st => code.at(w) == st,
                } by {
                waits_for_known_blocks(old(code).insts@, w);
                let a1 = c1.at(w);
                let a2 = c2.at(w);
                let a3 = c3.at(w);
                let a4 = c4.at(w);
                let a5 = c5.at(w);
            }
        }
        Ok(())
    }

    /// Emits `entering`; answers where the new frame's address is found.
    pub(crate) fn enter_child(
        &self,
        code: &mut Code,
        child: &FrameRegion,
        boundary: InlineBoundary,
        argc: u16,
        has_this: bool,
        depth: usize,
    ) -> (r: Result<usize, CompileFailure>)
        requires
            self.wf(old(code).len()),
            depth <= 0xffff,
            call_base(argc, has_this, depth as int) >= 0,
        ensures
            kept(*old(code), *final(code)),
            r is Ok && self.typed(*old(code)) ==> steady(*old(code), *final(code)),
            r matches Ok(output) ==> final(code).holds(output, Ty::I64),
            r is Ok <==> self.api.resume is Some && self.api.enter is Some,
            r is Err ==> r == Err::<usize, CompileFailure>(CompileFailure::InvalidArtifact),
            final(code).len() >= old(code).len(),
            r matches Ok(output) ==> output < final(code).len() && forall|w: World|
                #![trigger final(code).at(w)]
                match old(code).at(w) {
                    Status::Run(s) => {
                        let e = entering(
                            *self,
                            self.addresses(s),
                            *child,
                            s.trace,
                            boundary,
                            argc,
                            has_this,
                            depth as int,
                            w,
                        );
                        &&& turned(final(code).at(w), s, old(code).len(), e.turn)
                        &&& e.turn.end is On ==> value(final(code).at(w), output) == e.output
                    },
                    st => final(code).at(w) == st,
                },
    {
        let enter = match self.api.enter {
            Some(enter) => enter,
            None => {
                return Err(CompileFailure::InvalidArtifact);
            },
        };
        let function: usize = depth - argc as usize - 1;
        if let Err(e) = self.check_callee(code, child, boundary.pc, function) {
            return Err(e);
        }
        let ghost c1 = *code;
        self.origin(code, boundary.pc);
        let ghost c2 = *code;
        self.depth(code, depth);
        let ghost c3 = *code;
        let (answer, output) = ask_frame(
            code,
            self.root.call_output,
            enter,
            self.ids.frame,
            boundary.pc,
            boundary.next_pc,
            child.abi_kind,
            argc,
        );
        let ghost c4 = *code;
        if let Err(e) = self.require_frame(code, answer, boundary) {
            return Err(e);
        }
        proof {
            assert forall|w: World|
                #![trigger code.at(w)]
                match old(code).at(w) {
                    Status::Run(s) => {
                        let e = entering(
                            *self,
                            self.addresses(s),
                            *child,
                            s.trace,
                            boundary,
                            argc,
                            has_this,
                            depth as int,
                            w,
                        );
                        &&& turned(code.at(w), s, old(code).len(), e.turn)
                        &&& e.turn.end is On ==> value(code.at(w), output) == e.output
                    },
                    st => code.at(w) == st,
                } by {
                let a1 = c1.at(w);
                let a2 = c2.at(w);
                let a3 = c3.at(w);
                let a4 = c4.at(w);
            }
        }
        Ok(output)
    }
}

} // verus!
