//! Frames of inlined bytecode. Their slots live in memory and are what recovery
//! reads: every committed effect is followed only by recovery at its successor.
use crate::checks::read;
use crate::checks::seen;
use crate::checks::waits_at;
use crate::code::value;
use crate::code::waits_for_known_blocks;
use crate::code::wrap;
use crate::code::kept;
use crate::code::Code;
use crate::code::Event;
use crate::code::IntCc;
use crate::code::State;
use crate::code::Status;
use crate::code::Ty;
use crate::code::World;
use crate::control::CompileFailure;
use crate::exits::pc_store;
use crate::exits::set_pc;
use crate::frame::as_arguments;
use crate::frame::call_helper;
use crate::frame::emit_opt_exit;
use crate::frame::exit_record;
use crate::frame::exits_with;
use crate::frame::helper_call;
use crate::frame::helper_known;
use crate::frame::helper_status;
use crate::frame::opt_set_stack_top;
use crate::frame::runs_on;
use crate::frame::top_store;
use crate::frame::OptEnv;
use crate::ir::FrameShape;
use crate::lower_values::FrameBinaryOp;
use crate::runtime::TaggedValue;
use crate::typing::steady;
use crate::typing::closing;
use crate::typing::calm;
use crate::assemble::Known;
use crate::frame_typing::pair_held;
use crate::frame_typing::slot_named;
use crate::frame_typing::slots_named;
use crate::frame_typing::cached_named;
use crate::frame_typing::cache_named;
use crate::frame_typing::args_held;
use crate::frame_typing::word_types;
use vstd::prelude::*;

verus! {

broadcast use {crate::typing::group_typing, crate::frame_typing::group_frame};

/// The runtime's entry points for inlined frames, and what they answer.
#[derive(Debug)]
pub struct InlineApi {
    pub enter: Option<u64>,
    pub resume: Option<u64>,
    pub check: Option<u64>,
    pub leave: Option<u64>,
    /// The answer of a frame whose code has been retired.
    pub guard_miss: i64,
    pub resume_exception: u32,
    pub resume_instruction: u32,
    /// Where a frame names its function.
    pub function_id: i32,
    pub generation: i32,
}

#[derive(Clone, Copy, Debug, PartialEq, Eq, Structural)]
pub enum InlineOp {
    Nop,
    Push(TaggedValue),
    GetArgument(u16),
    GetLocal(u16),
    GetLocalChecked(u16),
    PutArgument { index: u16, keep: bool },
    PutLocal { index: u16, keep: bool },
    PutLocalChecked { index: u16, initialize: bool },
    SetLocalUninitialized(u16),
    Drop,
    Dup,
    Swap,
    Binary(FrameBinaryOp),
    Increment,
    Decrement,
    PostIncrement,
    PostDecrement,
    GetProperty(u32),
    GetPropertyKeep(u32),
    SetProperty(u32),
    Call { argc: u16, has_this: bool },
    Jump(u32),
    Branch { target: u32, when_true: bool },
    Return,
    ReturnUndefined,
    Poll { entry: bool },
    OsrLabel,
    /// An instruction that the interpreter executes.
    Other,
}

#[derive(Clone, Copy, Debug, PartialEq, Eq, Structural)]
pub struct InlineInstruction {
    pub pc: u32,
    pub op: InlineOp,
}

#[derive(Debug)]
pub struct InlineBlock {
    pub start_pc: u32,
    pub stack_depth: u16,
    pub instructions: Vec<InlineInstruction>,
}

/// The operand stack around an instruction, and where execution goes on.
#[derive(Clone, Copy, Debug, PartialEq, Eq, Structural)]
pub struct InlineBoundary {
    pub pc: u32,
    pub next_pc: u32,
    pub stack_before: u16,
    pub stack_after: u16,
}

#[derive(Clone, Copy, Debug, PartialEq, Eq, Structural)]
pub enum InlineCallKind {
    Call,
    Method,
}

/// A callee whose bytecode is inlined; `children` are the calls in it that are
/// inlined too, by program counter and position among all regions.
#[derive(Debug)]
pub struct FrameRegion {
    pub object_identity: u64,
    pub bytecode_identity: u64,
    pub function_id: u64,
    pub generation: u64,
    pub call_kind: InlineCallKind,
    pub abi_kind: u32,
    pub call_node: u32,
    pub call_pc: u32,
    pub resume_pc: u32,
    /// The guard whose map describes the frame behind the call, and that frame.
    pub guard: u32,
    pub shape: FrameShape,
    pub argument_count: u16,
    pub local_count: u16,
    pub blocks: Vec<InlineBlock>,
    pub boundaries: Vec<InlineBoundary>,
    pub children: Vec<InlineChild>,
}

#[derive(Clone, Copy, Debug, PartialEq, Eq, Structural)]
pub struct InlineChild {
    pub pc: u32,
    pub region: usize,
}

/// The values that address an inlined frame.
#[derive(Clone, Copy, Debug, PartialEq, Eq, Structural)]
pub struct InlineIds {
    pub frame: usize,
    pub arguments: usize,
    pub locals: usize,
    pub stack: usize,
}

/// An inlined frame: the function that it is part of, its region and where it lives.
pub struct InlineFrame<'a> {
    pub root: &'a OptEnv<'a>,
    pub api: &'a InlineApi,
    pub regions: &'a Vec<FrameRegion>,
    pub region: usize,
    pub ids: InlineIds,
}

/// The addresses that a frame's code works with.
pub struct InlineAddresses {
    pub root: int,
    pub sret: int,
    pub frame: int,
    pub arguments: int,
    pub locals: int,
    pub stack: int,
}

/// Where control is after a piece of code.
pub enum End {
    On,
    Left,
    At(usize),
}

pub struct Turn {
    pub end: End,
    pub trace: Seq<Event>,
}

pub open spec fn turned(st: Status, s: State, n: int, turn: Turn) -> bool {
    match turn.end {
        End::On => runs_on(st, s, n, s.vars, turn.trace),
        End::Left => exits_with(st, turn.trace),
        End::At(block) => waits_at(st, s, n, block, s.vars, turn.trace),
    }
}

pub open spec fn on(trace: Seq<Event>) -> Turn {
    Turn { end: End::On, trace }
}

pub open spec fn left(trace: Seq<Event>) -> Turn {
    Turn { end: End::Left, trace }
}

/// What the runtime offers to inlined code.
pub struct Offers {
    pub enter: bool,
    pub check: bool,
    pub resume: bool,
    pub leave: bool,
    pub poll: bool,
    pub dup: bool,
    pub free: bool,
    pub get_property: bool,
    pub set_property: bool,
    pub call: bool,
    pub to_bool: bool,
}

pub open spec fn offered(env: OptEnv<'_>, api: InlineApi) -> Offers {
    Offers {
        enter: api.enter is Some,
        check: api.check is Some,
        resume: api.resume is Some,
        leave: api.leave is Some,
        poll: helper_known(env, env.abi.helper_poll),
        dup: helper_known(env, env.abi.helper_dup),
        free: helper_known(env, env.abi.helper_free),
        get_property: helper_known(env, env.abi.helper_get_property),
        set_property: helper_known(env, env.abi.helper_set_property),
        call: helper_known(env, env.abi.helper_call),
        to_bool: helper_known(env, env.abi.helper_to_bool),
    }
}

impl<'a> InlineFrame<'a> {
    pub open spec fn wf(&self, n: int) -> bool {
        &&& self.root.wf(n)
        &&& !self.root.int32_loop
        &&& self.ids.frame < n
        &&& self.ids.arguments < n
        &&& self.ids.locals < n
        &&& self.ids.stack < n
        &&& self.region < self.regions@.len()
    }

    pub open spec fn body(&self) -> FrameRegion {
        self.regions@[self.region as int]
    }

    pub open spec fn addresses(&self, s: State) -> InlineAddresses {
        InlineAddresses {
            root: s.vals[self.root.frame as int],
            sret: s.vals[self.root.sret as int],
            frame: s.vals[self.ids.frame as int],
            arguments: s.vals[self.ids.arguments as int],
            locals: s.vals[self.ids.locals as int],
            stack: s.vals[self.ids.stack as int],
        }
    }

    pub open spec fn offers(&self) -> Offers {
        offered(*self.root, *self.api)
    }

    pub open spec fn flat_slot(&self, index: int) -> int {
        self.body().argument_count + self.body().local_count + index
    }

    /// The frame as the helpers' code sees it.
    fn inner(&self) -> (r: OptEnv<'a>)
        ensures
            r == (OptEnv {
                frame: self.ids.frame,
                arg_buf: self.ids.arguments,
                var_buf: self.ids.locals,
                stack_base: self.ids.stack,
                ..*self.root
            }),
    {
        OptEnv {
            frame: self.ids.frame,
            sret: self.root.sret,
            arg_buf: self.ids.arguments,
            var_buf: self.ids.locals,
            stack_base: self.ids.stack,
            payload_type: self.root.payload_type,
            int32_loop: self.root.int32_loop,
            arguments: self.root.arguments,
            locals: self.root.locals,
            stack: self.root.stack,
            helper_signatures: self.root.helper_signatures,
            abi: self.root.abi,
            cache: self.root.cache,
            query_receiver: self.root.query_receiver,
            query_metadata: self.root.query_metadata,
            call_output: self.root.call_output,
        }
    }

    pub fn flat(&self, index: usize) -> (r: u32)
        requires
            self.region < self.regions@.len(),
            index <= 0x1_0010,
        ensures
            r == self.flat_slot(index as int),
    {
        let region = &self.regions[self.region];
        region.argument_count as u32 + region.local_count as u32 + index as u32
    }

    /// Publishes the depth of the frame's operand stack.
    pub fn depth(&self, code: &mut Code, depth: usize)
        requires
            self.wf(old(code).len()),
            depth <= 0x1_0010,
        ensures
            kept(*old(code), *final(code)),
            self.typed(*old(code)) ==> steady(*old(code), *final(code)),
            final(code).len() > old(code).len(),
            forall|w: World|
                #![trigger final(code).at(w)]
                match old(code).at(w) {
                    Status::Run(s) => runs_on(
                        final(code).at(w),
                        s,
                        old(code).len(),
                        s.vars,
                        top_store(
                            s.trace,
                            *self.root.abi,
                            self.addresses(s).frame,
                            self.addresses(s).stack,
                            depth as int,
                        ),
                    ),
                    st => final(code).at(w) == st,
                },
    {
        proof {
            reveal(OptEnv::typed);
        }
        opt_set_stack_top(code, &self.inner(), depth);
    }

    /// Publishes the frame's program counter.
    pub fn origin(&self, code: &mut Code, pc: u32)
        requires
            self.wf(old(code).len()),
        ensures
            kept(*old(code), *final(code)),
            self.typed(*old(code)) ==> steady(*old(code), *final(code)),
            final(code).len() > old(code).len(),
            forall|w: World|
                #![trigger final(code).at(w)]
                match old(code).at(w) {
                    Status::Run(s) => runs_on(
                        final(code).at(w),
                        s,
                        old(code).len(),
                        s.vars,
                        pc_store(s.trace, *self.root.abi, self.addresses(s).frame, pc, w),
                    ),
                    st => final(code).at(w) == st,
                },
    {
        proof {
            reveal(OptEnv::typed);
        }
        let _ = set_pc(code, &self.inner(), pc);
    }
}

/// A call of the runtime at a known address.
pub open spec fn call_event(address: u64, args: Seq<int>, trace: Seq<Event>, w: World) -> Seq<Event> {
    trace.push(
        Event::Call { callee: wrap(Ty::I64, (address as i64) as int), args, result: seen(trace, Ty::I32, w) },
    )
}

/// Calls the runtime; answers its status.
pub fn runtime_call(code: &mut Code, address: u64, parameters: Vec<usize>, types: Vec<Ty>) -> (r: usize)
    requires
        forall|k: int| 0 <= k < parameters@.len() ==> #[trigger] parameters@[k] < old(code).len(),
    ensures
        kept(*old(code), *final(code)),
        args_held(*old(code), parameters@, types@) ==> steady(*old(code), *final(code)),
        final(code).kind(r as int) == Known::Value(Ty::I32),
        r < final(code).len(),
        old(code).len() < final(code).len(),
        forall|w: World|
            #![trigger final(code).at(w)]
            match old(code).at(w) {
                Status::Run(s) => {
                    &&& runs_on(
                        final(code).at(w),
                        s,
                        old(code).len(),
                        s.vars,
                        call_event(address, s.get(parameters@), s.trace, w),
                    )
                    &&& value(final(code).at(w), r) == seen(s.trace, Ty::I32, w)
                },
                st => final(code).at(w) == st,
            },
{
    let ghost list = parameters@;
    let signature = code.new_signature(types, Some(Ty::I32));
    let pointer = code.iconst(Ty::I64, address as i64);
    let ghost c1 = *code;
    let r = code.call(signature, Ty::I32, pointer, parameters);
    proof {
        assert forall|w: World|
            #![trigger code.at(w)]
            match old(code).at(w) {
                Status::Run(s) => {
                    &&& runs_on(
                        code.at(w),
                        s,
                        old(code).len(),
                        s.vars,
                        call_event(address, s.get(list), s.trace, w),
                    )
                    &&& value(code.at(w), r) == seen(s.trace, Ty::I32, w)
                },
                st => code.at(w) == st,
            } by {
            let a1 = c1.at(w);
            if let Status::Run(s) = old(code).at(w) {
                assert(a1->Run_0.get(list) =~= s.get(list)) by {
                    assert forall|k: int| 0 <= k < list.len() implies a1->Run_0.vals[list[k] as int]
                        == s.vals[list[k] as int] by {
                        assert(list[k] < old(code).len());
                    }
                }
            }
        }
    }
    r
}

/// Handing the frame back to the interpreter: it executes the instruction at
/// `pc` again, or handles an exception that was raised there. The caller's
/// frame has then been rebuilt, and its own program counter says where to go on.
pub open spec fn resumed(
    f: InlineFrame<'_>,
    a: InlineAddresses,
    trace: Seq<Event>,
    pc: u32,
    exception: bool,
    w: World,
) -> Seq<Event> {
    let abi = *f.root.abi;
    let kind = if exception {
        f.api.resume_exception
    } else {
        f.api.resume_instruction
    };
    let t1 = pc_store(trace, abi, a.frame, pc, w);
    let t2 = call_event(
        f.api.resume->Some_0,
        seq![a.frame, wrap(Ty::I32, pc as int), wrap(Ty::I32, kind as int)],
        t1,
        w,
    );
    if seen(t1, Ty::I32, w) != 0 {
        exit_record(t2, abi, a.sret, abi.exit_exception, 0, 0)
    } else {
        exit_record(
            read(t2, Ty::I64, a.root + abi.pc, w),
            abi,
            a.sret,
            abi.exit_deopt,
            seen(t2, Ty::I64, w),
            f.body().guard,
        )
    }
}

/// A helper that works on the frame; an exception is handled in the frame.
pub open spec fn helped(
    f: InlineFrame<'_>,
    a: InlineAddresses,
    trace: Seq<Event>,
    helper: usize,
    args: Seq<u32>,
    pc: u32,
    live: int,
    exception_depth: int,
    w: World,
) -> Turn {
    let abi = *f.root.abi;
    let t1 = top_store(pc_store(trace, abi, a.frame, pc, w), abi, a.frame, a.stack, live);
    let called = helper_call(t1, abi, a.frame, helper as int, as_arguments(args), w);
    if helper_status(t1, w) == 0 {
        on(called)
    } else {
        left(resumed(f, a, top_store(called, abi, a.frame, a.stack, exception_depth), pc, true, w))
    }
}

/// Asks whether the frame's code is still valid.
pub open spec fn checked(f: InlineFrame<'_>, a: InlineAddresses, trace: Seq<Event>, pc: u32, w: World) -> Turn {
    let status = seen(trace, Ty::I32, w);
    let t1 = call_event(f.api.check->Some_0, seq![a.frame], trace, w);
    if status == 0 {
        on(t1)
    } else {
        left(resumed(f, a, t1, pc, status != f.api.guard_miss, w))
    }
}

/// Gives up the frame with the result at a stack slot; control goes on at `next`.
pub open spec fn leaves(
    f: InlineFrame<'_>,
    a: InlineAddresses,
    trace: Seq<Event>,
    result: int,
    next: usize,
    last_pc: u32,
    w: World,
) -> Turn {
    let t1 = call_event(
        f.api.leave->Some_0,
        seq![a.frame, wrap(Ty::I32, f.flat_slot(result))],
        trace,
        w,
    );
    if seen(trace, Ty::I32, w) == 0 {
        Turn { end: End::At(next), trace: t1 }
    } else {
        left(resumed(f, a, t1, last_pc, true, w))
    }
}

fn pair_types() -> (r: Vec<Ty>)
    ensures
        r@ == seq![Ty::I64, Ty::I32],
{
    let mut types: Vec<Ty> = Vec::new();
    types.push(Ty::I64);
    types.push(Ty::I32);
    types
}

impl<'a> InlineFrame<'a> {
    /// Emits `resumed`.
    pub fn resume(&self, code: &mut Code, pc: u32, exception: bool) -> (r: Result<(), CompileFailure>)
        requires
            self.wf(old(code).len()),
        ensures
            kept(*old(code), *final(code)),
            r is Ok && self.typed(*old(code)) ==> closing(*old(code), *final(code)),
            r is Ok <==> self.api.resume is Some,
            r is Err ==> r == Err::<(), CompileFailure>(CompileFailure::InvalidArtifact),
            final(code).len() >= old(code).len(),
            r is Ok ==> forall|w: World|
                #![trigger final(code).at(w)]
                match old(code).at(w) {
                    Status::Run(s) => exits_with(
                        final(code).at(w),
                        resumed(*self, self.addresses(s), s.trace, pc, exception, w),
                    ),
                    st => final(code).at(w) == st,
                },
    {
        let address = match self.api.resume {
            Some(address) => address,
            None => {
                return Err(CompileFailure::InvalidArtifact);
            },
        };
        self.origin(code, pc);
        let ghost c1 = *code;
        let at = code.iconst(Ty::I32, pc as i64);
        let kind = code.iconst(
            Ty::I32,
            (if exception {
                self.api.resume_exception
            } else {
                self.api.resume_instruction
            }) as i64,
        );
        let mut parameters: Vec<usize> = Vec::new();
        parameters.push(self.ids.frame);
        parameters.push(at);
        parameters.push(kind);
        let mut types = pair_types();
        types.push(Ty::I32);
        let ghost list = parameters@;
        let ghost c2 = *code;
        let status = runtime_call(code, address, parameters, types);
        let ghost c3 = *code;
        let okay = code.compare_imm(IntCc::Equal, Ty::I32, status, 0);
        let success = code.new_block();
        let failed = code.new_block();
        code.branch(okay, success, failed);
        let _ = code.switch_to(failed);
        let ghost c4 = *code;
        emit_opt_exit(code, self.root, self.root.abi.exit_exception, None, 0);
        let ghost c5 = *code;
        let _ = code.switch_to(success);
        // Every inlined frame has been materialized and consumed by now: the
        // values at hand are stale, and only what the frame says is exact.
        let resume_pc = code.load(Ty::I64, self.root.frame, self.root.abi.pc);
        let ghost c6 = *code;
        emit_opt_exit(code, self.root, self.root.abi.exit_deopt, Some(resume_pc), self.regions[self.region].guard);
        proof {
            assert forall|w: World|
                #![trigger code.at(w)]
                match old(code).at(w) {
                    Status::Run(s) => exits_with(
                        code.at(w),
                        resumed(*self, self.addresses(s), s.trace, pc, exception, w),
                    ),
                    st => code.at(w) == st,
                } by {
                waits_for_known_blocks(old(code).insts@, w);
                let a1 = c1.at(w);
                let a2 = c2.at(w);
                let a3 = c3.at(w);
                let a4 = c4.at(w);
                let a5 = c5.at(w);
                let a6 = c6.at(w);
                if let Status::Run(s) = old(code).at(w) {
                    let kind_value = if exception {
                        self.api.resume_exception
                    } else {
                        self.api.resume_instruction
                    };
                    assert(a2->Run_0.get(list) =~= seq![
                        self.addresses(s).frame,
                        wrap(Ty::I32, pc as int),
                        wrap(Ty::I32, kind_value as int),
                    ]);
                }
            }
        }
        Ok(())
    }

    /// Emits `helped`.
    pub fn helper(
        &self,
        code: &mut Code,
        id: usize,
        arguments: &Vec<u32>,
        pc: u32,
        live: usize,
        exception_depth: usize,
    ) -> (r: Result<(), CompileFailure>)
        requires
            self.wf(old(code).len()),
            live <= 0x1_0010,
            exception_depth <= 0x1_0010,
        ensures
            kept(*old(code), *final(code)),
            r is Ok && self.typed(*old(code)) && self.root.takes(*old(code), id, arguments@.len())
                ==> steady(*old(code), *final(code)),
            r is Ok <==> helper_known(*self.root, id) && self.api.resume is Some,
            r is Err ==> r == Err::<(), CompileFailure>(CompileFailure::InvalidArtifact),
            final(code).len() >= old(code).len(),
            r is Ok ==> forall|w: World|
                #![trigger final(code).at(w)]
                match old(code).at(w) {
                    Status::Run(s) => turned(
                        final(code).at(w),
                        s,
                        old(code).len(),
                        helped(
                            *self,
                            self.addresses(s),
                            s.trace,
                            id,
                            arguments@,
                            pc,
                            live as int,
                            exception_depth as int,
                            w,
                        ),
                    ),
                    st => final(code).at(w) == st,
                },
    {
        proof {
            reveal(OptEnv::typed);
        }
        if id >= self.root.helper_signatures.len() || id >= self.root.abi.helper_offsets.len() {
            return Err(CompileFailure::InvalidArtifact);
        }
        self.origin(code, pc);
        let ghost c1 = *code;
        self.depth(code, live);
        let ghost c2 = *code;
        let status = call_helper(code, &self.inner(), id, arguments);
        let ghost c3 = *code;
        let okay = code.compare_imm(IntCc::Equal, Ty::I32, status, 0);
        let success = code.new_block();
        let failed = code.new_block();
        code.branch(okay, success, failed);
        let _ = code.switch_to(failed);
        let ghost c4 = *code;
        self.depth(code, exception_depth);
        let ghost c5 = *code;
        if let Err(e) = self.resume(code, pc, true) {
            return Err(e);
        }
        let ghost c6 = *code;
        let _ = code.switch_to(success);
        proof {
            assert forall|w: World|
                #![trigger code.at(w)]
                match old(code).at(w) {
                    Status::Run(s) => turned(
                        code.at(w),
                        s,
                        old(code).len(),
                        helped(
                            *self,
                            self.addresses(s),
                            s.trace,
                            id,
                            arguments@,
                            pc,
                            live as int,
                            exception_depth as int,
                            w,
                        ),
                    ),
                    st => code.at(w) == st,
                } by {
                waits_for_known_blocks(old(code).insts@, w);
                let a1 = c1.at(w);
                let a2 = c2.at(w);
                let a3 = c3.at(w);
                let a4 = c4.at(w);
                let a5 = c5.at(w);
                let a6 = c6.at(w);
            }
        }
        Ok(())
    }

    /// Releases a slot of the frame.
    pub fn free(&self, code: &mut Code, slot: u32, pc: u32, live: usize, exception_depth: usize) -> (r: Result<
        (),
        CompileFailure,
    >)
        requires
            self.wf(old(code).len()),
            live <= 0x1_0010,
            exception_depth <= 0x1_0010,
        ensures
            kept(*old(code), *final(code)),
            r is Ok && self.typed(*old(code)) ==> steady(*old(code), *final(code)),
            r is Ok <==> helper_known(*self.root, self.root.abi.helper_free) && self.api.resume is Some,
            r is Err ==> r == Err::<(), CompileFailure>(CompileFailure::InvalidArtifact),
            final(code).len() >= old(code).len(),
            r is Ok ==> forall|w: World|
                #![trigger final(code).at(w)]
                match old(code).at(w) {
                    Status::Run(s) => turned(
                        final(code).at(w),
                        s,
                        old(code).len(),
                        freed(*self, self.addresses(s), s.trace, slot, pc, live as int, exception_depth as int, w),
                    ),
                    st => final(code).at(w) == st,
                },
    {
        let mut words: Vec<u32> = Vec::new();
        words.push(0);
        words.push(slot);
        assert(words@ =~= seq![0, slot]);
        self.helper(code, self.root.abi.helper_free, &words, pc, live, exception_depth)
    }

    /// Emits `checked`.
    pub fn check(&self, code: &mut Code, pc: u32) -> (r: Result<(), CompileFailure>)
        requires
            self.wf(old(code).len()),
        ensures
            kept(*old(code), *final(code)),
            r is Ok && self.typed(*old(code)) ==> steady(*old(code), *final(code)),
            r is Ok <==> self.api.check is Some && self.api.resume is Some,
            r is Err ==> r == Err::<(), CompileFailure>(CompileFailure::InvalidArtifact),
            final(code).len() >= old(code).len(),
            r is Ok ==> forall|w: World|
                #![trigger final(code).at(w)]
                match old(code).at(w) {
                    Status::Run(s) => turned(
                        final(code).at(w),
                        s,
                        old(code).len(),
                        checked(*self, self.addresses(s), s.trace, pc, w),
                    ),
                    st => final(code).at(w) == st,
                },
    {
        let address = match self.api.check {
            Some(address) => address,
            None => {
                return Err(CompileFailure::InvalidArtifact);
            },
        };
        let mut parameters: Vec<usize> = Vec::new();
        parameters.push(self.ids.frame);
        let mut types: Vec<Ty> = Vec::new();
        types.push(Ty::I64);
        let ghost list = parameters@;
        let status = runtime_call(code, address, parameters, types);
        let ghost c1 = *code;
        let okay = code.compare_imm(IntCc::Equal, Ty::I32, status, 0);
        let good = code.new_block();
        let bad = code.new_block();
        code.branch(okay, good, bad);
        let _ = code.switch_to(bad);
        let miss = code.compare_imm(IntCc::Equal, Ty::I32, status, self.api.guard_miss);
        let retired = code.new_block();
        let malformed = code.new_block();
        code.branch(miss, retired, malformed);
        let ghost c2 = *code;
        let _ = code.switch_to(retired);
        let ghost c3 = *code;
        if let Err(e) = self.resume(code, pc, false) {
            return Err(e);
        }
        let ghost c4 = *code;
        let _ = code.switch_to(malformed);
        let ghost c5 = *code;
        if let Err(e) = self.resume(code, pc, true) {
            return Err(e);
        }
        let ghost c6 = *code;
        let _ = code.switch_to(good);
        proof {
            assert forall|w: World|
                #![trigger code.at(w)]
                match old(code).at(w) {
                    Status::Run(s) => turned(
                        code.at(w),
                        s,
                        old(code).len(),
                        checked(*self, self.addresses(s), s.trace, pc, w),
                    ),
                    st => code.at(w) == st,
                } by {
                waits_for_known_blocks(old(code).insts@, w);
                let a1 = c1.at(w);
                let a2 = c2.at(w);
                let a3 = c3.at(w);
                let a4 = c4.at(w);
                let a5 = c5.at(w);
                let a6 = c6.at(w);
                if let Status::Run(s) = old(code).at(w) {
                    assert(s.get(list) =~= seq![self.addresses(s).frame]);
                }
            }
        }
        Ok(())
    }

    /// Emits `leaves`.
    pub fn leave(&self, code: &mut Code, result: usize, next: usize) -> (r: Result<(), CompileFailure>)
        requires
            self.wf(old(code).len()),
            result <= 0x1_0010,
            next < old(code).len(),
        ensures
            kept(*old(code), *final(code)),
            r is Ok && self.typed(*old(code)) && old(code).blocked(next) ==> closing(*old(code), *final(code)),
            r is Ok <==> self.api.leave is Some && self.api.resume is Some && self.body().boundaries@.len() > 0,
            r is Err ==> r == Err::<(), CompileFailure>(CompileFailure::InvalidArtifact),
            final(code).len() >= old(code).len(),
            r is Ok ==> forall|w: World|
                #![trigger final(code).at(w)]
                match old(code).at(w) {
                    Status::Run(s) => turned(
                        final(code).at(w),
                        s,
                        old(code).len(),
                        leaves(
                            *self,
                            self.addresses(s),
                            s.trace,
                            result as int,
                            next,
                            self.body().boundaries@.last().pc,
                            w,
                        ),
                    ),
                    st => final(code).at(w) == st,
                },
    {
        let address = match self.api.leave {
            Some(address) => address,
            None => {
                return Err(CompileFailure::InvalidArtifact);
            },
        };
        let boundaries = &self.regions[self.region].boundaries;
        if boundaries.len() == 0 {
            return Err(CompileFailure::InvalidArtifact);
        }
        let slot = code.iconst(Ty::I32, self.flat(result) as i64);
        let mut parameters: Vec<usize> = Vec::new();
        parameters.push(self.ids.frame);
        parameters.push(slot);
        let ghost list = parameters@;
        let ghost c0 = *code;
        let status = runtime_call(code, address, parameters, pair_types());
        let ghost c1 = *code;
        let okay = code.compare_imm(IntCc::Equal, Ty::I32, status, 0);
        let failed = code.new_block();
        code.branch(okay, next, failed);
        let ghost c2 = *code;
        let _ = code.switch_to(failed);
        let ghost c3 = *code;
        if let Err(e) = self.resume(code, boundaries[boundaries.len() - 1].pc, true) {
            return Err(e);
        }
        proof {
            assert forall|w: World|
                #![trigger code.at(w)]
                match old(code).at(w) {
                    Status::Run(s) => turned(
                        code.at(w),
                        s,
                        old(code).len(),
                        leaves(
                            *self,
                            self.addresses(s),
                            s.trace,
                            result as int,
                            next,
                            self.body().boundaries@.last().pc,
                            w,
                        ),
                    ),
                    st => code.at(w) == st,
                } by {
                waits_for_known_blocks(old(code).insts@, w);
                let a0 = c0.at(w);
                let a1 = c1.at(w);
                let a2 = c2.at(w);
                let a3 = c3.at(w);
                if let Status::Run(s) = old(code).at(w) {
                    assert(a0->Run_0.get(list) =~= seq![
                        self.addresses(s).frame,
                        wrap(Ty::I32, self.flat_slot(result as int)),
                    ]);
                }
            }
        }
        Ok(())
    }
}

pub open spec fn freed(
    f: InlineFrame<'_>,
    a: InlineAddresses,
    trace: Seq<Event>,
    slot: u32,
    pc: u32,
    live: int,
    exception_depth: int,
    w: World,
) -> Turn {
    helped(f, a, trace, f.root.abi.helper_free, seq![0, slot], pc, live, exception_depth, w)
}

} // verus!
