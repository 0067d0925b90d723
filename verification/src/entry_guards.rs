//! Checks at the entry of a function and at the header of a loop.
use crate::arithmetic::is_number;
use crate::checks::read;
use crate::checks::seen;
use crate::checks::waits_at;
use crate::checks::wrote;
use crate::code::binary_value;
use crate::code::quiet;
use crate::code::truth;
use crate::code::value;
use crate::code::waits_for_known_blocks;
use crate::code::wrap;
use crate::code::BinaryOp;
use crate::code::kept;
use crate::code::Code;
use crate::code::Event;
use crate::code::IntCc;
use crate::code::State;
use crate::code::Status;
use crate::code::Ty;
use crate::code::World;
use crate::control::CompileFailure;
use crate::exits::pc_address;
use crate::exits::pc_store;
use crate::exits::set_pc;
use crate::frame::emit_opt_exit;
use crate::frame::exit_record;
use crate::frame::exits_with;
use crate::frame::runs_on;
use crate::frame::OptEnv;
use crate::ir::OptimizedIr;
use crate::lower_values::group_truths;
use crate::lower_values::opt_tag_is;
use crate::lower_values::opt_use;
use crate::lower_values::OptVars;
use crate::qjs::JS_TAG_BOOL;
use crate::qjs::JS_TAG_FLOAT64;
use crate::qjs::JS_TAG_INT;
use crate::qjs::JS_TAG_OBJECT;
use crate::qjs::JS_TAG_UNDEFINED;
use crate::qjs::JS_TAG_UNINITIALIZED;
use crate::runtime::ObservedType;
use crate::runtime::SidePathProfile;
use crate::specialization::EntryRepresentation;
use crate::typing::steady;
use crate::typing::closing;
use crate::typing::calm;
use crate::assemble::Known;
use crate::frame_typing::pair_held;
use crate::frame_typing::slot_named;
use crate::frame_typing::slots_named;
use crate::frame_typing::cached_named;
use crate::frame_typing::cache_named;
use crate::typing::steady_but;
use vstd::prelude::*;

verus! {

broadcast use {crate::typing::group_typing, crate::frame_typing::group_frame};

/// What is required of the slots of a frame.
pub struct SlotRequirements<'a> {
    pub argument_count: usize,
    /// The locals that own their value: nothing is required of those.
    pub owned_locals: &'a Vec<bool>,
    /// What is required of each slot, arguments first, then locals.
    pub representations: &'a Vec<EntryRepresentation>,
    /// What is required of the slots behind them.
    pub representation: EntryRepresentation,
}

impl<'a> SlotRequirements<'a> {
    pub open spec fn required(&self, index: int) -> EntryRepresentation {
        if index >= self.argument_count && index - self.argument_count < self.owned_locals@.len()
            && self.owned_locals@[index - self.argument_count] {
            EntryRepresentation::Any
        } else if index < self.representations@.len() {
            self.representations@[index]
        } else {
            self.representation
        }
    }

    /// The tag meets what is required of the slot. A local that has not been
    /// set yet need not be a number: whoever computes with it checks its tag.
    pub open spec fn admits(&self, index: int, tag: int) -> bool {
        match self.required(index) {
            EntryRepresentation::Any => true,
            EntryRepresentation::Numeric => is_number(tag) || index >= self.argument_count && (tag == JS_TAG_UNDEFINED || tag
                == JS_TAG_UNINITIALIZED),
            EntryRepresentation::Bool => tag == JS_TAG_BOOL,
            EntryRepresentation::Int32 => tag == JS_TAG_INT,
            EntryRepresentation::Float64 => tag == JS_TAG_FLOAT64,
            EntryRepresentation::HeapRef => tag == JS_TAG_OBJECT,
        }
    }

    fn requirement(&self, index: usize) -> (r: EntryRepresentation)
        ensures
            r == self.required(index as int),
    {
        if index >= self.argument_count && index - self.argument_count < self.owned_locals.len()
            && self.owned_locals[index - self.argument_count] {
            EntryRepresentation::Any
        } else if index < self.representations.len() {
            self.representations[index]
        } else {
            self.representation
        }
    }

    /// Whether a tag meets what is required of the slot.
    fn accept(&self, code: &mut Code, index: usize, tag: usize, integer: usize, double: usize) -> (r: usize)
        requires
            tag < old(code).len(),
            integer < old(code).len(),
            double < old(code).len(),
        ensures
            kept(*old(code), *final(code)),
            old(code).holds(tag, Ty::I64) && old(code).holds(integer, Ty::I8) && old(code).holds(double, Ty::I8)
                ==> steady(*old(code), *final(code)),
            old(code).holds(tag, Ty::I64) && old(code).holds(integer, Ty::I8) && old(code).holds(double, Ty::I8)
                ==> final(code).holds(r, Ty::I8),
            r < final(code).len(),
            old(code).len() <= final(code).len(),
            forall|w: World|
                #![trigger final(code).at(w)]
                quiet(old(code).at(w), final(code).at(w), old(code).len()) && (old(code).at(w) matches Status::Run(s) ==> s.vals[integer as int]
                    == truth(s.vals[tag as int] == JS_TAG_INT) && s.vals[double as int] == truth(
                    s.vals[tag as int] == JS_TAG_FLOAT64,
                ) ==> value(final(code).at(w), r) == truth(self.admits(index as int, s.vals[tag as int]))),
    {
        broadcast use group_truths;

        match self.requirement(index) {
            EntryRepresentation::Any => code.iconst(Ty::I8, 1),
            EntryRepresentation::Numeric => {
                let numeric = code.binary(BinaryOp::Or, Ty::I8, integer, double);
                if index >= self.argument_count {
                    let undefined = opt_tag_is(code, tag, JS_TAG_UNDEFINED);
                    let uninitialized = opt_tag_is(code, tag, JS_TAG_UNINITIALIZED);
                    let unset = code.binary(BinaryOp::Or, Ty::I8, undefined, uninitialized);
                    code.binary(BinaryOp::Or, Ty::I8, numeric, unset)
                } else {
                    numeric
                }
            },
            EntryRepresentation::Bool => opt_tag_is(code, tag, JS_TAG_BOOL),
            EntryRepresentation::Int32 => integer,
            EntryRepresentation::Float64 => double,
            EntryRepresentation::HeapRef => opt_tag_is(code, tag, JS_TAG_OBJECT),
        }
    }
}

/// The first `k` slots, numbered from `first`, meet what is required of them.
pub open spec fn slots_admitted(
    requirements: SlotRequirements<'_>,
    vars: Map<int, int>,
    slots: Seq<OptVars>,
    first: int,
    k: int,
) -> bool {
    forall|i: int| 0 <= i < k ==> requirements.admits(first + i, vars[(#[trigger] slots[i]).tag as int])
}

pub open spec fn slots_numeric(vars: Map<int, int>, slots: Seq<OptVars>, k: int) -> bool {
    forall|i: int| 0 <= i < k ==> is_number(vars[(#[trigger] slots[i]).tag as int])
}

pub open spec fn some_double(vars: Map<int, int>, slots: Seq<OptVars>, k: int) -> bool {
    exists|i: int| 0 <= i < k && vars[(#[trigger] slots[i]).tag as int] == JS_TAG_FLOAT64
}

/// Three truth values in the code.
#[derive(Clone, Copy)]
struct Verdict {
    admitted: usize,
    numeric: usize,
    double: usize,
}

spec fn verdict_is(st: Status, v: Verdict, admitted: bool, numeric: bool, double: bool) -> bool {
    value(st, v.admitted) == truth(admitted) && value(st, v.numeric) == truth(numeric) && value(st, v.double) == truth(double)
}

spec fn verdict_known(v: Verdict, n: int) -> bool {
    v.admitted < n && v.numeric < n && v.double < n
}

spec fn verdict_step(
    st: Status,
    st2: Status,
    n: int,
    v: Verdict,
    v2: Verdict,
    requirements: SlotRequirements<'_>,
    slots: Seq<OptVars>,
    first: int,
    k: int,
) -> bool {
    quiet(st, st2, n) && (st matches Status::Run(s) ==> forall|a: bool, b: bool, c: bool| #[trigger]
        verdict_is(st, v, a, b, c) ==> verdict_is(
            st2,
            v2,
            a && slots_admitted(requirements, s.vars, slots, first, k),
            b && slots_numeric(s.vars, slots, k),
            c || some_double(s.vars, slots, k),
        ))
}

fn check_slot(
    code: &mut Code,
    payload_type: Ty,
    requirements: &SlotRequirements<'_>,
    slot: OptVars,
    index: usize,
    verdict: Verdict,
) -> (r: Verdict)
    requires
        verdict_known(verdict, old(code).len()),
    ensures
        kept(*old(code), *final(code)),
        slot_named(*old(code), slot, payload_type) && old(code).holds(verdict.admitted, Ty::I8)
            && old(code).holds(verdict.numeric, Ty::I8) && old(code).holds(verdict.double, Ty::I8)
            ==> steady(*old(code), *final(code)),
        final(code).kind(r.admitted as int) == Known::Value(Ty::I8),
        final(code).kind(r.numeric as int) == Known::Value(Ty::I8),
        final(code).kind(r.double as int) == Known::Value(Ty::I8),
        verdict_known(r, final(code).len()),
        old(code).len() <= final(code).len(),
        forall|w: World|
            #![trigger final(code).at(w)]
            quiet(old(code).at(w), final(code).at(w), old(code).len()) && (old(code).at(w) matches Status::Run(s)
                ==> forall|a: bool, b: bool, c: bool| #[trigger]
                verdict_is(old(code).at(w), verdict, a, b, c) ==> verdict_is(
                    final(code).at(w),
                    r,
                    a && requirements.admits(index as int, s.vars[slot.tag as int]),
                    b && is_number(s.vars[slot.tag as int]),
                    c || s.vars[slot.tag as int] == JS_TAG_FLOAT64,
                )),
{
    broadcast use group_truths;

    let pair = opt_use(code, slot, payload_type);
    let integer = opt_tag_is(code, pair.tag, JS_TAG_INT);
    let double = opt_tag_is(code, pair.tag, JS_TAG_FLOAT64);
    let ghost c1 = *code;
    let valid = requirements.accept(code, index, pair.tag, integer, double);
    let ghost c2 = *code;
    let admitted = code.binary(BinaryOp::And, Ty::I8, verdict.admitted, valid);
    let either = code.binary(BinaryOp::Or, Ty::I8, integer, double);
    let numeric = code.binary(BinaryOp::And, Ty::I8, verdict.numeric, either);
    let seen_double = code.binary(BinaryOp::Or, Ty::I8, verdict.double, double);
    let r = Verdict { admitted, numeric, double: seen_double };
    proof {
        assert forall|w: World|
            #![trigger code.at(w)]
            quiet(old(code).at(w), code.at(w), old(code).len()) && (old(code).at(w) matches Status::Run(s)
                ==> forall|a: bool, b: bool, c: bool| #[trigger]
                verdict_is(old(code).at(w), verdict, a, b, c) ==> verdict_is(
                    code.at(w),
                    r,
                    a && requirements.admits(index as int, s.vars[slot.tag as int]),
                    b && is_number(s.vars[slot.tag as int]),
                    c || s.vars[slot.tag as int] == JS_TAG_FLOAT64,
                )) by {
            let a1 = c1.at(w);
            let a2 = c2.at(w);
        }
    }
    r
}

fn check_slots(
    code: &mut Code,
    payload_type: Ty,
    requirements: &SlotRequirements<'_>,
    slots: &Vec<OptVars>,
    first: usize,
    verdict: Verdict,
) -> (r: Verdict)
    requires
        verdict_known(verdict, old(code).len()),
        first + slots@.len() <= usize::MAX,
    ensures
        kept(*old(code), *final(code)),
        slots_named(*old(code), slots@, payload_type) && old(code).holds(verdict.admitted, Ty::I8)
            && old(code).holds(verdict.numeric, Ty::I8) && old(code).holds(verdict.double, Ty::I8)
            ==> steady(*old(code), *final(code)),
        slots_named(*old(code), slots@, payload_type) && old(code).holds(verdict.admitted, Ty::I8)
            && old(code).holds(verdict.numeric, Ty::I8) && old(code).holds(verdict.double, Ty::I8)
            ==> final(code).holds(r.admitted, Ty::I8) && final(code).holds(r.numeric, Ty::I8)
                && final(code).holds(r.double, Ty::I8),
        verdict_known(r, final(code).len()),
        old(code).len() <= final(code).len(),
        forall|w: World|
            #![trigger final(code).at(w)]
            verdict_step(
                old(code).at(w),
                final(code).at(w),
                old(code).len(),
                verdict,
                r,
                *requirements,
                slots@,
                first as int,
                slots@.len() as int,
            ),
{
    let mut current = verdict;
    let mut i: usize = 0;
    while i < slots.len()
        invariant
            kept(*old(code), *code),
            slots_named(*old(code), slots@, payload_type) && old(code).holds(verdict.admitted, Ty::I8)
                && old(code).holds(verdict.numeric, Ty::I8) && old(code).holds(verdict.double, Ty::I8)
                ==> steady(*old(code), *code),
            slots_named(*old(code), slots@, payload_type) && old(code).holds(verdict.admitted, Ty::I8)
                && old(code).holds(verdict.numeric, Ty::I8) && old(code).holds(verdict.double, Ty::I8)
                ==> slots_named(*code, slots@, payload_type) && code.holds(current.admitted, Ty::I8)
                    && code.holds(current.numeric, Ty::I8) && code.holds(current.double, Ty::I8),
            i <= slots@.len(),
            first + slots@.len() <= usize::MAX,
            verdict_known(current, code.len()),
            old(code).len() <= code.len(),
            forall|w: World|
                #![trigger code.at(w)]
                verdict_step(
                    old(code).at(w),
                    code.at(w),
                    old(code).len(),
                    verdict,
                    current,
                    *requirements,
                    slots@,
                    first as int,
                    i as int,
                ),
        decreases slots@.len() - i,
    {
        let ghost before = *code;
        let ghost v0 = current;
        current = check_slot(code, payload_type, requirements, slots[i], first + i, current);
        proof {
            assert forall|w: World|
                #![trigger code.at(w)]
                verdict_step(
                    old(code).at(w),
                    code.at(w),
                    old(code).len(),
                    verdict,
                    current,
                    *requirements,
                    slots@,
                    first as int,
                    i + 1,
                ) by {
                let b = before.at(w);
                if let Status::Run(s) = old(code).at(w) {
                    assert forall|x: bool, y: bool, z: bool| #[trigger]
                        verdict_is(old(code).at(w), verdict, x, y, z) implies verdict_is(
                        code.at(w),
                        current,
                        x && slots_admitted(*requirements, s.vars, slots@, first as int, i + 1),
                        y && slots_numeric(s.vars, slots@, i + 1),
                        z || some_double(s.vars, slots@, i + 1),
                    ) by {
                        let x1 = x && slots_admitted(*requirements, s.vars, slots@, first as int, i as int);
                        let y1 = y && slots_numeric(s.vars, slots@, i as int);
                        let z1 = z || some_double(s.vars, slots@, i as int);
                        assert(verdict_is(b, v0, x1, y1, z1));
                        let tag = s.vars[slots@[i as int].tag as int];
                        assert(slots_admitted(*requirements, s.vars, slots@, first as int, i + 1) == (slots_admitted(
                            *requirements,
                            s.vars,
                            slots@,
                            first as int,
                            i as int,
                        ) && requirements.admits(first + i, tag))) by {
                            if slots_admitted(*requirements, s.vars, slots@, first as int, i + 1) {
                                assert(requirements.admits(first + i, vars_tag(s.vars, slots@, i as int)));
                            }
                        }
                        assert(slots_numeric(s.vars, slots@, i + 1) == (slots_numeric(s.vars, slots@, i as int) && is_number(tag)));
                        assert(some_double(s.vars, slots@, i + 1) == (some_double(s.vars, slots@, i as int) || tag
                            == JS_TAG_FLOAT64)) by {
                            if tag == JS_TAG_FLOAT64 {
                                assert(s.vars[slots@[i as int].tag as int] == JS_TAG_FLOAT64);
                            }
                            if some_double(s.vars, slots@, i + 1) && tag != JS_TAG_FLOAT64 {
                                let k = choose|k: int|
                                    0 <= k < i + 1 && s.vars[(#[trigger] slots@[k]).tag as int] == JS_TAG_FLOAT64;
                                assert(k < i);
                            }
                        }
                    }
                }
            }
        }
        i = i + 1;
    }
    current
}

spec fn vars_tag(vars: Map<int, int>, slots: Seq<OptVars>, i: int) -> int {
    vars[slots[i].tag as int]
}

/// The flag that records a taken side path, set.
pub open spec fn side_path_trace(env: OptEnv<'_>, s: State, w: World) -> Seq<Event> {
    let address = s.vals[env.frame as int] + env.abi.flags;
    wrote(
        read(s.trace, Ty::I32, address, w),
        Ty::I32,
        address,
        binary_value(BinaryOp::Or, Ty::I32, seen(s.trace, Ty::I32, w), env.abi.side_path_hit as int),
    )
}

/// The exit of a guard at which the frame is as the interpreter left it.
pub open spec fn guard_exit(env: OptEnv<'_>, s: State, pc: u32, guard: u32, w: World) -> Seq<Event> {
    exit_record(
        pc_store(s.trace, *env.abi, s.vals[env.frame as int], pc, w),
        *env.abi,
        s.vals[env.sret as int],
        env.abi.exit_deopt,
        pc_address(s.trace, pc, w),
        guard,
    )
}

pub open spec fn takes_side_path(side_path: Option<SidePathProfile>) -> bool {
    side_path matches Some(profile) && profile.observed == ObservedType::Float64
}

pub open spec fn numeric_guard_post(
    env: OptEnv<'_>,
    st: Status,
    st2: Status,
    n: int,
    requirements: SlotRequirements<'_>,
    arguments: Seq<OptVars>,
    locals: Seq<OptVars>,
    guard: u32,
    pc: u32,
    pass: usize,
    side_path: Option<SidePathProfile>,
    w: World,
) -> bool {
    match st {
        Status::Run(s) => if slots_admitted(requirements, s.vars, arguments, 0, arguments.len() as int) && slots_admitted(
            requirements,
            s.vars,
            locals,
            arguments.len() as int,
            locals.len() as int,
        ) {
            waits_at(st2, s, n, pass, s.vars, s.trace)
        } else if takes_side_path(side_path) && slots_numeric(s.vars, arguments, arguments.len() as int) && slots_numeric(
            s.vars,
            locals,
            locals.len() as int,
        ) && (some_double(s.vars, arguments, arguments.len() as int) || some_double(s.vars, locals, locals.len() as int)) {
            waits_at(st2, s, n, pass, s.vars, side_path_trace(env, s, w))
        } else {
            exits_with(st2, guard_exit(env, s, pc, guard, w))
        },
        st => st2 == st,
    }
}

/// Checks the tags of the frame's slots: control leaves for `pass` where every
/// slot meets what is required of it, or where the frame fits the side path.
/// Otherwise it leaves the function with the frame untouched.
pub fn emit_opt_numeric_guard(
    code: &mut Code,
    env: &OptEnv<'_>,
    requirements: &SlotRequirements<'_>,
    arguments: &Vec<OptVars>,
    locals: &Vec<OptVars>,
    guard: u32,
    pc: u32,
    pass: usize,
    side_path: Option<SidePathProfile>,
)
    requires
        env.wf(old(code).len()),
        pass < old(code).len(),
        arguments@.len() + locals@.len() <= usize::MAX,
    ensures
        kept(*old(code), *final(code)),
        env.typed(*old(code)) && slots_named(*old(code), arguments@, Ty::I64)
            && slots_named(*old(code), locals@, Ty::I64) && old(code).blocked(pass)
            ==> closing(*old(code), *final(code)),
        final(code).len() >= old(code).len(),
        forall|w: World|
            #![trigger final(code).at(w)]
            numeric_guard_post(
                *env,
                old(code).at(w),
                final(code).at(w),
                old(code).len(),
                *requirements,
                arguments@,
                locals@,
                guard,
                pc,
                pass,
                side_path,
                w,
            ),
{
    broadcast use group_truths;

    let yes = code.iconst(Ty::I8, 1);
    let no = code.iconst(Ty::I8, 0);
    let ghost c1 = *code;
    let initial = Verdict { admitted: yes, numeric: yes, double: no };
    let first = check_slots(code, env.payload_type, requirements, arguments, 0, initial);
    let ghost c2 = *code;
    let verdict = check_slots(code, env.payload_type, requirements, locals, arguments.len(), first);
    let ghost c3 = *code;
    proof {
        assert forall|w: World|
            #![trigger c3.at(w)]
            quiet(old(code).at(w), c3.at(w), old(code).len()) && (old(code).at(w) matches Status::Run(s) ==> verdict_is(
                c3.at(w),
                verdict,
                slots_admitted(*requirements, s.vars, arguments@, 0, arguments@.len() as int) && slots_admitted(
                    *requirements,
                    s.vars,
                    locals@,
                    arguments@.len() as int,
                    locals@.len() as int,
                ),
                slots_numeric(s.vars, arguments@, arguments@.len() as int) && slots_numeric(s.vars, locals@, locals@.len() as int),
                some_double(s.vars, arguments@, arguments@.len() as int) || some_double(s.vars, locals@, locals@.len() as int),
            )) by {
            let a1 = c1.at(w);
            let a2 = c2.at(w);
            if let Status::Run(s) = old(code).at(w) {
                assert(verdict_is(a1, initial, true, true, false));
                assert(verdict_is(
                    a2,
                    first,
                    true && slots_admitted(*requirements, s.vars, arguments@, 0, arguments@.len() as int),
                    true && slots_numeric(s.vars, arguments@, arguments@.len() as int),
                    false || some_double(s.vars, arguments@, arguments@.len() as int),
                ));
            }
        }
    }
    let deopt = code.new_block();
    let side = match side_path {
        Some(profile) => profile.observed == ObservedType::Float64,
        None => false,
    };
    if side {
        let side_check = code.new_block();
        let side_block = code.new_block();
        code.branch(verdict.admitted, pass, side_check);
        let _ = code.switch_to(side_check);
        let matches_profile = code.binary(BinaryOp::And, Ty::I8, verdict.numeric, verdict.double);
        code.branch(matches_profile, side_block, deopt);
        let _ = code.switch_to(side_block);
        let flags = code.load(Ty::I32, env.frame, env.abi.flags);
        let marked = code.binary_imm(BinaryOp::Or, Ty::I32, flags, env.abi.side_path_hit as i64);
        code.store(Ty::I32, marked, env.frame, env.abi.flags);
        code.jump(pass);
    } else {
        code.branch(verdict.admitted, pass, deopt);
    }
    let ghost c4 = *code;
    let _ = code.switch_to(deopt);
    let ghost c5 = *code;
    let resume = set_pc(code, env, pc);
    let ghost c6 = *code;
    emit_opt_exit(code, env, env.abi.exit_deopt, Some(resume), guard);
    proof {
        assert forall|w: World|
            #![trigger code.at(w)]
            numeric_guard_post(
                *env,
                old(code).at(w),
                code.at(w),
                old(code).len(),
                *requirements,
                arguments@,
                locals@,
                guard,
                pc,
                pass,
                side_path,
                w,
            ) by {
            waits_for_known_blocks(old(code).insts@, w);
            let a3 = c3.at(w);
            let a4 = c4.at(w);
            let a5 = c5.at(w);
            let a6 = c6.at(w);
        }
    }
}

/// The program counter of the block that follows the block at `pc`.
pub open spec fn following_pc(ir: OptimizedIr, pc: u32) -> Option<u32> {
    match crate::runtime::first_at(|i: int| ir.blocks@[i].start_pc == pc, ir.blocks@.len()) {
        Some(i) => if i + 1 < ir.blocks@.len() {
            Some(ir.blocks@[i + 1].start_pc)
        } else {
            None
        },
        None => None,
    }
}

/// Finds the block that control falls through to.
pub fn next_block_pc(ir: &OptimizedIr, pc: u32) -> (r: Result<u32, CompileFailure>)
    ensures
        r matches Ok(next) ==> following_pc(*ir, pc) == Some(next),
        r is Err ==> following_pc(*ir, pc) is None && r == Err::<u32, CompileFailure>(CompileFailure::InvalidArtifact),
{
    let ghost f = |i: int| ir.blocks@[i].start_pc == pc;
    let mut i: usize = 0;
    while i < ir.blocks.len()
        invariant
            i <= ir.blocks@.len(),
            f == (|i: int| ir.blocks@[i].start_pc == pc),
            forall|k: int| 0 <= k < i ==> !#[trigger] f(k),
        decreases ir.blocks@.len() - i,
    {
        if ir.blocks[i].start_pc == pc {
            proof {
                crate::runtime::first_at_is(f, ir.blocks@.len(), i as int);
            }
            if i + 1 < ir.blocks.len() {
                return Ok(ir.blocks[i + 1].start_pc);
            }
            return Err(CompileFailure::InvalidArtifact);
        }
        i = i + 1;
    }
    proof {
        crate::runtime::first_at_none(f, ir.blocks@.len());
    }
    Err(CompileFailure::InvalidArtifact)
}

/// How many loop iterations pass between two polls.
pub const POLL_INTERVAL: i64 = 64;

/// Counts one iteration: control goes on in the block that polls where the
/// budget is used up, and is at `skip` otherwise.
pub open spec fn countdown_post(st: Status, st2: Status, n: int, budget: usize, skip: usize, w: World) -> bool {
    match st {
        Status::Run(s) => {
            let before = seen(s.trace, Ty::I64, w);
            let after = wrap(Ty::I64, before - 1);
            let trace = s.trace.push(
                Event::SlotLoad { ty: Ty::I64, slot: budget as int, offset: 0, value: before },
            ).push(Event::SlotStore { ty: Ty::I64, slot: budget as int, offset: 0, value: after });
            if after == 0 {
                runs_on(st2, s, n, s.vars, trace)
            } else {
                waits_at(st2, s, n, skip, s.vars, trace)
            }
        },
        st => st2 == st,
    }
}

/// Starts a poll that happens on every 64th iteration. Whatever is emitted next
/// belongs to the block that polls; `finish_amortized_poll` closes it.
pub fn begin_amortized_poll(code: &mut Code, budget: usize, cold_poll: bool) -> (skip: usize)
    ensures
        kept(*old(code), *final(code)),
        old(code).slotted(budget) ==> steady(*old(code), *final(code)),
        final(code).blocked(skip),
        final(code).unstarted(skip as int),
        old(code).len() <= skip < final(code).len(),
        forall|w: World|
            #![trigger final(code).at(w)]
            countdown_post(old(code).at(w), final(code).at(w), old(code).len(), budget, skip, w),
{
    let remaining = code.slot_load(Ty::I64, budget, 0);
    let left = code.binary_imm(BinaryOp::Add, Ty::I64, remaining, -1);
    code.slot_store(Ty::I64, left, budget, 0);
    let due = code.compare_imm(IntCc::Equal, Ty::I64, left, 0);
    let poll = if cold_poll {
        code.new_cold_block()
    } else {
        code.new_block()
    };
    let skip = code.new_block();
    code.branch(due, poll, skip);
    let _ = code.switch_to(poll);
    proof {
        assert forall|w: World|
            #![trigger code.at(w)]
            countdown_post(old(code).at(w), code.at(w), old(code).len(), budget, skip, w) by {
            waits_for_known_blocks(old(code).insts@, w);
        }
    }
    skip
}

/// Refills the budget, and lets the iterations that did not poll go on.
pub open spec fn refilled_post(st: Status, st2: Status, n: int, budget: usize, skip: usize) -> bool {
    match st {
        Status::Run(s) => runs_on(
            st2,
            s,
            n,
            s.vars,
            s.trace.push(
                Event::SlotStore { ty: Ty::I64, slot: budget as int, offset: 0, value: POLL_INTERVAL as int },
            ),
        ),
        Status::Wait { block, args, state } => if block == skip {
            runs_on(st2, state, n, state.vars, state.trace)
        } else {
            st2 == st
        },
        st => st2 == st,
    }
}

pub fn finish_amortized_poll(code: &mut Code, budget: usize, skip: usize)
    requires
        skip < old(code).len(),
    ensures
        kept(*old(code), *final(code)),
        old(code).slotted(budget) && old(code).blocked(skip) && old(code).unstarted(skip as int)
            ==> steady_but(*old(code), *final(code), skip),
        final(code).len() >= old(code).len(),
        forall|w: World|
            #![trigger final(code).at(w)]
            refilled_post(old(code).at(w), final(code).at(w), old(code).len(), budget, skip),
{
    let reset = code.iconst(Ty::I64, POLL_INTERVAL);
    code.slot_store(Ty::I64, reset, budget, 0);
    code.jump(skip);
    let _ = code.switch_to(skip);
}

} // verus!
