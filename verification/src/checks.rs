//! Chains of run-time checks that share one failure block.
use crate::code::agree;
use crate::code::waits_for_known_blocks;
use crate::code::wrap;
use crate::code::kept;
use crate::code::Code;
use crate::code::Event;
use crate::code::State;
use crate::code::Status;
use crate::code::Ty;
use crate::code::World;
use crate::control::CompileFailure;
use crate::exits::deopt_trace;
use crate::exits::emit_opt_deopt;
use crate::exits::own_failure;
use crate::exits::stack_ownable;
use crate::frame::exits_with;
use crate::frame::runs_on;
use crate::frame::OptEnv;
use crate::provenance::OptProvenance;
use crate::typing::branched;
use crate::typing::steady;
use crate::typing::appended;
use crate::typing::closing;
use crate::typing::calm;
use crate::assemble::Known;
use crate::frame_typing::pair_held;
use crate::frame_typing::slot_named;
use crate::frame_typing::slots_named;
use crate::frame_typing::cached_named;
use crate::frame_typing::cache_named;
use crate::clif::Passed;
use crate::typing::live;
use vstd::prelude::*;

verus! {

broadcast use {crate::typing::group_typing, crate::frame_typing::group_frame};

/// The world's answer to the observation after `trace`.
pub open spec fn seen(trace: Seq<Event>, ty: Ty, w: World) -> int {
    wrap(ty, (w.observe)(trace.len() as int))
}

/// A load at an address.
pub open spec fn read(trace: Seq<Event>, ty: Ty, address: int, w: World) -> Seq<Event> {
    trace.push(Event::Load { ty, address: wrap(Ty::I64, address), value: seen(trace, ty, w) })
}

/// A store at an address.
pub open spec fn wrote(trace: Seq<Event>, ty: Ty, address: int, value: int) -> Seq<Event> {
    trace.push(Event::Store { ty, address: wrap(Ty::I64, address), value })
}

/// Control is at the block `target`.
pub open spec fn waits_at(st: Status, s: State, n: int, target: usize, vars: Map<int, int>, trace: Seq<Event>) -> bool {
    st matches Status::Wait { block, args, state } && block == target && args.len() == 0 && state.vars == vars && state.trace
        == trace && agree(s, state, n)
}

/// Control goes on, or is at the block `target`.
pub open spec fn steers(
    st: Status,
    s: State,
    n: int,
    target: usize,
    ok: bool,
    vars: Map<int, int>,
    trace: Seq<Event>,
) -> bool {
    if ok {
        runs_on(st, s, n, vars, trace)
    } else {
        waits_at(st, s, n, target, vars, trace)
    }
}

/// Goes on where `condition` holds, and leaves for `failed` otherwise.
pub fn require(code: &mut Code, condition: usize, failed: usize)
    requires
        failed < old(code).len(),
    ensures
        kept(*old(code), *final(code)),
        old(code).integer(condition) && old(code).blocked(failed) ==> steady(*old(code), *final(code)),
        final(code).len() == old(code).len() + 3,
        forall|w: World| #[trigger]
            final(code).at(w) == (match old(code).at(w) {
                Status::Run(s) => if s.vals[condition as int] != 0 {
                    Status::Run(State { incoming: Seq::empty(), ..s })
                } else {
                    Status::Wait { block: failed as int, args: Seq::empty(), state: s }
                },
                st => st,
            }),
{
    let pass = code.new_block();
    code.branch(condition, pass, failed);
    let _ = code.switch_to(pass);
    proof {
        reveal(appended);
        reveal(branched);
        assert forall|w: World| #[trigger]
            code.at(w) == (match old(code).at(w) {
                Status::Run(s) => if s.vals[condition as int] != 0 {
                    Status::Run(State { incoming: Seq::empty(), ..s })
                } else {
                    Status::Wait { block: failed as int, args: Seq::empty(), state: s }
                },
                st => st,
            }) by {
            waits_for_known_blocks(old(code).insts@, w);
        }
    }
}

/// Leaves for `failed` where `condition` holds, and goes on otherwise.
pub fn forbid(code: &mut Code, condition: usize, failed: usize)
    requires
        failed < old(code).len(),
    ensures
        kept(*old(code), *final(code)),
        old(code).integer(condition) && old(code).blocked(failed) ==> steady(*old(code), *final(code)),
        final(code).len() == old(code).len() + 3,
        forall|w: World| #[trigger]
            final(code).at(w) == (match old(code).at(w) {
                Status::Run(s) => if s.vals[condition as int] != 0 {
                    Status::Wait { block: failed as int, args: Seq::empty(), state: s }
                } else {
                    Status::Run(State { incoming: Seq::empty(), ..s })
                },
                st => st,
            }),
{
    let pass = code.new_block();
    code.branch(condition, failed, pass);
    let _ = code.switch_to(pass);
    proof {
        reveal(appended);
        reveal(branched);
        assert forall|w: World| #[trigger]
            code.at(w) == (match old(code).at(w) {
                Status::Run(s) => if s.vals[condition as int] != 0 {
                    Status::Wait { block: failed as int, args: Seq::empty(), state: s }
                } else {
                    Status::Run(State { incoming: Seq::empty(), ..s })
                },
                st => st,
            }) by {
            waits_for_known_blocks(old(code).insts@, w);
        }
    }
}

/// What the code of the shared failure block makes of a run: control that goes
/// on is let through, and control that is at the block deoptimizes.
pub open spec fn rejoined(
    env: OptEnv<'_>,
    st: Status,
    st2: Status,
    failed: usize,
    provenance: Seq<OptProvenance>,
    depth: int,
    pc: u32,
    guard: u32,
    w: World,
) -> bool {
    match st {
        Status::Run(s) => st2 == Status::Run(State { incoming: Seq::empty(), ..s }),
        Status::Wait { block, args, state } => if block == failed {
            exits_with(st2, deopt_trace(env, state, state.vars, state.trace, provenance, depth as nat, pc, guard, w))
        } else {
            st2 == st
        },
        st => st2 == st,
    }
}

/// Writes the failure block of a chain of checks: it deoptimizes.
pub fn rejoin(
    code: &mut Code,
    env: &OptEnv<'_>,
    failed: usize,
    provenance: &Vec<OptProvenance>,
    depth: usize,
    pc: u32,
    guard: u32,
) -> (r: Result<(), CompileFailure>)
    requires
        env.wf(old(code).len()),
        depth <= env.stack@.len(),
        failed < old(code).len(),
    ensures
        kept(*old(code), *final(code)),
        r is Ok && env.typed(*old(code)) && old(code).unstarted(failed as int) && old(code).blocked(failed)
            ==> (forall|p: Seq<Passed>| live(*old(code), p) ==> #[trigger] live(*final(code), p)),
        forall|block: int|
            0 <= block < old(code).len() && block != failed && r is Ok && env.typed(*old(code))
                && old(code).unstarted(failed as int)
                ==> #[trigger] final(code).unstarted(block) == old(code).unstarted(block),
        r is Ok <==> env.int32_loop || stack_ownable(*env, provenance@, depth as int),
        r matches Err(e) ==> e == own_failure(*env, provenance@, depth as int),
        final(code).len() >= old(code).len(),
        r is Ok ==> forall|w: World|
            #![trigger final(code).at(w)]
            rejoined(
                *env,
                old(code).at(w),
                final(code).at(w),
                failed,
                provenance@,
                depth as int,
                pc,
                guard,
                w,
            ),
{
    let continuation = code.new_block();
    code.jump(continuation);
    let _ = code.switch_to(failed);
    let ghost c1 = *code;
    if let Err(e) = emit_opt_deopt(code, env, provenance, depth, pc, guard) {
        return Err(e);
    }
    let ghost c2 = *code;
    let _ = code.switch_to(continuation);
    proof {
        assert forall|w: World|
            #![trigger code.at(w)]
            rejoined(*env, old(code).at(w), code.at(w), failed, provenance@, depth as int, pc, guard, w) by {
            waits_for_known_blocks(old(code).insts@, w);
            let a1 = c1.at(w);
            let a2 = c2.at(w);
            if let Status::Wait { block, args, state } = old(code).at(w) {
                if block == failed {
                    crate::exits::same_deopt(
                        *env,
                        state,
                        a1->Run_0,
                        provenance@,
                        depth as nat,
                        pc,
                        guard,
                        w,
                    );
                }
            }
        }
    }
    Ok(())
}

} // verus!
